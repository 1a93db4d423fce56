use documents::output::{FileSystemStorage, OutputConfig};

#[test]
fn storage_paths_are_made_safe() {
    let s = FileSystemStorage::new("/data/out".to_string(), OutputConfig::default());
    assert_eq!(s.get_repository_path("org/repo:x"), "/data/out/org_repo_x");
    assert_eq!(s.get_fragment_path("org/repo", "f1", "json"), "/data/out/org_repo/fragments/f1.json");
    assert_eq!(s.get_collection_path("repo", "html"), "/data/out/repo/collection.html");
    let t = FileSystemStorage::new("base/".to_string(), OutputConfig::default());
    assert_eq!(t.get_repository_path("r"), "base/r");
}

#[test]
fn default_output_config() {
    let c = OutputConfig::default();
    assert_eq!(c.base_path, Some("./output".to_string()));
    assert!(c.enable_versioning);
    assert!(!c.enable_compression);
}
