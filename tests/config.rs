use documents::config::{ApplicationConfig, ApplicationConfigError};
use documents::{count_document_paths, DocumentConfig};

#[test]
fn test_config_validation() {
    let config = ApplicationConfig {
        github_token: "".to_string(),
        github_organization: "test-org".to_string(),
        database_url: "postgres://localhost/test".to_string(),
        server_host: "localhost".to_string(),
        server_port: 3000,
    };
    let result = config.validate();
    assert!(result.is_err());
}

#[test]
fn validation_names_the_first_missing_setting() {
    let mut config = ApplicationConfig {
        github_token: "t".to_string(),
        github_organization: "".to_string(),
        database_url: "".to_string(),
        server_host: "localhost".to_string(),
        server_port: 3000,
    };
    match config.validate() {
        Err(ApplicationConfigError::MissingEnvVar(v)) => assert_eq!(v, "GITHUB_ORGANIZATION"),
        _ => panic!("expected a missing variable"),
    }
    config.github_organization = "org".to_string();
    match config.validate() {
        Err(ApplicationConfigError::MissingEnvVar(v)) => assert_eq!(v, "DATABASE_URL"),
        _ => panic!("expected a missing variable"),
    }
    config.database_url = "db".to_string();
    assert!(config.validate().is_ok());
}

fn doc(title: &str, path: Option<&str>, subs: Option<Vec<DocumentConfig>>) -> DocumentConfig {
    DocumentConfig { title: title.to_string(), path: path.map(|p| p.to_string()), sub_documents: subs }
}

#[test]
fn counts_paths_through_the_tree() {
    let tree = doc(
        "Root",
        None,
        Some(vec![
            doc("A", Some("a.md"), None),
            doc("B", Some("b.md"), Some(vec![doc("C", Some("c.md"), None), doc("D", None, None)])),
        ]),
    );
    assert_eq!(count_document_paths(&tree), 3);
    assert_eq!(count_document_paths(&doc("Leaf", Some("x.md"), None)), 1);
    assert_eq!(count_document_paths(&doc("Empty", None, None)), 0);
}

#[test]
fn document_keys_stay_unique_in_declared_order() {
    use_insert();
}

fn use_insert() {
    let mut c = documents::ProjectConfig::new(documents::ProjectDetails {
        name: "p".to_string(),
        description: "d".to_string(),
    });
    c.insert_document("a".to_string(), doc("A", Some("a.md"), None));
    c.insert_document("b".to_string(), doc("B", Some("b.md"), None));
    c.insert_document("a".to_string(), doc("A2", Some("a2.md"), None));
    assert_eq!(c.documents.len(), 2);
    assert_eq!(c.documents[0].0, "a");
    assert_eq!(c.documents[0].1.title, "A2");
    assert_eq!(c.documents[1].0, "b");
}
