use vstd::prelude::*;

use crate::text::{chars_of, lines, split_lines, string_of};

verus! {

/// A problem found in a project's configuration file.
pub enum ValidationError {
    ConfigFileNotFound(String),
    ConfigFileReadError(String),
    ConfigFileEmpty(String),
    InvalidConfigFormat(String),
    MissingProjectField { field: String },
    MissingDocumentField { key: String, field: String },
    InvalidDocumentPath { key: String, path: String, reason: String },
    EmptyDocumentConfig { key: String },
    MissingSubDocumentField { parent_key: String, index: usize, field: String },
    InvalidSubDocumentPath { parent_key: String, index: usize, path: String, reason: String },
    EmptySubDocumentConfig { parent_key: String, index: usize },
    InvalidDocumentKey { key: String },
    DuplicateDocumentPath { path: String },
    CircularReference { key: String },
    InvalidPath { key: String, path: String, reason: String },
    NonExistentFile { key: String, path: String },
    NonExistentSubDocumentFile { parent_key: String, index: usize, path: String },
    InvalidTomlKey { key: String },
    ProblematicTitle { title: String },
    ProblematicProjectName { name: String },
}

/// An error with the number and text of the line it concerns, where known.
pub struct ValidationErrorWithContext {
    pub error: ValidationError,
    pub line_info: Option<(usize, String)>,
}

impl ValidationError {
    /// This error, with the line it concerns.
    pub fn with_line_context(self, line_info: Option<(usize, String)>) -> (r:
        ValidationErrorWithContext)
        ensures
            r.error == self,
            r.line_info == line_info,
    {
        ValidationErrorWithContext { error: self, line_info }
    }
}

/// Errors and warnings gathered while checking a configuration.
pub struct ValidationResult {
    pub is_valid: bool,
    pub errors: Vec<ValidationError>,
    pub errors_with_context: Vec<ValidationErrorWithContext>,
    pub warnings: Vec<String>,
}

/// The line that a 1-based line number names, line 0 read as line 1; empty past the end.
pub open spec fn line_at(text: Seq<char>, n: int) -> Seq<char> {
    let i = if n == 0 {
        0
    } else {
        n - 1
    };
    if i < lines(text).len() {
        lines(text)[i]
    } else {
        Seq::empty()
    }
}

impl ValidationResult {
    /// A result with nothing found.
    pub fn new() -> (r: ValidationResult)
        ensures
            r.is_valid,
            r.errors@.len() == 0,
            r.errors_with_context@.len() == 0,
            r.warnings@.len() == 0,
    {
        ValidationResult {
            is_valid: true,
            errors: Vec::new(),
            errors_with_context: Vec::new(),
            warnings: Vec::new(),
        }
    }

    /// Records an error; the result is no longer valid.
    pub fn add_error(&mut self, error: ValidationError)
        ensures
            !final(self).is_valid,
            final(self).errors@ == old(self).errors@.push(error),
            final(self).errors_with_context@ == old(self).errors_with_context@,
            final(self).warnings@ == old(self).warnings@,
    {
        self.is_valid = false;
        self.errors.push(error);
    }

    /// Records an error with its line; the result is no longer valid.
    pub fn add_error_with_context(&mut self, error: ValidationErrorWithContext)
        ensures
            !final(self).is_valid,
            final(self).errors@ == old(self).errors@,
            final(self).errors_with_context@ == old(self).errors_with_context@.push(error),
            final(self).warnings@ == old(self).warnings@,
    {
        self.is_valid = false;
        self.errors_with_context.push(error);
    }

    /// Records a warning; validity is unchanged.
    pub fn add_warning(&mut self, warning: String)
        ensures
            final(self).is_valid == old(self).is_valid,
            final(self).errors@ == old(self).errors@,
            final(self).errors_with_context@ == old(self).errors_with_context@,
            final(self).warnings@ == old(self).warnings@.push(warning),
    {
        self.warnings.push(warning);
    }

    /// Appends another result's findings; the result stays valid only if both were.
    pub fn merge(&mut self, other: ValidationResult)
        ensures
            final(self).is_valid == (old(self).is_valid && other.is_valid),
            final(self).errors@ == old(self).errors@ + other.errors@,
            final(self).errors_with_context@ == old(self).errors_with_context@
                + other.errors_with_context@,
            final(self).warnings@ == old(self).warnings@ + other.warnings@,
    {
        if !other.is_valid {
            self.is_valid = false;
        }
        let ValidationResult { is_valid: _, errors, errors_with_context, warnings } = other;
        let mut errors = errors;
        let mut errors_with_context = errors_with_context;
        let mut warnings = warnings;
        self.errors.append(&mut errors);
        self.errors_with_context.append(&mut errors_with_context);
        self.warnings.append(&mut warnings);
    }

    /// Records an error with the text of line `error_line` of the configuration, where a line is
    /// given; otherwise records it plainly.
    pub fn add_error_with_toml_context(
        &mut self,
        error: ValidationError,
        toml_content: &str,
        error_line: Option<usize>,
    )
        ensures
            !final(self).is_valid,
            final(self).warnings@ == old(self).warnings@,
            match error_line {
                Some(n) => final(self).errors@ == old(self).errors@ && final(self).errors_with_context@.len() == old(self).errors_with_context@.len() + 1
                    && final(self).errors_with_context@.drop_last() == old(self).errors_with_context@ && final(self).errors_with_context@.last().error == error
                    && (final(self).errors_with_context@.last().line_info matches Some(li) && li.0
                    == n && li.1@ == line_at(toml_content@, n as int)),
                None => final(self).errors@ == old(self).errors@.push(error)
                    && final(self).errors_with_context@ == old(self).errors_with_context@,
            },
    {
        match error_line {
            Some(line_num) => {
                let s = chars_of(toml_content);
                let ls = split_lines(&s);
                let i: usize = if line_num == 0 {
                    0
                } else {
                    line_num - 1
                };
                let content = if i < ls.len() {
                    string_of(&ls[i])
                } else {
                    string_of(&Vec::new())
                };
                let ghost before = self.errors_with_context@;
                let with_context = error.with_line_context(Some((line_num, content)));
                self.add_error_with_context(with_context);
                assert(self.errors_with_context@.drop_last() =~= before);
            },
            None => {
                self.add_error(error);
            },
        }
    }
}

/// Where in the document tree a problem lies.
pub enum ValidationContext {
    Document { key: String },
    SubDocument { parent_key: String, index: usize },
}

impl ValidationContext {
    /// The invalid-path error for this place.
    pub fn create_path_error(&self, path: String, reason: String) -> (r: ValidationError)
        ensures
            match self {
                ValidationContext::Document { key } => r == (ValidationError::InvalidDocumentPath {
                    key: *key,
                    path,
                    reason,
                }),
                ValidationContext::SubDocument { parent_key, index } => r == (
                ValidationError::InvalidSubDocumentPath {
                    parent_key: *parent_key,
                    index: *index,
                    path,
                    reason,
                }),
            },
    {
        match self {
            ValidationContext::Document { key } => ValidationError::InvalidDocumentPath {
                key: key.clone(),
                path,
                reason,
            },
            ValidationContext::SubDocument { parent_key, index } => ValidationError::InvalidSubDocumentPath {
                parent_key: parent_key.clone(),
                index: *index,
                path,
                reason,
            },
        }
    }

    /// The missing-file error for this place.
    pub fn create_missing_file_error(&self, path: String) -> (r: ValidationError)
        ensures
            match self {
                ValidationContext::Document { key } => r == (ValidationError::NonExistentFile {
                    key: *key,
                    path,
                }),
                ValidationContext::SubDocument { parent_key, index } => r == (
                ValidationError::NonExistentSubDocumentFile {
                    parent_key: *parent_key,
                    index: *index,
                    path,
                }),
            },
    {
        match self {
            ValidationContext::Document { key } => ValidationError::NonExistentFile {
                key: key.clone(),
                path,
            },
            ValidationContext::SubDocument { parent_key, index } => ValidationError::NonExistentSubDocumentFile {
                parent_key: parent_key.clone(),
                index: *index,
                path,
            },
        }
    }
}

} // verus!
