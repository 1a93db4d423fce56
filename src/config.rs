use vstd::prelude::*;

verus! {

/// Settings of the service: host credentials, database and listening address.
pub struct ApplicationConfig {
    pub github_token: String,
    pub github_organization: String,
    pub database_url: String,
    pub server_host: String,
    pub server_port: u16,
}

/// Why the settings cannot be used.
pub enum ApplicationConfigError {
    MissingEnvVar(String),
    InvalidValue { variable: String, value: String },
}

pub open spec fn token_var() -> Seq<char> {
    "GITHUB_TOKEN"@
}

pub open spec fn organization_var() -> Seq<char> {
    "GITHUB_ORGANIZATION"@
}

pub open spec fn database_var() -> Seq<char> {
    "DATABASE_URL"@
}

impl ApplicationConfig {
    /// Checks that the token, organization and database URL are set, in that order; the first
    /// empty one is named in the error.
    pub fn validate(&self) -> (r: Result<(), ApplicationConfigError>)
        ensures
            self.github_token@.len() == 0 ==> (r matches Err(ApplicationConfigError::MissingEnvVar(v))
                && v@ == token_var()),
            self.github_token@.len() > 0 && self.github_organization@.len() == 0 ==> (r matches Err(
                ApplicationConfigError::MissingEnvVar(v),
            ) && v@ == organization_var()),
            self.github_token@.len() > 0 && self.github_organization@.len() > 0
                && self.database_url@.len() == 0 ==> (r matches Err(
                ApplicationConfigError::MissingEnvVar(v),
            ) && v@ == database_var()),
            r is Ok <==> (self.github_token@.len() > 0 && self.github_organization@.len() > 0
                && self.database_url@.len() > 0),
    {
        if self.github_token.as_str().is_empty() {
            return Err(ApplicationConfigError::MissingEnvVar("GITHUB_TOKEN".to_owned()));
        }
        if self.github_organization.as_str().is_empty() {
            return Err(ApplicationConfigError::MissingEnvVar("GITHUB_ORGANIZATION".to_owned()));
        }
        if self.database_url.as_str().is_empty() {
            return Err(ApplicationConfigError::MissingEnvVar("DATABASE_URL".to_owned()));
        }
        Ok(())
    }
}

} // verus!
