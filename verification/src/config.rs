//! The application configuration and the defaults of its optional fields.
use vstd::prelude::*;

verus! {

/// Main application configuration loaded from config/config.yaml
pub struct AppConfig {
    pub server: ServerConfig,
    pub mock_files: MockFilesConfig,
}

/// HTTP server configuration
pub struct ServerConfig {
    pub host: String,
    pub port: u16,
}

/// Configuration for locating mock definition files
pub struct MockFilesConfig {
    /// Directory containing mock YAML files
    pub directory: String,
    /// Glob patterns for matching mock files (e.g., "**/*.yaml")
    pub patterns: Vec<String>,
    /// Enable or disable hot reload of mock files
    pub hot_reload: bool,
}

/// The host the server binds when the configuration names none.
pub fn default_host() -> (r: String)
    ensures
        r@ == "127.0.0.1"@,
{
    "127.0.0.1".to_owned()
}

/// The port the server binds when the configuration names none.
pub fn default_port() -> (r: u16)
    ensures
        r == 8080,
{
    8080
}

/// The glob patterns for mock files when the configuration names none.
pub fn default_patterns() -> (r: Vec<String>)
    ensures
        r@.len() == 2,
        r@[0]@ == "**/*.yaml"@,
        r@[1]@ == "**/*.yml"@,
{
    let mut r: Vec<String> = Vec::new();
    r.push("**/*.yaml".to_owned());
    r.push("**/*.yml".to_owned());
    r
}

/// Whether mock files are reloaded on change when the configuration does not say.
pub fn default_hot_reload() -> (r: bool)
    ensures
        r,
{
    true
}

} // verus!
