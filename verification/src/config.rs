//! Configuration values for the server, the client and the shared-secret
//! authentication, with their documented defaults.
//!
//! Reading and writing configuration files is input/output and lives
//! outside the library; this module fixes the shape of the values and
//! what each default is.

use vstd::prelude::*;

verus! {

/// Server-specific configuration.
pub struct ServerConfig {
    pub bind_address: String,
    pub storage_path: String,
}

/// Client-specific configuration.
pub struct ClientConfig {
    pub default_server: String,
}

/// Authentication configuration.
pub struct AuthConfig {
    pub password: String,
}

/// Root configuration structure.
pub struct Config {
    pub server: ServerConfig,
    pub client: ClientConfig,
    pub auth: AuthConfig,
}

impl core::default::Default for ServerConfig {
    /// Listen on every interface, store under the local data directory.
    fn default() -> (r: ServerConfig)
        ensures
            r.bind_address@ == "0.0.0.0:8080"@,
            r.storage_path@ == "./storage_data"@,
    {
        ServerConfig {
            bind_address: "0.0.0.0:8080".to_owned(),
            storage_path: "./storage_data".to_owned(),
        }
    }
}

impl core::default::Default for ClientConfig {
    /// Talk to a server on the local machine.
    fn default() -> (r: ClientConfig)
        ensures
            r.default_server@ == "127.0.0.1:8080"@,
    {
        ClientConfig { default_server: "127.0.0.1:8080".to_owned() }
    }
}

impl core::default::Default for AuthConfig {
    /// The placeholder secret a fresh installation starts with.
    fn default() -> (r: AuthConfig)
        ensures
            r.password@ == "secure_password_123"@,
    {
        AuthConfig { password: "secure_password_123".to_owned() }
    }
}

impl core::default::Default for Config {
    /// Every section at its own default.
    fn default() -> (r: Config)
        ensures
            r.server.bind_address@ == "0.0.0.0:8080"@,
            r.server.storage_path@ == "./storage_data"@,
            r.client.default_server@ == "127.0.0.1:8080"@,
            r.auth.password@ == "secure_password_123"@,
    {
        Config {
            server: ServerConfig::default(),
            client: ClientConfig::default(),
            auth: AuthConfig::default(),
        }
    }
}

} // verus!
