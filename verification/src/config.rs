//! The static configuration: assembled once at startup from values the
//! caller read and decoded, then passed by reference to every component
//! that needs it. Absence or malformed content is a startup failure the
//! caller handles before a value of [`Config`] ever exists.

use vstd::prelude::*;

verus! {

/// Network address to bind.
#[derive(Debug, Clone)]
pub struct HostConfig {
    pub host: String,
    pub port: u16,
}

/// Where files are served from and which documents stand in for the
/// index, a missing file, and a server error.
#[derive(Debug, Clone)]
pub struct FileSystemConfig {
    pub root_dir: String,
    pub index_file: String,
    pub not_found: String,
    pub server_error: String,
}

/// The connection ceiling and the size of the single read buffer.
#[derive(Debug, Clone)]
pub struct ConnectionConfig {
    pub max_connections: u16,
    pub buffer_size: usize,
}

/// Where the access and error logs are appended.
#[derive(Debug, Clone)]
pub struct LogsConfig {
    pub access_log: String,
    pub error_log: String,
}

/// CORS allow-lists: accepted in the configuration, not enforced by the
/// pipeline.
#[derive(Debug, Clone)]
pub struct CorsConfig {
    pub allow_methods: Vec<String>,
    pub allow_headers: Vec<String>,
    pub allow_origins: Vec<String>,
}

/// The whole configuration, read-only for the life of the process.
#[derive(Debug)]
pub struct Config {
    host: HostConfig,
    file_system: FileSystemConfig,
    connection: ConnectionConfig,
    logs: LogsConfig,
    cors: CorsConfig,
}

impl Config {
    /// The host section.
    pub closed spec fn spec_host(&self) -> &HostConfig {
        &self.host
    }

    /// The file-system section.
    pub closed spec fn spec_file_system(&self) -> &FileSystemConfig {
        &self.file_system
    }

    /// The connection section.
    pub closed spec fn spec_connection(&self) -> &ConnectionConfig {
        &self.connection
    }

    /// The logs section.
    pub closed spec fn spec_logs(&self) -> &LogsConfig {
        &self.logs
    }

    /// The CORS section.
    pub closed spec fn spec_cors(&self) -> &CorsConfig {
        &self.cors
    }

    /// Assembles a configuration from its five sections.
    pub fn new(
        host: HostConfig,
        file_system: FileSystemConfig,
        connection: ConnectionConfig,
        logs: LogsConfig,
        cors: CorsConfig,
    ) -> (r: Config)
        ensures
            *r.spec_host() == host,
            *r.spec_file_system() == file_system,
            *r.spec_connection() == connection,
            *r.spec_logs() == logs,
            *r.spec_cors() == cors,
    {
        Config { host, file_system, connection, logs, cors }
    }

    pub fn host(&self) -> (r: &HostConfig)
        ensures
            r == self.spec_host(),
    {
        &self.host
    }

    pub fn file_system(&self) -> (r: &FileSystemConfig)
        ensures
            r == self.spec_file_system(),
    {
        &self.file_system
    }

    pub fn connection(&self) -> (r: &ConnectionConfig)
        ensures
            r == self.spec_connection(),
    {
        &self.connection
    }

    pub fn logs(&self) -> (r: &LogsConfig)
        ensures
            r == self.spec_logs(),
    {
        &self.logs
    }

    pub fn cors(&self) -> (r: &CorsConfig)
        ensures
            r == self.spec_cors(),
    {
        &self.cors
    }
}

} // verus!
