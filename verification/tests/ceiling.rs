//! The connection ceiling, the configuration value, and log lines.

use http_server::config::{
    Config, ConnectionConfig, CorsConfig, FileSystemConfig, HostConfig, LogsConfig,
};
use http_server::http_types::{Method, Version};
use http_server::logger::{AccessLogger, ErrorLogger, LogLevel, log_level_to_string};
use http_server::server::Server;

fn test_config(max_connections: u16) -> Config {
    Config::new(
        HostConfig { host: "127.0.0.1".to_string(), port: 8080 },
        FileSystemConfig {
            root_dir: "public".to_string(),
            index_file: "index.html".to_string(),
            not_found: "404.html".to_string(),
            server_error: "500.html".to_string(),
        },
        ConnectionConfig { max_connections, buffer_size: 1024 },
        LogsConfig {
            access_log: "access.log".to_string(),
            error_log: "error.log".to_string(),
        },
        CorsConfig {
            allow_methods: vec!["GET".to_string()],
            allow_headers: vec![],
            allow_origins: vec!["*".to_string()],
        },
    )
}

#[test]
fn ceiling_stops_accepts_at_configured_count() {
    let config = test_config(3);
    let mut server = Server::new(&config);
    let mut accepted = 0;
    for _ in 0..10 {
        if server.try_accept() {
            accepted += 1;
        }
    }
    assert_eq!(accepted, 3);
    assert!(!server.try_accept());
    assert!(!server.try_accept());
    assert_eq!(server.connections, 3);
}

#[test]
fn ceiling_not_reached_accepts_all() {
    let config = test_config(5);
    let mut server = Server::new(&config);
    for _ in 0..4 {
        assert!(server.try_accept());
    }
    assert_eq!(server.connections, 4);
}

#[test]
fn server_takes_its_shape_from_config() {
    let config = test_config(7);
    let server = Server::new(&config);
    assert_eq!(server.host, "127.0.0.1");
    assert_eq!(server.port, 8080);
    assert_eq!(server.max_connections, 7);
    assert_eq!(server.buffer_size, 1024);
    assert_eq!(config.file_system().root_dir, "public");
    assert_eq!(config.logs().error_log, "error.log");
    assert_eq!(config.cors().allow_origins, vec!["*".to_string()]);
}

#[test]
fn log_levels_spell_out() {
    assert_eq!(log_level_to_string(LogLevel::INFO), "INFO");
    assert_eq!(log_level_to_string(LogLevel::WARN), "WARN");
    assert_eq!(log_level_to_string(LogLevel::ERROR), "ERROR");
}

#[test]
fn access_line_format() {
    let line = AccessLogger::format_line("01-02-2003", "04:05:06", "GET HTTP/1.1 /x 200 5");
    assert_eq!(line, "[01-02-2003 04:05:06] GET HTTP/1.1 /x 200 5");
}

#[test]
fn error_line_format() {
    let line = ErrorLogger::format_line(LogLevel::ERROR, "01-02-2003", "04:05:06", "boom");
    assert_eq!(line, "[ERROR] 01-02-2003 04:05:06 - boom");
}

#[test]
fn request_message_format() {
    let line = AccessLogger::request_message(Method::GET, Version::HTTP1_1, "a/b", 200, 42);
    assert_eq!(line, "GET HTTP/1.1 /a/b 200 42");
}

#[test]
fn stamped_lines_carry_the_message() {
    let line = AccessLogger::log_line("GET HTTP/1.1 / 200 0");
    assert!(line.starts_with('['));
    assert!(line.ends_with("] GET HTTP/1.1 / 200 0"));
    let line = ErrorLogger::log_line(LogLevel::WARN, "almost");
    assert!(line.starts_with("[WARN] "));
    assert!(line.ends_with(" - almost"));
}
