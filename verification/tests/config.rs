use rushdb::config::{Config, ServerConfig};

fn server(host: &str, port: u16, interval: u64, path: &str, dir: &str) -> ServerConfig {
    ServerConfig {
        host: host.to_string(),
        port,
        save_interval: interval,
        save_path: path.to_string(),
        save_dir: dir.to_string(),
    }
}

#[test]
fn blank_config_uses_defaults() {
    let c = Config::blank();
    assert_eq!(c.server.host, "");
    assert_eq!(c.server.port, 0);
    assert_eq!(c.server.listen_host(), "0.0.0.0");
    assert_eq!(c.server.listen_port(), 6080);
    assert_eq!(c.server.listen_address(), "0.0.0.0:6080");
    assert_eq!(c.server.snapshot_interval(), 60);
    assert_eq!(c.server.snapshot_path(), "./data/snapshot.bin");
    assert_eq!(c.server.snapshot_dir(), "./data");
}

#[test]
fn given_settings_are_kept() {
    let s = server("127.0.0.1", 7000, 5, "/tmp/s.bin", "/tmp");
    assert_eq!(s.listen_address(), "127.0.0.1:7000");
    assert_eq!(s.snapshot_interval(), 5);
    assert_eq!(s.snapshot_path(), "/tmp/s.bin");
    assert_eq!(s.snapshot_dir(), "/tmp");
}

#[test]
fn mixed_settings() {
    let s = server("", 1, 0, "snap", "");
    assert_eq!(s.listen_address(), "0.0.0.0:1");
    assert_eq!(s.snapshot_interval(), 60);
    assert_eq!(s.snapshot_path(), "snap");
    assert_eq!(s.snapshot_dir(), "./data");
}

#[test]
fn config_file_path() {
    assert_eq!(Config::file_path(Some("./conf.toml".to_string())), "./conf.toml");
    assert_eq!(Config::file_path(None), "/etc/bcc/conf.toml");
}

#[test]
fn server_config_path_from_environment() {
    assert_eq!(Config::server_file_path(Some("/etc/x.toml".to_string())), "/etc/x.toml");
    assert_eq!(Config::server_file_path(None), "./conf.toml");
}
