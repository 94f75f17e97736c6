use gitclub::config::Config;

#[test]
fn defaults_under_program_directory() {
    let c = Config::default_config("/opt/gitclub");
    assert_eq!(c.server_addr, "127.0.0.1");
    assert_eq!(c.server_port, 8080);
    assert_eq!(c.data_path, "/opt/gitclub/data");
    assert_eq!(c.log_path, "/opt/gitclub/log");
    assert_eq!(c.repos_path, "/opt/gitclub/repos");
    let d = Config::default_config("/opt/gitclub/");
    assert_eq!(d.data_path, "/opt/gitclub/data");
    let e = Config::default_config("");
    assert_eq!(e.repos_path, "repos");
}

#[test]
fn file_settings_override_defaults() {
    let text = "[server]\naddr = 0.0.0.0\nport = 3000\n\n[paths]\ndata = /var/lib/gc\nrepos = /srv/git\n";
    let c = Config::from_file(text, "/app");
    assert_eq!(c.server_addr, "0.0.0.0");
    assert_eq!(c.server_port, 3000);
    assert_eq!(c.data_path, "/var/lib/gc");
    assert_eq!(c.log_path, "/app/log");
    assert_eq!(c.repos_path, "/srv/git");
}

#[test]
fn unusable_port_falls_back() {
    for bad in ["70000", "-1", "abc", ""] {
        let text = format!("[server]\nport = {}\n", bad);
        let c = Config::from_file(&text, "/app");
        assert_eq!(c.server_port, 8080, "port text {:?}", bad);
    }
    let c = Config::from_file("[server]\nport=+81\n", "/app");
    assert_eq!(c.server_port, 81);
}

#[test]
fn malformed_file_gives_defaults() {
    let c = Config::from_file("[server\naddr=1.2.3.4\n", "/x");
    assert_eq!(c.server_addr, "127.0.0.1");
    assert_eq!(c.server_port, 8080);
    assert_eq!(c.data_path, "/x/data");
}

#[test]
fn byte_order_mark_is_skipped() {
    let c = Config::from_file("\u{feff}[server]\nport=9000\n", "/x");
    assert_eq!(c.server_port, 9000);
}

#[test]
fn relative_path_setting_kept_as_written() {
    let c = Config::from_file("[paths]\nlog = logs\n", "/x");
    assert_eq!(c.log_path, "logs");
}

#[test]
fn missing_file_gives_defaults_to_save() {
    let (c, text) = Config::load("/srv/app", None);
    assert_eq!(c.server_port, 8080);
    let text = text.expect("a document to save");
    let ini = ini::Ini::load_from_str(&text).unwrap();
    assert_eq!(ini.get_from(Some("server"), "addr"), Some("127.0.0.1"));
    assert_eq!(ini.get_from(Some("server"), "port"), Some("8080"));
    assert_eq!(ini.get_from(Some("paths"), "data"), Some("/srv/app/data"));
    assert_eq!(ini.get_from(Some("paths"), "log"), Some("/srv/app/log"));
    assert_eq!(ini.get_from(Some("paths"), "repos"), Some("/srv/app/repos"));
}

#[test]
fn existing_file_is_read_not_saved() {
    let (c, text) = Config::load("/srv/app", Some("[server]\naddr=10.0.0.1\n"));
    assert!(text.is_none());
    assert_eq!(c.server_addr, "10.0.0.1");
}

#[test]
fn saved_configuration_reads_back() {
    let c = Config {
        server_addr: "192.168.1.5".to_string(),
        server_port: 65535,
        data_path: "/d".to_string(),
        log_path: "/l".to_string(),
        repos_path: "/r/repos".to_string(),
    };
    let ini = c.to_ini();
    let back = Config::from_ini(&ini, "/elsewhere");
    assert_eq!(back.server_addr, c.server_addr);
    assert_eq!(back.server_port, c.server_port);
    assert_eq!(back.data_path, c.data_path);
    assert_eq!(back.log_path, c.log_path);
    assert_eq!(back.repos_path, c.repos_path);
    // Through the text the file holds.
    let mut buf: Vec<u8> = Vec::new();
    ini.write_to(&mut buf).unwrap();
    let text = String::from_utf8(buf).unwrap();
    let again = Config::from_file(&text, "/elsewhere");
    assert_eq!(again.server_port, 65535);
    assert_eq!(again.repos_path, "/r/repos");
}

#[test]
fn loading_twice_gives_the_same_configuration() {
    for dir in ["/opt/gitclub", "/opt/my apps/gité;#=x", "C:\\Program Files\\gc", "/srv/用户/'q\"", "rel/dir"] {
        reload_matches(dir);
    }
}

fn reload_matches(dir: &str) {
    let (first, text) = Config::load(dir, None);
    let text = text.unwrap();
    let (second, again) = Config::load(dir, Some(&text));
    assert!(again.is_none());
    assert_eq!(second.server_addr, first.server_addr);
    assert_eq!(second.server_port, first.server_port);
    assert_eq!(second.data_path, first.data_path);
    assert_eq!(second.log_path, first.log_path);
    assert_eq!(second.repos_path, first.repos_path);
}
