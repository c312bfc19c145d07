use netgen::errors::ConfigError;
use netgen::plugins::Config;
use netgen::plugins::Plugin;

#[test]
fn default_plugin_table() {
    let table = Plugin::default_hash();
    assert_eq!(table.len(), 2);
    assert_eq!(table[0].0, "frr");
    match &table[0].1 {
        Plugin::Frr(f) => {
            assert_eq!(f.daemon_dir, "/usr/bin/frrd");
            assert_eq!(f.cli_dir, "/usr/bin/frr-cli");
        }
        Plugin::Holo(_) => panic!("expected the frr default"),
    }
    assert_eq!(table[1].0, "holo");
    match &table[1].1 {
        Plugin::Holo(h) => {
            assert_eq!(h.daemon_dir, "/usr/bin/");
            assert_eq!(h.cli_dir, "/usr/bin/");
            assert_eq!(h.sysconfdir, "/etc/holod");
            assert_eq!(h.user, "holo");
            assert_eq!(h.group, "holo");
        }
        Plugin::Frr(_) => panic!("expected the holo default"),
    }
}

#[test]
fn empty_input_gives_default_config() {
    let config = Config::from_yaml_str("").expect("valid");
    assert_eq!(config.plugins.len(), 2);
    assert!(matches!(&config.plugins[0], Plugin::Frr(_)));
    assert!(matches!(&config.plugins[1], Plugin::Holo(_)));
}

#[test]
fn holo_overrides_are_read_over_defaults() {
    let yaml = "\
plugins:
  holo:
    daemon-dir: /opt/holo/bin
    user: root
";
    let config = Config::from_yaml_str(yaml).expect("valid");
    match &config.plugins[1] {
        Plugin::Holo(h) => {
            assert_eq!(h.daemon_dir, "/opt/holo/bin");
            assert_eq!(h.user, "root");
            assert_eq!(h.cli_dir, "/usr/bin/");
            assert_eq!(h.sysconfdir, "/etc/holod");
            assert_eq!(h.group, "holo");
        }
        Plugin::Frr(_) => panic!("expected holo second"),
    }
    match &config.plugins[0] {
        Plugin::Frr(f) => assert_eq!(f.daemon_dir, "/usr/bin/frrd"),
        Plugin::Holo(_) => panic!("expected frr first"),
    }
}

#[test]
fn unknown_plugin_name_rejected() {
    let yaml = "plugins: { quagga: {} }\n";
    match Config::from_yaml_str(yaml) {
        Err(ConfigError::IncorrectType { field, expected }) => {
            assert_eq!(field, "plugins->quagga");
            assert_eq!(expected, "holo or frr");
        }
        other => panic!("expected an unknown-plugin error, got {other:?}"),
    }
}

#[test]
fn plugin_field_of_wrong_kind_rejected() {
    let yaml = "plugins: { frr: { daemon-dir: [a, b] } }\n";
    match Config::from_yaml_str(yaml) {
        Err(ConfigError::IncorrectType { field, expected }) => {
            assert_eq!(field, "plugins->frr->daemon-dir");
            assert_eq!(expected, "string");
        }
        other => panic!("expected a wrong-kind error, got {other:?}"),
    }
}
