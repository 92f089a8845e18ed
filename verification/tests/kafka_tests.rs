use hartex::kafka::{config_value as get_entry, new_client_config, ClientConfigUtils, CompressionType};

#[test]
fn new_configuration_is_empty() {
    let config = new_client_config();
    assert_eq!(get_entry(&config, "bootstrap.servers"), None);
}

#[test]
fn setters_write_their_entries() {
    let mut config = new_client_config();
    config.bootstrap_servers(&vec![String::from("a:9092"), String::from("b:9092")]);
    config.compression_type(CompressionType::Zstd);
    config.delivery_timeout_ms(30000);
    config.group_id("hartex");
    assert_eq!(get_entry(&config, "bootstrap.servers").as_deref(), Some("a:9092;b:9092"));
    assert_eq!(get_entry(&config, "compression.type").as_deref(), Some("zstd"));
    assert_eq!(get_entry(&config, "delivery.timeout.ms").as_deref(), Some("30000"));
    assert_eq!(get_entry(&config, "group.id").as_deref(), Some("hartex"));
    assert_eq!(config.get("group.id"), Some("hartex"));
}

#[test]
fn later_write_replaces_earlier() {
    let mut config = new_client_config();
    config.group_id("first");
    config.group_id("second");
    config.compression_type(CompressionType::Uncompressed);
    assert_eq!(get_entry(&config, "group.id").as_deref(), Some("second"));
    assert_eq!(get_entry(&config, "compression.type").as_deref(), Some("none"));
}

#[test]
fn single_server_has_no_separator() {
    let mut config = new_client_config();
    config.bootstrap_servers(&vec![String::from("localhost:9092")]);
    assert_eq!(get_entry(&config, "bootstrap.servers").as_deref(), Some("localhost:9092"));
}

#[test]
fn bootstrap_servers_is_the_only_entry() {
    let mut config = new_client_config();
    config.bootstrap_servers(&vec![String::from("a:9092"), String::from("b:9092")]);
    assert_eq!(config.config_map().len(), 1);
    assert_eq!(get_entry(&config, "bootstrap.servers").as_deref(), Some("a:9092;b:9092"));
}
