//! Kafka client configuration helpers: the entries HarTex writes into an
//! `rdkafka` client configuration.

use vstd::prelude::*;
use rdkafka::ClientConfig;
use crate::names::views;
use crate::text::{decimal, decimal_string, joined, join_strings};

verus! {

#[verifier::external_type_specification]
#[verifier::external_body]
pub struct ExClientConfig(rdkafka::ClientConfig);

/// The configuration entries held by a client configuration (its
/// `conf_map`), keyed by parameter name.
pub uninterp spec fn client_config_entries(config: ClientConfig) -> Map<Seq<char>, Seq<char>>;

/// `ClientConfig::new`: a configuration without entries (its log level is
/// taken from the global logger and is not stated).
#[verifier::external_body]
fn client_config_new() -> (r: ClientConfig)
    ensures
        client_config_entries(r).dom().is_empty(),
{
    ClientConfig::new()
}

/// `ClientConfig::get`: the value stored under `key`, if any.
#[verifier::external_body]
fn client_config_get(config: &ClientConfig, key: &str) -> (r: Option<String>)
    ensures
        match r {
            Some(v) => client_config_entries(*config).contains_key(key@) && client_config_entries(*config)[key@] == v@,
            None => !client_config_entries(*config).contains_key(key@),
        },
{
    config.get(key).map(String::from)
}

/// A client configuration without entries.
pub fn new_client_config() -> (r: ClientConfig)
    ensures
        client_config_entries(r).dom().is_empty(),
{
    client_config_new()
}

/// The value that a configuration holds under `key`, if any.
pub fn config_value(config: &ClientConfig, key: &str) -> (r: Option<String>)
    ensures
        match r {
            Some(v) => client_config_entries(*config).contains_key(key@) && client_config_entries(*config)[key@] == v@,
            None => !client_config_entries(*config).contains_key(key@),
        },
{
    client_config_get(config, key)
}

/// `ClientConfig::set`: inserts `value` under `key`, replacing any value
/// that was there; no other entry changes.
#[verifier::external_body]
fn set_entry(config: &mut ClientConfig, key: &str, value: String)
    ensures
        client_config_entries(*final(config)) == client_config_entries(*old(config)).insert(key@, value@),
{
    config.set(key, value);
}

/// Compression codecs of a Kafka producer.
pub enum CompressionType {
    Uncompressed,
    Gzip,
    Snappy,
    Lz4,
    Zstd,
}

/// The configuration value of a compression codec.
pub open spec fn compression_name(c: CompressionType) -> Seq<char> {
    match c {
        CompressionType::Uncompressed => "none"@,
        CompressionType::Gzip => "gzip"@,
        CompressionType::Snappy => "snappy"@,
        CompressionType::Lz4 => "lz4"@,
        CompressionType::Zstd => "zstd"@,
    }
}

impl CompressionType {
    /// The configuration value of the codec.
    pub fn as_config_value(&self) -> (r: String)
        ensures
            r@ == compression_name(*self),
    {
        let s = match self {
            CompressionType::Uncompressed => "none",
            CompressionType::Gzip => "gzip",
            CompressionType::Snappy => "snappy",
            CompressionType::Lz4 => "lz4",
            CompressionType::Zstd => "zstd",
        };
        String::from_str(s)
    }
}

/// Extension functions for Kafka client configuration.
pub trait ClientConfigUtils {
    /// The configuration entries, keyed by parameter name.
    spec fn config_entries(&self) -> Map<Seq<char>, Seq<char>>;

    /// Configure bootstrap servers: `bootstrap.servers` becomes the servers
    /// separated by `;`.
    fn bootstrap_servers(&mut self, servers: &Vec<String>)
        ensures
            final(self).config_entries() == old(self).config_entries().insert(
                "bootstrap.servers"@, joined(views(servers@), seq![';'])),
    ;

    /// Configure compression type: `compression.type` becomes the codec's name.
    fn compression_type(&mut self, compression: CompressionType)
        ensures
            final(self).config_entries() == old(self).config_entries().insert(
                "compression.type"@, compression_name(compression)),
    ;

    /// Configure the duration for delivery timeout: `delivery.timeout.ms`
    /// becomes the decimal text of `timeout`.
    fn delivery_timeout_ms(&mut self, timeout: u32)
        ensures
            final(self).config_entries() == old(self).config_entries().insert(
                "delivery.timeout.ms"@, decimal(timeout as nat)),
    ;

    /// Configure group id: `group.id` becomes `group_id`.
    fn group_id(&mut self, group_id: &str)
        ensures
            final(self).config_entries() == old(self).config_entries().insert("group.id"@, group_id@),
    ;
}

impl ClientConfigUtils for ClientConfig {
    open spec fn config_entries(&self) -> Map<Seq<char>, Seq<char>> {
        client_config_entries(*self)
    }

    fn bootstrap_servers(&mut self, servers: &Vec<String>) {
        let value = join_strings(servers, ";");
        proof {
            reveal_strlit(";");
            assert(";"@ =~= seq![';']);
        }
        set_entry(self, "bootstrap.servers", value);
    }

    fn compression_type(&mut self, compression: CompressionType) {
        let value = compression.as_config_value();
        set_entry(self, "compression.type", value);
    }

    fn delivery_timeout_ms(&mut self, timeout: u32) {
        let value = decimal_string(timeout as u64);
        set_entry(self, "delivery.timeout.ms", value);
    }

    fn group_id(&mut self, group_id: &str) {
        set_entry(self, "group.id", String::from_str(group_id));
    }
}

} // verus!
