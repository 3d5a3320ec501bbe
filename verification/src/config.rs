//! Gateway configuration and the merge of its two sources.

use vstd::prelude::*;

verus! {

/// The settings the gateway runs with.
#[derive(Debug)]
pub struct Config {
    pub listen_addr: String,
    pub kafka_brokers: String,
    pub kafka_topic: String,
}

/// One configuration source (a settings file, or the process environment):
/// each setting is present or absent.
#[derive(Debug)]
pub struct ConfigSource {
    pub listen_addr: Option<String>,
    pub kafka_brokers: Option<String>,
    pub kafka_topic: Option<String>,
}

/// The setting that no source supplied.
#[derive(Debug, PartialEq, Eq, Structural, Clone, Copy)]
pub enum ConfigError {
    MissingListenAddr,
    MissingKafkaBrokers,
    MissingKafkaTopic,
}

/// The value a setting takes: the overriding source wins where it has one.
pub open spec fn merged(base: Option<String>, over: Option<String>) -> Option<Seq<char>> {
    match over {
        Some(s) => Some(s@),
        None => match base {
            Some(s) => Some(s@),
            None => None,
        },
    }
}

/// Picks the overriding value where there is one.
fn pick(base: Option<String>, over: Option<String>) -> (r: Option<String>)
    ensures
        match r {
            Some(s) => merged(base, over) == Some(s@),
            None => merged(base, over) is None,
        },
{
    match over {
        Some(s) => Some(s),
        None => base,
    }
}

/// Merges a settings file with the environment, the environment taking
/// precedence, and reports the first setting (in declaration order) that
/// neither supplies.
pub fn load_config(file: ConfigSource, env: ConfigSource) -> (r: Result<Config, ConfigError>)
    ensures
        match r {
            Ok(c) => {
                &&& merged(file.listen_addr, env.listen_addr) == Some(c.listen_addr@)
                &&& merged(file.kafka_brokers, env.kafka_brokers) == Some(c.kafka_brokers@)
                &&& merged(file.kafka_topic, env.kafka_topic) == Some(c.kafka_topic@)
            },
            Err(ConfigError::MissingListenAddr) => {
                merged(file.listen_addr, env.listen_addr) is None
            },
            Err(ConfigError::MissingKafkaBrokers) => {
                &&& merged(file.listen_addr, env.listen_addr) is Some
                &&& merged(file.kafka_brokers, env.kafka_brokers) is None
            },
            Err(ConfigError::MissingKafkaTopic) => {
                &&& merged(file.listen_addr, env.listen_addr) is Some
                &&& merged(file.kafka_brokers, env.kafka_brokers) is Some
                &&& merged(file.kafka_topic, env.kafka_topic) is None
            },
        },
{
    let listen_addr = match pick(file.listen_addr, env.listen_addr) {
        Some(s) => s,
        None => { return Err(ConfigError::MissingListenAddr); },
    };
    let kafka_brokers = match pick(file.kafka_brokers, env.kafka_brokers) {
        Some(s) => s,
        None => { return Err(ConfigError::MissingKafkaBrokers); },
    };
    let kafka_topic = match pick(file.kafka_topic, env.kafka_topic) {
        Some(s) => s,
        None => { return Err(ConfigError::MissingKafkaTopic); },
    };
    Ok(Config { listen_addr, kafka_brokers, kafka_topic })
}

} // verus!
