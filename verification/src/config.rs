//! Startup configuration of the broker components and the feed poller.
//!
//! Every value is resolved once at process start. A missing (empty) value is
//! a fatal startup error: the dependent component refuses to start and never
//! retries.

use vstd::prelude::*;

verus! {

/// A required configuration value was missing at startup: the dependent
/// component must refuse to start.
#[derive(Clone, Copy, Debug, PartialEq, Eq, Structural)]
pub struct ConfigError;

/// Broker endpoint, topic and consumer group, as the consumer and the
/// diagnostics endpoint report them.
pub struct KafkaParameters {
    pub kafka_url: String,
    pub kafka_topic: String,
    pub kafka_group: String,
}

impl KafkaParameters {
    /// Accepts the three broker values exactly when all of them are set
    /// (non-empty); otherwise the fatal startup error.
    pub fn new(kafka_url: String, kafka_topic: String, kafka_group: String) -> (r: Result<
        KafkaParameters,
        ConfigError,
    >)
        ensures
            r is Ok <==> (kafka_url@.len() > 0 && kafka_topic@.len() > 0 && kafka_group@.len()
                > 0),
            (r matches Ok(p) ==> p.kafka_url@ == kafka_url@ && p.kafka_topic@ == kafka_topic@
                && p.kafka_group@ == kafka_group@),
    {
        if kafka_url.as_str().is_empty() || kafka_topic.as_str().is_empty()
            || kafka_group.as_str().is_empty() {
            Err(ConfigError)
        } else {
            Ok(KafkaParameters { kafka_url, kafka_topic, kafka_group })
        }
    }
}

/// The two out-of-band credentials of the feed endpoint.
pub struct FeedCredentials {
    pub username: String,
    pub password: String,
}

impl FeedCredentials {
    /// Accepts the credentials exactly when both are set (non-empty);
    /// otherwise the fatal startup error.
    pub fn new(username: String, password: String) -> (r: Result<FeedCredentials, ConfigError>)
        ensures
            r is Ok <==> (username@.len() > 0 && password@.len() > 0),
            (r matches Ok(c) ==> c.username@ == username@ && c.password@ == password@),
    {
        if username.as_str().is_empty() || password.as_str().is_empty() {
            Err(ConfigError)
        } else {
            Ok(FeedCredentials { username, password })
        }
    }
}

} // verus!
