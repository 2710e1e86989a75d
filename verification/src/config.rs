//! The configuration store: two optional channel identifiers, held in memory
//! and rendered to / recovered from a small JSON document.

use vstd::prelude::*;

use crate::codec;

verus! {

/// The bot-wide settings: each field is either absent or a 64-bit channel
/// identifier for the external chat platform.
#[derive(Clone, Copy, Debug, PartialEq, Eq, Structural)]
pub struct ConfigData {
    pub log_channel: Option<u64>,
    pub boost_channel: Option<u64>,
}

/// Failures of the store, as seen by its callers.
#[derive(Clone, Copy, Debug, PartialEq, Eq, Structural)]
pub enum ConfigError {
    /// Persisted content exists but is not a well-formed configuration
    /// document; fatal at startup.
    DeserializationError,
    /// A write of the persisted form failed; the in-memory value keeps the
    /// change. Constructed by the caller that performs the write.
    PersistenceError,
}

impl Default for ConfigData {
    /// The first-run state: both channels unset.
    fn default() -> (r: Self)
        ensures
            r.log_channel is None,
            r.boost_channel is None,
    {
        ConfigData { log_channel: None, boost_channel: None }
    }
}

impl ConfigData {
    /// Build the store from persisted content. `None` stands for an absent
    /// file and yields the first-run state; malformed content is rejected.
    pub fn load(content: Option<&[u8]>) -> (r: Result<ConfigData, ConfigError>)
        ensures
            match content {
                None => r == Ok::<ConfigData, ConfigError>(codec::empty_config()),
                Some(s) => match codec::spec_parse(s@) {
                    Some(c) => r == Ok::<ConfigData, ConfigError>(c),
                    None => r == Err::<ConfigData, ConfigError>(ConfigError::DeserializationError),
                },
            },
    {
        match content {
            None => Ok(ConfigData { log_channel: None, boost_channel: None }),
            Some(s) => match codec::parse_config(s) {
                Some(c) => Ok(c),
                None => Err(ConfigError::DeserializationError),
            },
        }
    }

    /// Render the persisted form of the current value; the caller writes
    /// these bytes, wholesale, to the configuration file.
    pub fn save(&self) -> (out: Vec<u8>)
        ensures
            out@ == codec::json_of(*self),
    {
        codec::render_config(self)
    }

    /// A snapshot of the log channel.
    pub fn get_log_channel(&self) -> (r: Option<u64>)
        ensures
            r == self.log_channel,
    {
        self.log_channel
    }

    /// A snapshot of the boost channel.
    pub fn get_boost_channel(&self) -> (r: Option<u64>)
        ensures
            r == self.boost_channel,
    {
        self.boost_channel
    }

    /// Replace the log channel, leaving the boost channel untouched, and
    /// return the persisted form of the whole updated value for the caller
    /// to write out.
    pub fn set_log_channel(&mut self, id: u64) -> (out: Vec<u8>)
        ensures
            final(self).log_channel == Some(id),
            final(self).boost_channel == old(self).boost_channel,
            out@ == codec::json_of(*final(self)),
    {
        self.log_channel = Some(id);
        codec::render_config(self)
    }

    /// Replace the boost channel, leaving the log channel untouched, and
    /// return the persisted form of the whole updated value for the caller
    /// to write out.
    pub fn set_boost_channel(&mut self, id: u64) -> (out: Vec<u8>)
        ensures
            final(self).boost_channel == Some(id),
            final(self).log_channel == old(self).log_channel,
            out@ == codec::json_of(*final(self)),
    {
        self.boost_channel = Some(id);
        codec::render_config(self)
    }
}

/// Durability of a log-channel update: the value the setter leaves behind
/// reads back as set, keeps the other field, and a fresh load of the bytes
/// it persists yields that same value.
pub proof fn lemma_set_log_channel_durable(c: ConfigData, x: u64)
    ensures
        ({
            let c2 = ConfigData { log_channel: Some(x), ..c };
            c2.log_channel == Some(x) && c2.boost_channel == c.boost_channel
                && codec::spec_parse(codec::json_of(c2)) == Some(c2)
        }),
{
    codec::lemma_render_parse_round_trip(ConfigData { log_channel: Some(x), ..c });
}

/// Competing writes to the same field: the store's lock serializes the two
/// critical sections, so after both complete the field holds exactly the
/// value written second — one of the two whole values, never a blend of
/// them and never neither — and the other field is untouched either way.
pub proof fn lemma_competing_log_writes(c: ConfigData, a: u64, b: u64)
    ensures
        ({
            let first_a = ConfigData {
                log_channel: Some(b),
                ..ConfigData { log_channel: Some(a), ..c }
            };
            first_a.log_channel == Some(b) && first_a.boost_channel == c.boost_channel
        }),
        ({
            let first_b = ConfigData {
                log_channel: Some(a),
                ..ConfigData { log_channel: Some(b), ..c }
            };
            first_b.log_channel == Some(a) && first_b.boost_channel == c.boost_channel
        }),
{
}

/// Durability of a boost-channel update, symmetric to the log-channel law.
pub proof fn lemma_set_boost_channel_durable(c: ConfigData, x: u64)
    ensures
        ({
            let c2 = ConfigData { boost_channel: Some(x), ..c };
            c2.boost_channel == Some(x) && c2.log_channel == c.log_channel
                && codec::spec_parse(codec::json_of(c2)) == Some(c2)
        }),
{
    codec::lemma_render_parse_round_trip(ConfigData { boost_channel: Some(x), ..c });
}

} // verus!
