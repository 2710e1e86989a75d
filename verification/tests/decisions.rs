use bot_core::config::ConfigData;
use bot_core::events::boost_announcement;
use bot_core::events::ping_reply;
use bot_core::events::channel_changes;
use bot_core::events::ChannelChange;
use bot_core::events::ChannelState;

fn state(name: &str, topic: Option<&str>, nsfw: bool, rate: Option<u64>) -> ChannelState {
    ChannelState {
        name: name.as_bytes().to_vec(),
        topic: topic.map(|t| t.as_bytes().to_vec()),
        nsfw,
        rate_limit_per_user: rate,
    }
}

#[test]
fn boost_announced_when_configured_and_fresh() {
    let c = ConfigData { log_channel: None, boost_channel: Some(99) };
    assert_eq!(boost_announcement(&c, true, true, false), Some(99));
}

#[test]
fn boost_silent_without_channel() {
    let c = ConfigData { log_channel: Some(1), boost_channel: None };
    assert_eq!(boost_announcement(&c, true, true, false), None);
}

#[test]
fn boost_silent_without_premium_or_with_history() {
    let c = ConfigData { log_channel: None, boost_channel: Some(99) };
    assert_eq!(boost_announcement(&c, true, false, false), None);
    assert_eq!(boost_announcement(&c, true, true, true), None);
    assert_eq!(boost_announcement(&c, false, true, false), None);
}

#[test]
fn ping_gets_pong() {
    assert_eq!(ping_reply(b"!ping"), Some(b"Pong!".to_vec()));
}

#[test]
fn other_messages_stay_silent() {
    assert_eq!(ping_reply(b"!pong"), None);
    assert_eq!(ping_reply(b""), None);
    assert_eq!(ping_reply(b"!ping "), None);
}

#[test]
fn unchanged_channel_reports_nothing() {
    let a = state("general", Some("talk"), false, Some(5));
    let b = state("general", Some("talk"), false, Some(5));
    assert_eq!(channel_changes(&a, &b), vec![]);
}

#[test]
fn every_difference_is_reported_in_order() {
    let a = state("general", Some("talk"), false, Some(5));
    let b = state("lounge", None, true, None);
    assert_eq!(
        channel_changes(&a, &b),
        vec![
            ChannelChange::Name,
            ChannelChange::Topic,
            ChannelChange::Nsfw,
            ChannelChange::Slowmode,
        ]
    );
}

#[test]
fn single_differences_are_isolated() {
    let a = state("general", Some("talk"), false, Some(5));
    assert_eq!(
        channel_changes(&a, &state("lounge", Some("talk"), false, Some(5))),
        vec![ChannelChange::Name]
    );
    assert_eq!(
        channel_changes(&a, &state("general", Some("other"), false, Some(5))),
        vec![ChannelChange::Topic]
    );
    assert_eq!(
        channel_changes(&a, &state("general", Some("talk"), true, Some(5))),
        vec![ChannelChange::Nsfw]
    );
    assert_eq!(
        channel_changes(&a, &state("general", Some("talk"), false, Some(10))),
        vec![ChannelChange::Slowmode]
    );
}
