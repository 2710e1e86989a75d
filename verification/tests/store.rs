use bot_core::config::ConfigData;
use bot_core::config::ConfigError;

#[test]
fn load_missing_file_gives_unset() {
    let r = ConfigData::load(None).unwrap();
    assert_eq!(r.log_channel, None);
    assert_eq!(r.boost_channel, None);
}

#[test]
fn load_two_values() {
    let r = ConfigData::load(Some(b"{\"log_channel\":42,\"boost_channel\":7}")).unwrap();
    assert_eq!(r.log_channel, Some(42));
    assert_eq!(r.boost_channel, Some(7));
}

#[test]
fn load_malformed_fails() {
    let r = ConfigData::load(Some(b"not json"));
    assert_eq!(r, Err(ConfigError::DeserializationError));
}

#[test]
fn set_log_then_get_and_reload() {
    let mut c = ConfigData::load(None).unwrap();
    let bytes = c.set_log_channel(123456789012345678);
    assert_eq!(c.get_log_channel(), Some(123456789012345678));
    let reloaded = ConfigData::load(Some(&bytes)).unwrap();
    assert_eq!(reloaded, c);
    assert_eq!(reloaded.log_channel, Some(123456789012345678));
}

#[test]
fn set_boost_then_get_and_reload() {
    let mut c = ConfigData::load(None).unwrap();
    let bytes = c.set_boost_channel(7);
    assert_eq!(c.get_boost_channel(), Some(7));
    let reloaded = ConfigData::load(Some(&bytes)).unwrap();
    assert_eq!(reloaded, c);
    assert_eq!(reloaded.boost_channel, Some(7));
}

#[test]
fn field_independence() {
    let mut c = ConfigData::default();
    c.set_log_channel(1);
    c.set_boost_channel(2);
    assert_eq!(c.get_log_channel(), Some(1));
    assert_eq!(c.get_boost_channel(), Some(2));

    let mut d = ConfigData::default();
    d.set_boost_channel(9);
    d.set_log_channel(8);
    assert_eq!(d.get_boost_channel(), Some(9));
    assert_eq!(d.get_log_channel(), Some(8));
}

#[test]
fn last_writer_wins() {
    let mut c = ConfigData::default();
    c.set_log_channel(10);
    let bytes = c.set_log_channel(20);
    assert_eq!(c.get_log_channel(), Some(20));
    let reloaded = ConfigData::load(Some(&bytes)).unwrap();
    assert_eq!(reloaded.log_channel, Some(20));
}

#[test]
fn save_renders_exact_document() {
    let c = ConfigData { log_channel: Some(42), boost_channel: None };
    let bytes = c.save();
    assert_eq!(bytes, b"{\"log_channel\":42,\"boost_channel\":null}".to_vec());
}

#[test]
fn save_then_load_round_trip() {
    let samples = vec![
        ConfigData { log_channel: None, boost_channel: None },
        ConfigData { log_channel: Some(0), boost_channel: None },
        ConfigData { log_channel: None, boost_channel: Some(1) },
        ConfigData { log_channel: Some(123456789012345678), boost_channel: Some(18446744073709551615) },
    ];
    for c in samples {
        let bytes = c.save();
        assert_eq!(ConfigData::load(Some(&bytes)).unwrap(), c);
    }
}

#[test]
fn default_is_unset() {
    let c = ConfigData::default();
    assert_eq!(c.log_channel, None);
    assert_eq!(c.boost_channel, None);
}
