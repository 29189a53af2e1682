use rustybar::config::{
    config_path, duration_unit, split_duration, Config, ConfigError, ConfigPath, DefaultSection,
    Interval, TileConfig, TileConfigType, TimeConfig, TimeUnit,
};

fn components(p: ConfigPath<u8>) -> Vec<String> {
    match p {
        ConfigPath::Components(v) => v,
        ConfigPath::Given(_) => panic!("given"),
    }
}

#[test]
fn given_path_wins() {
    let r = config_path(Some(7u8), Some("a".into()), Some("b".into()), Some("c".into()));
    assert!(matches!(r, Ok(ConfigPath::Given(7))));
}

#[test]
fn rustybar_config_before_xdg() {
    let r = config_path::<u8>(None, Some("/etc/bar.toml".into()), Some("/x".into()), Some("/h".into()));
    assert_eq!(components(r.unwrap()), vec!["/etc/bar.toml".to_string()]);
}

#[test]
fn xdg_before_home() {
    let r = config_path::<u8>(None, None, Some("/x".into()), Some("/h".into()));
    assert_eq!(components(r.unwrap()), vec!["/x", "rustybar", "config.toml"]);
}

#[test]
fn home_last() {
    let r = config_path::<u8>(None, None, None, Some("/h".into()));
    assert_eq!(components(r.unwrap()), vec!["/h", ".config", "rustybar", "config.toml"]);
}

#[test]
fn nothing_set_is_not_found() {
    let r = config_path::<u8>(None, None, None, None);
    assert!(matches!(r, Err(ConfigError::NotFound)));
    assert_eq!(
        ConfigError::NotFound.message(),
        "Could not find RUSTYBAR_CONFIG, XDG_CONFIG_HOME, or HOME environment variables"
    );
}

#[test]
fn durations_split_into_number_and_suffix() {
    assert_eq!(split_duration("500ms"), ("500".to_string(), "ms".to_string()));
    assert_eq!(split_duration("2"), ("2".to_string(), "".to_string()));
    assert_eq!(split_duration("1.5m"), ("1.5".to_string(), "m".to_string()));
    assert_eq!(split_duration("10s"), ("10".to_string(), "s".to_string()));
    assert_eq!(split_duration("ms"), ("".to_string(), "ms".to_string()));
    assert_eq!(split_duration(""), ("".to_string(), "".to_string()));
    assert_eq!(split_duration("5h3ms"), ("5h3".to_string(), "ms".to_string()));
}

#[test]
fn duration_split_matches_std_trimming() {
    for s in ["500ms", "2", "1.5m", "ms", "", "5h3ms", "11", "3é"] {
        let number = s.trim_end_matches(char::is_alphabetic);
        let suffix = s.trim_start_matches(number);
        assert_eq!(split_duration(s), (number.to_string(), suffix.to_string()), "{:?}", s);
    }
}

#[test]
fn duration_units() {
    assert_eq!(duration_unit(""), Some(TimeUnit::Seconds));
    assert_eq!(duration_unit("s"), Some(TimeUnit::Seconds));
    assert_eq!(duration_unit("m"), Some(TimeUnit::Minutes));
    assert_eq!(duration_unit("ms"), Some(TimeUnit::Milliseconds));
    assert_eq!(duration_unit("h"), None);
    assert_eq!(duration_unit("sm"), None);
    assert_eq!(duration_unit("mss"), None);
}

#[test]
fn polling_tiles_default_to_five_seconds() {
    let five = Some(Interval { secs: 5, nanos: 0 });
    assert_eq!(TileConfig::new(TileConfigType::Battery, None).throttle(), five);
    assert_eq!(TileConfig::new(TileConfigType::Load, None).throttle(), five);
    assert_eq!(TileConfig::new(TileConfigType::Memory, None).throttle(), five);
}

#[test]
fn event_tiles_have_no_default_throttle() {
    assert_eq!(TileConfig::new(TileConfigType::Hostname, None).throttle(), None);
    assert_eq!(TileConfig::new(TileConfigType::Time(TimeConfig::default()), None).throttle(), None);
}

#[test]
fn configured_interval_wins() {
    let i = Some(Interval { secs: 0, nanos: 500_000_000 });
    assert_eq!(TileConfig::new(TileConfigType::Battery, i).throttle(), i);
    assert_eq!(TileConfig::new(TileConfigType::Hostname, i).throttle(), i);
    assert_eq!(TileConfig::new(TileConfigType::Memory, i).update(), i);
    assert!(matches!(TileConfig::new(TileConfigType::Load, i).config_type(), TileConfigType::Load));
}

#[test]
fn defaults() {
    let t = TimeConfig::default();
    assert_eq!(t.format, "%Y-%m-%d %H:%M:%S");
    assert_eq!(t.short_format, "%H:%M:%S");
    let c = Config::default();
    assert_eq!(c.tile.len(), 0);
    assert_eq!(c.default.spacing, None);
    assert_eq!(DefaultSection::default().spacing, None);
    assert_eq!(Interval::from_secs(9), Interval { secs: 9, nanos: 0 });
}

#[test]
fn clones_keep_the_configuration() {
    let t = TimeConfig { format: "%H".to_string(), short_format: "%M".to_string() };
    let c = TileConfig::new(TileConfigType::Time(t), Some(Interval { secs: 2, nanos: 5 }));
    let d = c.clone();
    assert_eq!(d.update(), Some(Interval { secs: 2, nanos: 5 }));
    match d.config_type() {
        TileConfigType::Time(t) => {
            assert_eq!(t.format, "%H");
            assert_eq!(t.short_format, "%M");
        }
        other => panic!("{:?}", other),
    }
    assert!(matches!(TileConfig::new(TileConfigType::Memory, None).clone().config_type(), TileConfigType::Memory));
}

#[test]
fn ascii_durations_split_at_the_letters() {
    assert_eq!(split_duration("0.25ms"), ("0.25".to_string(), "ms".to_string()));
    assert_eq!(split_duration("90m"), ("90".to_string(), "m".to_string()));
}
