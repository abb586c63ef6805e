use illium::audio::{parse, parse_i64, target_percent, Action, Level};

#[test]
fn actions() {
    assert_eq!(parse("set 40").unwrap(), Action::Output(Level::SetTo(40)));
    assert_eq!(parse("up").unwrap(), Action::Output(Level::Up));
    assert_eq!(parse("toggle-mute").unwrap(), Action::Output(Level::ToggleMute));
    assert_eq!(parse("input-set 0").unwrap(), Action::Input(Level::SetTo(0)));
    assert_eq!(parse("input-toggle-mute").unwrap(), Action::Input(Level::ToggleMute));
    assert_eq!(
        parse("output {0.0.0.00000000}.{abc}").unwrap(),
        Action::DefaultOutput("{0.0.0.00000000}.{abc}".into())
    );
    assert_eq!(
        parse("session 55 {0.0.0.00000000}.{abc}|\\Device\\Harddisk\\Program Files\\app.exe%b{guid}").unwrap(),
        Action::Session(55, "{0.0.0.00000000}.{abc}|\\Device\\Harddisk\\Program Files\\app.exe%b{guid}".into())
    );
    for bad in ["", "set", "set x", "output", "session 5", "up 3", "mute"] {
        assert!(parse(bad).is_err(), "{bad}");
    }
}

#[test]
fn refusals_say_why() {
    assert_eq!(parse("set x"), Err("invalid volume: x".to_string()));
    assert_eq!(parse("session 5"), Err("session action needs a level and an id".to_string()));
    assert_eq!(parse("mute"), Err("unknown volume action: mute".to_string()));
    assert_eq!(parse("session x id"), Err("invalid volume: x".to_string()));
    assert_eq!(parse("down"), Ok(Action::Output(Level::Down)));
    assert_eq!(parse("input  mic one "), Ok(Action::DefaultInput("mic one".into())));
}

#[test]
fn numbers_read_as_i64() {
    let n = |s: &str| parse_i64(&s.chars().collect::<Vec<_>>());
    assert_eq!(n("42"), Some(42));
    assert_eq!(n("+7"), Some(7));
    assert_eq!(n("-15"), Some(-15));
    assert_eq!(n("9223372036854775807"), Some(i64::MAX));
    assert_eq!(n("-9223372036854775808"), Some(i64::MIN));
    assert_eq!(n("9223372036854775808"), None);
    assert_eq!(n("99999999999999999999999"), None);
    for bad in ["", "+", "-", " 1", "1 ", "1_000", "0x10", "--1"] {
        assert_eq!(n(bad), None, "{bad}");
    }
    for s in ["0", "-0", "+123", "-9223372036854775807", "12a"] {
        assert_eq!(n(s), s.parse::<i64>().ok(), "{s}");
    }
}

#[test]
fn levels_stay_within_zero_and_a_hundred() {
    assert_eq!(target_percent(50, &Level::Up), Some(55));
    assert_eq!(target_percent(98, &Level::Up), Some(100));
    assert_eq!(target_percent(3, &Level::Down), Some(0));
    assert_eq!(target_percent(10, &Level::SetTo(250)), Some(100));
    assert_eq!(target_percent(10, &Level::SetTo(-4)), Some(0));
    assert_eq!(target_percent(10, &Level::ToggleMute), None);
}
