use netdog::ecs::{
    ECSAgentImagePullBehavior, ECSAgentLogLevel, ECSAttributeKey, ECSAttributeValue,
    ECSDurationValue, ECSImagePullBehavior, EcsError,
};

#[test]
fn good_keys() {
    let long = "a".repeat(128);
    for key in &[
        "a",
        "alphabetical",
        "1234567890",
        "with-dash",
        "have.period/slash",
        "have_underscore_too",
        long.as_str(),
        ".leadingperiod",
        "trailingperiod.",
    ] {
        ECSAttributeKey::try_from(*key).unwrap();
    }
}

#[test]
fn bad_keys() {
    let long = "a".repeat(129);
    for key in &["", long.as_str(), "@", "$", "%", ":", "no spaces allowed"] {
        ECSAttributeKey::try_from(*key).unwrap_err();
    }
}

#[test]
fn ecs_good_vals() {
    let long = "a".repeat(128);
    for val in &[
        "a",
        "alphabetical",
        "1234567890",
        "with-dash",
        "have.period/slash",
        "have/slash\\backslash",
        "have_underscore_too",
        "with spaces in between",
        long.as_str(),
        ".leadingperiod",
        "trailingperiod.",
        "@ and : allowed too",
        "\\",
        "\\ \\",
    ] {
        ECSAttributeValue::try_from(*val).unwrap();
    }
    for val in &["debug", "info", "warn"] {
        ECSAgentLogLevel::try_from(*val).unwrap();
    }
    for val in &["default", "always", "once", "prefer-cached"] {
        ECSAgentImagePullBehavior::try_from(*val).unwrap();
    }
}

#[test]
fn ecs_bad_vals() {
    let long = "a".repeat(129);
    for val in &["", long.as_str(), "$", "%", " leading space", "trailing space "] {
        ECSAttributeValue::try_from(*val).unwrap_err();
    }
    for val in &["", "warning", "errors", " "] {
        ECSAgentLogLevel::try_from(*val).unwrap_err();
    }
    for val in &["", "tomorrow", "never", " "] {
        ECSAgentImagePullBehavior::try_from(*val).unwrap_err();
    }
}

#[test]
fn valid_values() {
    for ok in &[
        "99s",
        "20m",
        "1h",
        "1h2m3s",
        "4m5s",
        "2h3s",
        "1.5h3.5m",
        "1ms1us1ns",
        "1s1\u{00B5}s1ns",
    ] {
        ECSDurationValue::try_from(*ok).unwrap();
    }
}

#[test]
fn invalid_values() {
    let long = "a".repeat(23);
    for err in &["", "100", "...3ms", "1..5s", "ten second", "1m2h", "1y2w", long.as_str()] {
        ECSDurationValue::try_from(*err).unwrap_err();
    }
}

#[test]
fn pull_behavior_variants() {
    assert_eq!(ECSImagePullBehavior::try_from("default").unwrap(), ECSImagePullBehavior::Default);
    assert_eq!(ECSImagePullBehavior::try_from("always").unwrap(), ECSImagePullBehavior::Always);
    assert_eq!(ECSImagePullBehavior::try_from("once").unwrap(), ECSImagePullBehavior::Once);
    assert_eq!(
        ECSImagePullBehavior::try_from("prefer-cached").unwrap(),
        ECSImagePullBehavior::PreferCached
    );
}

#[test]
fn ecs_error_variants() {
    assert!(matches!(
        ECSAttributeKey::try_from("no spaces").unwrap_err(),
        EcsError::BigPattern { .. }
    ));
    assert!(matches!(
        ECSAgentLogLevel::try_from("warning").unwrap_err(),
        EcsError::InvalidPlainValue { .. }
    ));
    assert!(matches!(
        ECSDurationValue::try_from("1y").unwrap_err(),
        EcsError::InvalidECSDurationValue { .. }
    ));
}

#[test]
fn ecs_values_round_trip() {
    assert_eq!(ECSAttributeKey::try_from("with-dash").unwrap().text(), "with-dash");
    assert_eq!(ECSAttributeValue::try_from("a b").unwrap().text(), "a b");
    assert_eq!(ECSAgentLogLevel::try_from("debug").unwrap().text(), "debug");
    assert_eq!(
        ECSAgentImagePullBehavior::try_from("prefer-cached").unwrap().text(),
        "prefer-cached"
    );
    assert_eq!(ECSDurationValue::try_from("1h2m3s").unwrap().text(), "1h2m3s");
}
