use mqttbytes::{has_wildcards, valid_filter, valid_topic};

#[test]
fn matches_literal_cases() {
    assert!(mqttbytes::topic::matches("a/b", "a/b"));
    assert!(mqttbytes::topic::matches("a/b", "a/+"));
    assert!(mqttbytes::topic::matches("a/b/c", "a/#"));
    assert!(!mqttbytes::topic::matches("a/b", "a"));
    assert!(!mqttbytes::topic::matches("a", "+/a"));
}

#[test]
fn matches_more_cases() {
    assert!(mqttbytes::topic::matches("a", "a/#"));
    assert!(mqttbytes::topic::matches("a/b/c", "#"));
    assert!(mqttbytes::topic::matches("", "+"));
    assert!(mqttbytes::topic::matches("a//c", "a/+/c"));
    assert!(!mqttbytes::topic::matches("a/b/c", "a/+"));
    assert!(!mqttbytes::topic::matches("A/b", "a/b"));
    assert!(!mqttbytes::topic::matches("a/b", "a/b/c"));
    assert!(mqttbytes::topic::matches("sport/tennis/player1", "sport/+/player1"));
    assert!(mqttbytes::topic::matches("$SYS/x", "$SYS/+"));
}

#[test]
fn filter_validation_cases() {
    assert!(valid_filter("sport/#"));
    assert!(!valid_filter("sport/#/x"));
    assert!(valid_filter("sport/+"));
    assert!(!valid_filter("sport+"));
    assert!(valid_filter("#"));
    assert!(valid_filter("+/+/+"));
    assert!(!valid_filter("sport/tennis#"));
    assert!(!valid_filter("+a"));
    assert!(!valid_filter(""));
}

#[test]
fn topic_validation_cases() {
    assert!(!valid_topic("sport/+"));
    assert!(!valid_topic("sport/#"));
    assert!(valid_topic("sport/tennis"));
    assert!(!valid_topic(""));
    let long = "a".repeat(65_536);
    assert!(!valid_topic(&long));
    assert!(!valid_filter(&long));
    let max = "a".repeat(65_535);
    assert!(valid_topic(&max));
}

#[test]
fn wildcard_detection() {
    assert!(has_wildcards("a/+"));
    assert!(has_wildcards("#"));
    assert!(!has_wildcards("a/b"));
    assert!(!has_wildcards(""));
}

