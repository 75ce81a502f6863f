use dendrite::config::{interval_seconds, is_switch_on, watch_paths};

#[test]
fn switch_values_turn_fanotify_on() {
    assert!(is_switch_on("1"));
    assert!(is_switch_on(" TRUE "));
    assert!(is_switch_on("Yes"));
    assert!(is_switch_on("on\n"));
    assert!(!is_switch_on("0"));
    assert!(!is_switch_on("enabled"));
}

#[test]
fn watch_paths_skip_empty_entries() {
    assert_eq!(
        watch_paths("/tmp/a::/var/log:"),
        vec!["/tmp/a".to_string(), "/var/log".to_string()]
    );
    assert!(watch_paths("").is_empty());
    assert_eq!(watch_paths("/only"), vec!["/only".to_string()]);
}

#[test]
fn interval_is_at_least_one_second() {
    assert_eq!(interval_seconds("5"), Some(5));
    assert_eq!(interval_seconds("0"), Some(1));
    assert_eq!(interval_seconds("soon"), None);
}
