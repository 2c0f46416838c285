use std::collections::HashSet;
use workshop_demo::config::{hostname_or_default, port_from_setting, subtitle_or_default};
use workshop_demo::counter::RequestCounter;
use workshop_demo::numbers::{parse_u16, u64_to_string};

#[test]
fn u64_to_string_renders_decimal() {
    assert_eq!(u64_to_string(0), "0");
    assert_eq!(u64_to_string(7), "7");
    assert_eq!(u64_to_string(10), "10");
    assert_eq!(u64_to_string(3000), "3000");
    assert_eq!(u64_to_string(u64::MAX), u64::MAX.to_string());
}

#[test]
fn parse_u16_agrees_with_std_parse() {
    let cases = [
        "8080", "notanumber", "0", "65535", "65536", "99999999999999999999", "+80", "-1", "",
        "+", " 80", "80 ", "007", "1e3",
    ];
    for s in cases {
        assert_eq!(parse_u16(s), s.parse::<u16>().ok(), "case {s:?}");
    }
}

#[test]
fn port_falls_back_to_default() {
    assert_eq!(port_from_setting(Some("8080".to_string())), 8080);
    assert_eq!(port_from_setting(Some("notanumber".to_string())), 3000);
    assert_eq!(port_from_setting(Some("".to_string())), 3000);
    assert_eq!(port_from_setting(Some("70000".to_string())), 3000);
    assert_eq!(port_from_setting(None), 3000);
}

#[test]
fn subtitle_falls_back_to_default() {
    assert_eq!(
        subtitle_or_default(None),
        "Kubernetes Workshop Example Application"
    );
    assert_eq!(subtitle_or_default(Some("X".to_string())), "X");
}

#[test]
fn hostname_falls_back_to_sentinel() {
    assert_eq!(hostname_or_default(None), "unknown");
    assert_eq!(hostname_or_default(Some("pod-1".to_string())), "pod-1");
}

#[test]
fn counter_hands_out_consecutive_values() {
    let n: u64 = 100;
    let mut counter = RequestCounter::new();
    let mut seen: HashSet<u64> = HashSet::new();
    for _ in 0..n {
        let v = counter.next();
        assert!(seen.insert(v), "duplicate count {v}");
    }
    for v in 1..=n {
        assert!(seen.contains(&v), "gap at {v}");
    }
    assert_eq!(seen.len() as u64, n);
}
