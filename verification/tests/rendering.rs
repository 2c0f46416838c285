use workshop_demo::page::{render_page, render_response, template};
use workshop_demo::text::replace_all;

#[test]
fn replace_all_matches_std_replace() {
    let cases: Vec<(&str, &str, &str)> = vec![
        ("abcabc", "b", "xy"),
        ("aaa", "aa", "b"),
        ("hello", "world", "x"),
        ("", "a", "b"),
        ("{path}{path}", "{path}", "/"),
        ("overlap aaaa here", "aa", "a"),
    ];
    for (text, pat, rep) in cases {
        assert_eq!(replace_all(text, pat, rep), text.replace(pat, rep));
    }
}

#[test]
fn replace_all_is_leftmost_nonoverlapping() {
    assert_eq!(replace_all("aaa", "aa", "b"), "ba");
    assert_eq!(replace_all("aaaa", "aa", "b"), "bb");
    assert_eq!(replace_all("abcabc", "b", "xy"), "axycaxyc");
    assert_eq!(replace_all("no match", "zz", "y"), "no match");
    assert_eq!(replace_all("hello", "", "x"), "hello");
}

#[test]
fn template_holds_every_placeholder() {
    let t = template();
    for ph in ["{subtitle}", "{rust_version}", "{path}", "{hostname}", "{request_count}"] {
        assert!(t.contains(ph));
        assert_eq!(t.matches(ph).count(), 1);
    }
}

#[test]
fn render_page_substitutes_all_five_values() {
    let html = render_page("1.81", "/foo/bar", "pod-7f9c", 7, "My Subtitle");
    assert!(html.contains("/foo/bar"));
    assert!(html.contains("My Subtitle"));
    assert!(html.contains("pod-7f9c"));
    assert!(html.contains("Rust 1.81"));
    assert!(html.contains("<span class=\"info-value\">7</span>"));
    for ph in ["{subtitle}", "{rust_version}", "{path}", "{hostname}", "{request_count}"] {
        assert!(!html.contains(ph));
    }
}

#[test]
fn render_page_agrees_with_chained_std_replace() {
    let expected = template()
        .replace("{rust_version}", "1.81")
        .replace("{path}", "/foo/bar")
        .replace("{hostname}", "pod-7f9c")
        .replace("{request_count}", "42")
        .replace("{subtitle}", "My Subtitle");
    let html = render_page("1.81", "/foo/bar", "pod-7f9c", 42, "My Subtitle");
    assert_eq!(html, expected);
}

#[test]
fn render_response_uses_defaults_when_lookups_fail() {
    let html = render_response(1, "1.81", "/", None, None);
    assert!(html.contains("Kubernetes Workshop Example Application"));
    assert!(html.contains("<span class=\"info-value\">unknown</span>"));
}

#[test]
fn render_response_prefers_given_values() {
    let html = render_response(
        2,
        "1.81",
        "/healthz",
        Some("node-1".to_string()),
        Some("X".to_string()),
    );
    assert!(html.contains("X"));
    assert!(!html.contains("Kubernetes Workshop Example Application"));
    assert!(html.contains("node-1"));
    assert!(html.contains("/healthz"));
    assert!(html.contains("<span class=\"info-value\">2</span>"));
}
