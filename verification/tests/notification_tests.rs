use hop::notification::{escape, notify, Platform};

fn unescape(s: &str) -> String {
    let mut out = String::new();
    let mut it = s.chars();
    while let Some(c) = it.next() {
        if c == '\\' {
            if let Some(d) = it.next() {
                out.push(d);
                continue;
            }
        }
        out.push(c);
    }
    out
}

#[test]
fn escape_backslashes_and_quotes() {
    assert_eq!(escape("plain"), "plain");
    assert_eq!(escape(r#"say "hi""#), r#"say \"hi\""#);
    assert_eq!(escape(r"a\b"), r"a\\b");
    assert_eq!(escape(r#"\""#), r#"\\\""#);
    let s = r#"x\y"z"#;
    assert_eq!(escape(s), s.replace('\\', "\\\\").replace('"', "\\\""));
}

#[test]
fn escaped_text_reads_back() {
    for s in ["", "api is ready", r#"we"ird\name\"#, "\\\\\"\""] {
        assert_eq!(unescape(&escape(s)), s);
    }
}

#[test]
fn macos_runs_osascript() {
    let c = notify(Platform::MacOs, "Hop", r#"my "app" is ready"#).unwrap();
    assert_eq!(c.program, "osascript");
    assert_eq!(c.args.len(), 2);
    assert_eq!(c.args[0], "-e");
    assert_eq!(
        c.args[1],
        r#"display notification "my \"app\" is ready" with title "Hop""#
    );
}

#[test]
fn linux_runs_notify_send() {
    let c = notify(Platform::Linux, "Hop", "api is ready").unwrap();
    assert_eq!(c.program, "notify-send");
    assert_eq!(c.args, vec!["Hop".to_string(), "api is ready".to_string()]);
}

#[test]
fn other_platforms_do_nothing() {
    assert!(notify(Platform::Other, "t", "b").is_none());
}
