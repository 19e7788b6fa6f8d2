use systemd_failed::parse::{extract_unit_name, line_is_failed, malformed_lines, split_lines};
use systemd_failed::units::{collect, FailedUnits};

#[test]
fn split_lines_plain() {
    let r = split_lines("a\r\nb\nc");
    assert_eq!(r, vec!["a".to_string(), "b".to_string(), "c".to_string()]);
}

#[test]
fn split_lines_empty_and_blank() {
    assert_eq!(split_lines(""), Vec::<String>::new());
    assert_eq!(split_lines("a\n\nb\n"), vec!["a".to_string(), "".to_string(), "b".to_string()]);
}

#[test]
fn split_lines_keeps_lone_carriage_return() {
    assert_eq!(split_lines("a\r"), vec!["a\r".to_string()]);
}

#[test]
fn bullet_line_detection() {
    assert!(line_is_failed("\u{25CF} nginx.service loaded failed failed"));
    assert!(line_is_failed("   \u{25CF} indented.service loaded failed failed"));
    assert!(!line_is_failed("0 loaded units listed."));
    assert!(!line_is_failed(""));
}

#[test]
fn extract_second_token() {
    assert_eq!(
        extract_unit_name("\u{25CF} nginx.service loaded failed failed The nginx HTTP server"),
        Some("nginx.service".to_string())
    );
    assert_eq!(extract_unit_name("  \u{25CF} c.service loaded"), Some("c.service".to_string()));
    assert_eq!(extract_unit_name("\u{25CF} b.service"), Some("b.service".to_string()));
}

#[test]
fn extract_rejects_non_bullet_and_malformed() {
    assert_eq!(extract_unit_name("UNIT LOAD ACTIVE"), None);
    assert_eq!(extract_unit_name("\u{25CF}"), None);
    assert_eq!(extract_unit_name("\u{25CF}   "), None);
}

#[test]
fn scenario_single_failed_unit() {
    let listing =
        "0 loaded units listed.\n\u{25CF} nginx.service loaded failed failed The nginx HTTP server\n";
    let fu = collect(listing);
    assert_eq!(fu.number, 1);
    assert_eq!(fu.names, vec!["nginx.service".to_string()]);
    assert_eq!(fu.systemctl_full, vec!["".to_string()]);
    assert_eq!(
        fu.messages,
        vec!["\u{25CF} nginx.service loaded failed failed The nginx HTTP server".to_string()]
    );
}

#[test]
fn scenario_no_bullet_lines() {
    let listing = "UNIT LOAD ACTIVE SUB DESCRIPTION\n0 loaded units listed.\n";
    let fu = collect(listing);
    assert_eq!(fu.number, 0);
    assert!(fu.names.is_empty());
    assert!(fu.systemctl_full.is_empty());
    assert!(fu.messages.is_empty());
}

#[test]
fn empty_listing_collects_nothing() {
    let fu = collect("");
    assert_eq!(fu.number, 0);
    assert!(fu.names.is_empty());
}

#[test]
fn collect_preserves_encounter_order() {
    let listing = "\u{25CF} b.service loaded failed failed B\n\u{25CF} a.service loaded failed failed A\n";
    let fu = collect(listing);
    assert_eq!(fu.number, 2);
    assert_eq!(fu.names, vec!["b.service".to_string(), "a.service".to_string()]);
}

#[test]
fn malformed_line_skipped_others_kept() {
    let listing = "\u{25CF}\n\u{25CF} a.service loaded failed failed A\n\u{25CF}   \n";
    let fu = collect(listing);
    assert_eq!(fu.number, 1);
    assert_eq!(fu.names, vec!["a.service".to_string()]);
    assert_eq!(fu.messages.len(), 3);
    let warned = malformed_lines(listing);
    assert_eq!(warned, vec!["\u{25CF}".to_string(), "\u{25CF}   ".to_string()]);
}

#[test]
fn alignment_kept_when_details_missing() {
    let listing = "\u{25CF} a.service loaded failed failed A\n\u{25CF} b.service loaded failed failed B\n";
    let mut fu = collect(listing);
    assert_eq!(fu.number, 2);
    assert_eq!(fu.names.len(), fu.systemctl_full.len());
    fu.set_detail(0, "detail for a".to_string());
    assert_eq!(fu.systemctl_full, vec!["detail for a".to_string(), "".to_string()]);
    assert_eq!(fu.names.len(), fu.systemctl_full.len());
    assert_eq!(fu.number, 2);
}

#[test]
fn collect_twice_yields_equal_sets() {
    let listing = "junk\n\u{25CF} a.service loaded failed failed A\n\u{25CF} b.service loaded failed failed B\n";
    let one = collect(listing);
    let two = collect(listing);
    assert_eq!(one.number, two.number);
    assert_eq!(one.names, two.names);
    assert_eq!(one.systemctl_full, two.systemctl_full);
    assert_eq!(one.messages, two.messages);
}

#[test]
fn add_failed_hands_back_the_name() {
    let mut fu = FailedUnits::new();
    let r = fu.add_failed("\u{25CF} x.service loaded failed failed X".to_string());
    assert_eq!(r, Some("x.service".to_string()));
    assert_eq!(fu.number, 1);
    let none = fu.add_failed("\u{25CF}".to_string());
    assert_eq!(none, None);
    assert_eq!(fu.number, 1);
    assert_eq!(fu.messages.len(), 2);
}
