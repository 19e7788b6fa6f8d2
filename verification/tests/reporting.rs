use systemd_failed::report::ReportError;
use systemd_failed::units::{collect, FailedUnits};

fn two_unit_set() -> FailedUnits {
    let listing = "\u{25CF} a.service loaded failed failed A\n\u{25CF} b.service loaded failed failed B\n";
    let mut fu = collect(listing);
    fu.set_detail(0, "detail for a".to_string());
    fu
}

#[test]
fn summary_of_empty_set() {
    let fu = FailedUnits::new();
    assert_eq!(fu.summary(), "No failed units");
}

#[test]
fn summary_of_one_unit() {
    let listing = "\u{25CF} nginx.service loaded failed failed The nginx HTTP server\n";
    let fu = collect(listing);
    assert_eq!(fu.summary(), "Failed Units: [ nginx.service ]");
}

#[test]
fn summary_of_two_units_keeps_trailing_separator() {
    let fu = two_unit_set();
    assert_eq!(fu.summary(), "Failed Units: [ a.service, b.service,  ]");
}

#[test]
fn body_lists_names_then_details_in_order() {
    let fu = two_unit_set();
    let body = fu.render_body();
    assert_eq!(
        body,
        "Failed units:\r\na.service\r\nb.service\r\n\r\nSystemctl status output of failed units\r\n\r\n\r\n\r\ndetail for a\r\n\r\n\r\n"
    );
}

#[test]
fn body_of_empty_set_is_headers_only() {
    let fu = FailedUnits::new();
    assert_eq!(
        fu.render_body(),
        "Failed units:\r\n\r\nSystemctl status output of failed units\r\n"
    );
}

#[test]
fn mail_builds_for_valid_addresses() {
    let fu = two_unit_set();
    let msg = fu.mail("root@example.com", "host1").expect("message should build");
    let formatted = String::from_utf8(msg.formatted()).expect("mail is text");
    assert!(formatted.contains("Subject: Failed Systemd-Units"));
    assert!(formatted.contains("mail@weriomat.com"));
    assert!(formatted.contains("root@example.com"));
    assert!(formatted.contains("a.service"));
    assert!(formatted.contains("b.service"));
    assert!(formatted.contains("detail for a"));
}

#[test]
fn mail_rejects_bad_recipient() {
    let fu = two_unit_set();
    let r = fu.mail("no angle brackets allowed > here", "host1");
    assert_eq!(r.err(), Some(ReportError::InvalidRecipient));
}

#[test]
fn mail_rejects_bad_sender_host() {
    let fu = two_unit_set();
    let r = fu.mail("root@example.com", "bad>host");
    assert_eq!(r.err(), Some(ReportError::InvalidSender));
}

#[test]
fn mail_local_uses_machine_hostname() {
    let fu = two_unit_set();
    assert!(fu.mail_local("root@example.com").is_ok());
}

#[test]
fn mail_local_rejects_bad_recipient() {
    let fu = two_unit_set();
    let r = fu.mail_local("not <an address");
    assert!(r.is_err());
}
