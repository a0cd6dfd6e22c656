//! Denials in the audit log.

use autolsm::audit::{
    denial_from_parts, extract_field, find_threat, is_noise, AuditConsumer, DenialPreFilter,
    FilterDecision, RATE_LIMIT, WINDOW_NS,
};
use autolsm::common::AvcDenial;

const LINE: &str = r#"type=AVC msg=audit(1243332701.744:101): avc:  denied  { getattr } for  pid=2714 comm="ls" path="/usr/lib/locale/locale-archive" dev=dm-0 ino=353593 scontext=system_u:object_r:unlabeled_t:s0 tcontext=system_u:object_r:locale_t:s0 tclass=file"#;

#[test]
fn test_parse_avc_line() {
    let denial = AuditConsumer::parse_avc_line(LINE).unwrap();
    assert_eq!(denial.scontext_type, "unlabeled_t");
    assert_eq!(denial.tcontext_type, "locale_t");
    assert_eq!(denial.tclass, "file");
    assert_eq!(denial.perms, vec!["getattr"]);
    assert_eq!(denial.pid, 2714);
}

#[test]
fn every_field_of_a_message_is_read() {
    let d = AuditConsumer::parse_avc_line(LINE).unwrap();
    assert_eq!(d.timestamp_sec, "1243332701.744");
    assert_eq!(d.serial, 101);
    assert_eq!(d.scontext, "system_u:object_r:unlabeled_t:s0");
    assert_eq!(d.tcontext, "system_u:object_r:locale_t:s0");
    assert_eq!(d.comm, "ls");
    assert_eq!(d.raw, LINE);
}

#[test]
fn missing_fields_are_unknown() {
    let line = "type=AVC msg=audit(1.5:7): avc: denied{read}";
    let d = AuditConsumer::parse_avc_line(line).unwrap();
    assert_eq!(d.scontext, "unknown");
    assert_eq!(d.scontext_type, "unknown_t");
    assert_eq!(d.tcontext, "unknown");
    assert_eq!(d.tclass, "unknown");
    assert_eq!(d.comm, "unknown");
    assert_eq!(d.pid, 0);
    assert_eq!(d.perms, vec!["read"]);
}

#[test]
fn a_process_number_that_is_none_is_zero() {
    let of = |pid: &str| {
        let line = format!("type=AVC msg=audit(1.5:7): denied {{ read }} pid={} end", pid);
        AuditConsumer::parse_avc_line(&line).unwrap().pid
    };
    assert_eq!(of("17"), 17);
    assert_eq!(of("4294967295"), 4294967295);
    assert_eq!(of("4294967296"), 0);
    assert_eq!(of("x"), 0);
    assert_eq!(of(""), 0);
}

#[test]
fn messages_without_their_parts_are_none() {
    assert!(AuditConsumer::parse_avc_line("type=AVC denied { read }").is_none());
    assert!(AuditConsumer::parse_avc_line("type=AVC msg=audit(1.0:1): denied read").is_none());
    assert!(AuditConsumer::parse_avc_line("type=AVC msg=audit(1:1): denied { read }").is_none());
    assert!(AuditConsumer::parse_avc_line("type=AVC msg=audit(1.0:1): denied {}").is_none());
    // A serial number beyond 64 bits.
    assert!(AuditConsumer::parse_avc_line(
        "type=AVC msg=audit(1.0:18446744073709551616): denied { read }"
    )
    .is_none());
    assert!(AuditConsumer::parse_avc_line(
        "type=AVC msg=audit(1.0:18446744073709551615): denied { read }"
    )
    .is_some());
    // Digits of another script are digits to the pattern, but make no number.
    assert!(AuditConsumer::parse_avc_line("type=AVC msg=audit(\u{0661}.0:1): denied { read }").is_none());
}

#[test]
fn parts_make_a_denial() {
    let parts = |t: &str, n: &str, p: &str| {
        denial_from_parts(
            "type=AVC denied comm=\"a b\" pid=3",
            Some(t.to_string()),
            Some(n.to_string()),
            Some(p.to_string()),
        )
    };
    let d = parts("1.2", "5", " read  write ").unwrap();
    assert_eq!((d.serial, d.pid), (5, 3));
    assert_eq!(d.perms, vec!["read", "write"]);
    assert_eq!(d.comm, "a b");
    assert!(parts("1", "5", "read").is_none());
    assert!(parts("1.2", "five", "read").is_none());
    assert!(denial_from_parts("type=AVC denied", None, Some("5".into()), Some("r".into())).is_none());
    assert!(denial_from_parts("denied", Some("1.2".into()), Some("5".into()), Some("r".into())).is_none());
}

#[test]
fn fields_end_at_white_space_or_quote() {
    assert_eq!(extract_field("a=1 b=\"x y\" c=", "a=").as_deref(), Some("1"));
    assert_eq!(extract_field("a=1 b=\"x y\" c=", "b=").as_deref(), Some("x y"));
    assert_eq!(extract_field("a=1 b=\"x y\" c=", "c=").as_deref(), Some(""));
    assert_eq!(extract_field("a=1 b=\"x y\" c=", "d="), None);
    assert_eq!(extract_field("b=\"open", "b="), None);
    assert_eq!(extract_field("k=\u{e9}t\u{e9}\u{a0}z", "k=").as_deref(), Some("\u{e9}t\u{e9}"));
    // The first occurrence counts, wherever it stands.
    assert_eq!(extract_field("ppid=1 pid=2", "pid=").as_deref(), Some("1"));
}

#[test]
fn a_log_is_read_in_pieces() {
    let mut c = AuditConsumer::new("/var/log/audit/audit.log");
    assert_eq!(c.path(), "/var/log/audit/audit.log");
    assert_eq!(c.unread_from(0), None);
    assert_eq!(c.unread_from(10), Some(0));
    let lines = vec![LINE.to_string(), "type=SYSCALL".to_string(), LINE.to_string()];
    assert_eq!(c.poll_denials(10, &lines).len(), 2);
    // Nothing was added, or the log was cut.
    assert_eq!(c.unread_from(10), None);
    assert_eq!(c.poll_denials(10, &lines).len(), 0);
    assert_eq!(c.poll_denials(5, &lines).len(), 0);
    assert_eq!(c.unread_from(11), Some(10));
    assert_eq!(c.poll_denials(11, &lines[..1]).len(), 1);
    assert_eq!(c.unread_from(12), Some(11));
}

fn denial(perm: &str, raw: &str) -> AvcDenial {
    AvcDenial {
        timestamp_sec: "1.0".into(),
        serial: 1,
        scontext: "s".into(),
        scontext_type: "httpd_t".into(),
        tcontext: "t".into(),
        tcontext_type: "etc_t".into(),
        tclass: "file".into(),
        perms: vec![perm.into()],
        pid: 100,
        comm: "test".into(),
        raw: raw.into(),
    }
}

#[test]
fn threats_and_noise_are_told_apart() {
    assert_eq!(find_threat("path=/etc/shadow"), Some("credential_access"));
    assert_eq!(find_threat("path=/ETC/Passwd"), Some("credential_access"));
    assert_eq!(find_threat("path=/etc/sudoers"), Some("credential_access"));
    assert_eq!(find_threat("path=/root/.ssh/id"), Some("ssh_key_access"));
    assert_eq!(find_threat("path=/home/joe/.ssh/authorized_keys"), Some("ssh_key_access"));
    assert_eq!(find_threat("path=/home/joe/.ssh/config"), None);
    assert_eq!(find_threat("path=/etc/ssl/private/key"), Some("tls_key_access"));
    assert_eq!(find_threat("path=/etc/hosts"), None);
    assert!(is_noise("path=/home/joe/.cache/x"));
    assert!(is_noise("path=/tmp/x"));
    assert!(!is_noise("path=/var/x"));
}

#[test]
fn a_threat_is_reported_with_its_reason() {
    let mut f = DenialPreFilter::new();
    // It is a sign of a threat and looks like noise.
    let d = denial("read", "path=/tmp/etc/shadow /etc/shadow");
    for i in 0..50 {
        match f.filter_at(&d, i) {
            FilterDecision::Alert(a, reason) => {
                assert_eq!(reason, "matched deny-pattern: credential_access");
                assert_eq!(a.raw, d.raw);
            }
            _ => panic!("expected Alert"),
        }
    }
    // Threats use up nothing of what may pass.
    assert!(matches!(f.filter_at(&denial("read", "x"), 50), FilterDecision::Pass(_)));
}

fn passes(f: &mut DenialPreFilter, perm: &str, now: u64, times: usize) -> usize {
    (0..times).filter(|_| matches!(f.filter_at(&denial(perm, "x"), now), FilterDecision::Pass(_))).count()
}

#[test]
fn a_window_lets_ten_pass() {
    let mut f = DenialPreFilter::new();
    assert_eq!(RATE_LIMIT, 10);
    assert_eq!(passes(&mut f, "read", 0, 30), 10);
    // The window is over only after more than a minute.
    assert_eq!(passes(&mut f, "read", WINDOW_NS, 5), 0);
    assert_eq!(passes(&mut f, "read", WINDOW_NS + 1, 30), 10);
    // A time before the window began does not end it.
    assert_eq!(passes(&mut f, "read", 0, 5), 0);
}

#[test]
fn credentials_are_reported_beyond_the_limit() {
    let mut f = DenialPreFilter::new();
    assert_eq!(passes(&mut f, "read", 0, 30), 10);
    for path in ["/etc/shadow", "/etc/passwd", "/etc/sudoers"] {
        let d = denial("read", &format!("avc: name=\"/tmp/x\" path=\"{}\"", path));
        match f.filter_at(&d, 1) {
            FilterDecision::Alert(_, reason) => {
                assert_eq!(reason, "matched deny-pattern: credential_access")
            }
            _ => panic!("expected Alert"),
        }
    }
    let d = denial("read", "path=/etc/ssl/private/key");
    assert!(matches!(f.filter_at(&d, 1), FilterDecision::Alert(_, _)));
}

#[test]
fn temporary_files_use_up_nothing() {
    let mut f = DenialPreFilter::new();
    for i in 0..50 {
        assert!(matches!(f.filter_at(&denial("read", "path=/tmp/x"), i), FilterDecision::Drop));
    }
    assert_eq!(passes(&mut f, "read", 50, 30), 10);
}

#[test]
fn unlike_denials_are_counted_apart() {
    let mut f = DenialPreFilter::new();
    assert_eq!(passes(&mut f, "read", 0, 30), 10);
    assert_eq!(passes(&mut f, "write", 0, 30), 10);
    let mut other = denial("read", "x");
    other.tclass = "dir".into();
    assert!(matches!(f.filter_at(&other, 0), FilterDecision::Pass(_)));
}

#[test]
fn at_most_twice_the_limit_passes_in_a_minute() {
    let mut f = DenialPreFilter::new();
    assert_eq!(passes(&mut f, "read", 0, 1), 1);
    // Nine more at the end of the first window, ten at the beginning of the next one.
    let mut n = passes(&mut f, "read", WINDOW_NS, 20);
    n += passes(&mut f, "read", WINDOW_NS + 1, 20);
    assert_eq!(n, 19);
}

#[test]
fn match_results_decide() {
    let mut f = DenialPreFilter::new();
    let d = denial("read", "anything");
    assert!(matches!(f.decide(&d, Some("why"), true, 0), FilterDecision::Alert(_, r) if r == "matched deny-pattern: why"));
    assert!(matches!(f.decide(&d, None, true, 0), FilterDecision::Drop));
    assert!(matches!(f.decide(&d, None, false, 0), FilterDecision::Pass(p) if p.raw == "anything"));
}
