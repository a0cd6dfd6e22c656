//! Which rules may be installed.

use autolsm::common::AllowRule;
use autolsm::type_set::TypeSet;
use autolsm::validator::{
    default_deny_sources, valid_perms_for_class, validate, ValidationError, VALID_CLASSES,
};

fn make_rule(source: &str, target: &str, class: &str, perms: &[&str]) -> AllowRule {
    AllowRule {
        source_type: source.into(),
        target_type: target.into(),
        tclass: class.into(),
        perms: perms.iter().map(|s| s.to_string()).collect(),
        rationale: "test".into(),
    }
}

fn set(names: &[&str]) -> TypeSet {
    let mut s = TypeSet::new();
    for n in names {
        s.insert(n);
    }
    s
}

#[test]
fn test_valid_rule_passes() {
    let rules = vec![make_rule("httpd_t", "var_log_t", "file", &["read", "append"])];
    let mut known = TypeSet::new();
    known.insert("httpd_t");
    known.insert("var_log_t");
    assert!(validate(&rules, &known, &default_deny_sources()).is_ok());
}

#[test]
fn test_wildcard_source_rejected() {
    let rules = vec![make_rule("*", "var_log_t", "file", &["read"])];
    let mut known = TypeSet::new();
    known.insert("var_log_t");
    assert!(matches!(
        validate(&rules, &known, &default_deny_sources()),
        Err(ValidationError::WildcardSource(_))
    ));
}

#[test]
fn test_unknown_t_rejected() {
    let mut known = TypeSet::new();
    known.insert("unknown_t");
    known.insert("var_log_t");
    let rules = vec![make_rule("unknown_t", "var_log_t", "file", &["read"])];
    assert!(matches!(
        validate(&rules, &known, &default_deny_sources()),
        Err(ValidationError::DeniedSource(_))
    ));
}

#[test]
fn test_deny_target_rejected() {
    let denys = default_deny_sources();
    let mut known = TypeSet::new();
    known.insert("httpd_t");
    known.insert("kernel_t");
    let rules = vec![make_rule("httpd_t", "kernel_t", "file", &["read"])];
    assert!(matches!(validate(&rules, &known, &denys), Err(ValidationError::DeniedTarget(_))));
}

fn words(r: Result<(), ValidationError>) -> String {
    match r {
        Ok(()) => "ok".to_string(),
        Err(e) => e.message(),
    }
}

#[test]
fn each_refusal_has_its_words() {
    let known = set(&["a_t", "b_t", "kernel_t"]);
    let deny = set(&["kernel_t"]);
    let of = |s: &str, t: &str, c: &str, p: &[&str]| {
        words(validate(&[make_rule(s, t, c, p)], &known, &deny))
    };
    assert_eq!(of("a*", "b_t", "file", &["read"]), "wildcard in source_type: a*");
    assert_eq!(of("a_t", "*_t", "file", &["read"]), "wildcard in target_type: *_t");
    assert_eq!(of("a_t", "b_t", "f*", &["read"]), "wildcard in tclass");
    assert_eq!(of("a_t", "b_t", "file", &["read", "w*"]), "wildcard in perm: w*");
    assert_eq!(of("x_t", "b_t", "file", &["read"]), "unknown SELinux type: x_t");
    assert_eq!(of("a_t", "y_t", "file", &["read"]), "unknown SELinux type: y_t");
    assert_eq!(of("kernel_t", "b_t", "file", &["read"]), "source_type kernel_t is in deny list");
    assert_eq!(of("a_t", "kernel_t", "file", &["read"]), "target_type kernel_t is in deny list");
    assert_eq!(of("a_t", "b_t", "file", &[]), "perms list is empty");
    assert_eq!(of("a_t", "b_t", "socket", &["read"]), "unknown SELinux class: socket");
    assert_eq!(of("a_t", "b_t", "file", &["read", "bind"]), "unknown perm 'bind' for class 'file'");
    assert_eq!(of("a_t", "b_t", "file", &["read"]), "ok");
    assert_eq!(
        ValidationError::UnconfinedTarget.message(),
        "target_type must not be unconfined_t"
    );
}

#[test]
fn an_unconfined_target_has_its_own_refusal() {
    let known = set(&["httpd_t", "unconfined_t"]);
    let rules = [make_rule("httpd_t", "unconfined_t", "process", &["signal"])];
    let deny = default_deny_sources();
    assert!(matches!(validate(&rules, &known, &deny), Err(ValidationError::UnconfinedTarget)));
    // It is refused whether or not it was observed, but only where it is denied.
    assert!(matches!(
        validate(&rules, &set(&["httpd_t"]), &deny),
        Err(ValidationError::UnconfinedTarget)
    ));
    assert!(validate(&rules, &known, &set(&["kernel_t"])).is_ok());
    // As a source it is denied like any other type.
    let rules = [make_rule("unconfined_t", "httpd_t", "process", &["signal"])];
    assert!(matches!(validate(&rules, &known, &deny), Err(ValidationError::DeniedSource(_))));
}

#[test]
fn the_first_rule_that_is_refused_decides() {
    let known = set(&["a_t", "b_t"]);
    let deny = set(&[]);
    let good = || make_rule("a_t", "b_t", "file", &["read"]);
    let bad = || make_rule("a_t", "b_t", "file", &[]);
    let worse = || make_rule("*", "b_t", "file", &["read"]);
    assert!(validate(&[], &known, &deny).is_ok());
    assert!(validate(&[good(), good()], &known, &deny).is_ok());
    assert!(matches!(
        validate(&[good(), bad(), worse()], &known, &deny),
        Err(ValidationError::EmptyPerms)
    ));
    assert!(matches!(
        validate(&[worse(), bad()], &known, &deny),
        Err(ValidationError::WildcardSource(_))
    ));
}

#[test]
fn wildcards_come_before_everything_else() {
    // Nothing about this rule is right; the wildcard in its source is what is reported.
    let r = validate(&[make_rule("*", "*", "*", &[])], &set(&[]), &set(&["*"]));
    assert!(matches!(r, Err(ValidationError::WildcardSource(s)) if s == "*"));
}

#[test]
fn the_default_denies_six_types() {
    let deny = default_deny_sources();
    for name in
        ["kernel_t", "init_t", "unconfined_t", "unlabeled_t", "unknown_t", "unresolved_t"]
    {
        assert!(deny.contains(name));
    }
    assert!(!deny.contains("httpd_t"));
    assert!(!deny.contains("generic_t"));
}

#[test]
fn classes_have_their_permissions() {
    assert_eq!(VALID_CLASSES.len(), 24);
    assert!(VALID_CLASSES.contains(&"netlink_socket"));
    assert!(!VALID_CLASSES.contains(&"socket"));
    assert_eq!(valid_perms_for_class("file").len(), 21);
    assert_eq!(valid_perms_for_class("dir").len(), 19);
    assert_eq!(valid_perms_for_class("tcp_socket").len(), 15);
    assert_eq!(valid_perms_for_class("udp_socket").len(), 13);
    assert_eq!(valid_perms_for_class("unix_stream_socket").len(), 10);
    assert_eq!(valid_perms_for_class("unix_dgram_socket").len(), 7);
    assert_eq!(valid_perms_for_class("netlink_socket").len(), 6);
    assert_eq!(valid_perms_for_class("process").len(), 29);
    assert_eq!(valid_perms_for_class("capability").len(), 41);
    assert_eq!(valid_perms_for_class("filesystem").len(), 9);
    assert_eq!(valid_perms_for_class("fd"), &["read", "write", "create", "getattr", "setattr"]);
    assert!(valid_perms_for_class("process").contains(&"setrlimit"));
}

#[test]
fn fewer_known_types_approve_no_more() {
    let rule = make_rule("a_t", "b_t", "file", &["read"]);
    let known = set(&["a_t", "b_t"]);
    let fewer = set(&["a_t"]);
    assert!(validate(&[rule.clone()], &known, &set(&[])).is_ok());
    assert!(validate(&[rule.clone()], &fewer, &set(&[])).is_err());
    assert!(validate(&[rule], &known, &set(&["b_t"])).is_err());
}
