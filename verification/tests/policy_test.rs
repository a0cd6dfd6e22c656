//! From batches to installed modules.

use autolsm::approval::add_rules;
use autolsm::common::{
    AlertSeverity, AllowRule, AvcDenial, LlmAlert, LlmResponse, LlmTask, NormalizedAccess,
    NormalizedBatch,
};
use autolsm::llm::{
    build_request, content_from_parts, content_of_reply, known_types, review, unreadable_output,
    Action, LlmError, NoOpGenerator, OpenAiPolicyGenerator, PolicyGenerator, PolicyLoop, Review,
    CONFIDENCE_THRESHOLD, FULL_CONFIDENCE,
};
use autolsm::selinux::{CommandResult, PolicyError, PolicyLoader};
use autolsm::simple_gen::SimplePolicyGenerator;
use autolsm::store::{module_name, module_name_at, PolicyStore, StoreError};
use autolsm::validator::ValidationError;

fn access(s: &str, t: &str, c: &str, p: &str) -> NormalizedAccess {
    NormalizedAccess {
        scontext: format!("u:r:{}:s0", s),
        scontext_type: s.into(),
        tcontext: format!("u:r:{}:s0", t),
        tcontext_type: t.into(),
        tclass: c.into(),
        perm: p.into(),
        hook_id: 0,
        count: 1,
        first_seen_ns: 0,
        last_seen_ns: 0,
        is_new: true,
    }
}

fn rule(s: &str, t: &str, c: &str, perms: &[&str]) -> AllowRule {
    AllowRule {
        source_type: s.into(),
        target_type: t.into(),
        tclass: c.into(),
        perms: perms.iter().map(|p| p.to_string()).collect(),
        rationale: "r".into(),
    }
}

fn batch(events: Vec<NormalizedAccess>, has_denials: bool) -> NormalizedBatch {
    NormalizedBatch { events, has_denials, denials: vec![] }
}

#[test]
fn test_to_cil_merges() {
    let rules = vec![
        AllowRule {
            source_type: "httpd_t".into(),
            target_type: "var_log_t".into(),
            tclass: "file".into(),
            perms: vec!["read".into()],
            rationale: "r1".into(),
        },
        AllowRule {
            source_type: "httpd_t".into(),
            target_type: "var_log_t".into(),
            tclass: "file".into(),
            perms: vec!["append".into()],
            rationale: "r2".into(),
        },
    ];
    let cil = PolicyLoader::to_cil(&rules);
    assert_eq!(cil.matches("(allow").count(), 1);
    assert!(cil.contains("(read)") && cil.contains("(append)"));
}

#[test]
fn a_module_has_a_statement_for_each_pair_of_types_and_class() {
    let rules = vec![
        rule("a_t", "b_t", "file", &["write", "append", "write"]),
        rule("a_t", "b_t", "dir", &["search"]),
        rule("c_t", "b_t", "file", &[]),
        rule("a_t", "b_t", "file", &["read"]),
    ];
    assert_eq!(
        PolicyLoader::to_cil(&rules),
        "(allow a_t b_t (file ((append) (read) (write))))\n(allow a_t b_t (dir ((search))))\n"
    );
    assert_eq!(PolicyLoader::to_cil(&[]), "");
}

#[test]
fn a_request_names_the_first_domain() {
    let b = batch(vec![access("a_t", "b_t", "file", "read"), access("c_t", "b_t", "file", "read")], false);
    let r = build_request(&b, &vec![]).unwrap();
    assert_eq!(r.task, LlmTask::GenerateMinimalPolicy);
    assert_eq!(r.context.workload_domain, "a_t");
    assert_eq!(r.context.workload_type, None);
    assert_eq!(r.context.observed_window_s, 60);
    assert_eq!(r.normalized_events.len(), 2);
    assert!(r.drift_denials.is_empty() && r.current_rules.is_empty());
    assert!(build_request(&batch(vec![], true), &vec![]).is_none());
}

#[test]
fn a_batch_with_denials_asks_for_a_refinement() {
    let b = batch(vec![access("a_t", "b_t", "file", "read")], true);
    assert_eq!(build_request(&b, &vec![]).unwrap().task, LlmTask::RefinePolicy);
}

#[test]
fn the_simple_generator_allows_what_was_observed() {
    let b = batch(
        vec![
            access("a_t", "b_t", "file", "write"),
            access("c_t", "b_t", "file", "open"),
            access("a_t", "b_t", "file", "append"),
            access("a_t", "b_t", "file", "write"),
            access("unknown_t", "b_t", "file", "read"),
            access("a_t", "unknown_t", "file", "read"),
            access("a_t", "generic_t", "file", "read"),
            access("a_t", "unresolved_t", "file", "read"),
        ],
        false,
    );
    let req = build_request(&b, &vec![]).unwrap();
    let answer = SimplePolicyGenerator.generate(&req).unwrap();
    assert_eq!(answer.allow_rules.len(), 2);
    let r = &answer.allow_rules[0];
    assert_eq!((r.source_type.as_str(), r.target_type.as_str(), r.tclass.as_str()), ("a_t", "b_t", "file"));
    assert_eq!(r.perms, vec!["append", "write"]);
    assert_eq!(r.rationale, "observed from a_t");
    assert_eq!(answer.allow_rules[1].perms, vec!["open"]);
    assert!(answer.alerts.is_empty());
    assert_eq!(f64::from_bits(answer.confidence_bits), 1.0);
    assert_eq!(
        answer.summary.as_deref(),
        Some("SimplePolicyGenerator: 2 rules from 8 events (no LLM)")
    );
    // The rules become one statement each.
    assert_eq!(
        PolicyLoader::to_cil(&answer.allow_rules),
        "(allow a_t b_t (file ((append) (write))))\n(allow c_t b_t (file ((open))))\n"
    );
    assert!(matches!(review(&answer, &b.events), Review::Install));
    let again = SimplePolicyGenerator.refine(&req).unwrap();
    assert_eq!(again.allow_rules.len(), 2);
}

#[test]
fn the_idle_generator_makes_no_rules() {
    let b = batch(vec![access("a_t", "b_t", "file", "read")], false);
    let req = build_request(&b, &vec![]).unwrap();
    let answer = NoOpGenerator.generate(&req).unwrap();
    assert!(answer.allow_rules.is_empty() && answer.alerts.is_empty());
    assert_eq!(answer.confidence_bits, 1.0f64.to_bits());
    assert_eq!(answer.summary.as_deref(), Some("no-op generator — no LLM backend configured"));
    assert!(matches!(review(&answer, &b.events), Review::NothingToInstall));
    assert!(NoOpGenerator.refine(&req).unwrap().allow_rules.is_empty());
}

fn answer(confidence: f64, rules: Vec<AllowRule>) -> LlmResponse {
    LlmResponse { allow_rules: rules, alerts: vec![], confidence_bits: confidence.to_bits(), summary: None }
}

#[test]
fn confidence_is_compared_as_a_number() {
    assert_eq!(CONFIDENCE_THRESHOLD, 0.7f64.to_bits());
    assert_eq!(FULL_CONFIDENCE, 1.0f64.to_bits());
    let events = vec![access("a_t", "b_t", "file", "read")];
    let low = |c: f64| {
        matches!(review(&answer(c, vec![rule("a_t", "b_t", "file", &["read"])]), &events), Review::LowConfidence)
    };
    let samples = [
        0.0, -0.0, 0.5, 0.69, 0.7, 0.8, 1.0, 2.0, -1.0, f64::MAX, f64::MIN, f64::MIN_POSITIVE,
        f64::INFINITY, f64::NEG_INFINITY, f64::NAN, -f64::NAN, 5e-324, 0.699_999_999_999_999_9,
    ];
    for c in samples {
        assert_eq!(low(c), c < 0.7);
    }
}

#[test]
fn numbers_compare_by_their_bits() {
    let samples = [
        0.0, -0.0, 1.0, -1.0, 1.5, 0.7, 1e300, -1e300, 5e-324, -5e-324, f64::INFINITY,
        f64::NEG_INFINITY, f64::NAN, f64::MAX, f64::MIN_POSITIVE,
    ];
    for a in samples {
        for b in samples {
            assert_eq!(autolsm::double::is_less(a.to_bits(), b.to_bits()), a < b);
        }
    }
}

#[test]
fn only_approved_rules_are_installed() {
    let events = vec![access("a_t", "b_t", "file", "read"), access("a_t", "kernel_t", "file", "read")];
    let of = |rules| review(&answer(0.9, rules), &events);
    assert!(matches!(of(vec![rule("a_t", "b_t", "file", &["read", "write"])]), Review::Install));
    assert!(matches!(of(vec![]), Review::NothingToInstall));
    assert!(matches!(
        of(vec![rule("a_t", "invented_t", "file", &["read"])]),
        Review::Refused(ValidationError::UnknownType(t)) if t == "invented_t"
    ));
    assert!(matches!(
        of(vec![rule("a_t", "kernel_t", "file", &["read"])]),
        Review::Refused(ValidationError::DeniedTarget(_))
    ));
    assert!(matches!(
        of(vec![rule("a_t", "b_t", "file", &["read"]), rule("a_t", "b_t", "file", &["*"])]),
        Review::Refused(ValidationError::WildcardPerm(_))
    ));
    let known = known_types(&events);
    assert!(known.contains("a_t") && known.contains("b_t") && known.contains("kernel_t"));
    assert!(!known.contains("c_t"));
}

#[test]
fn a_backend_is_addressed() {
    let g = OpenAiPolicyGenerator::new("http://localhost:11434/v1//", "gpt-4o", "k");
    assert_eq!(g.chat_url(), "http://localhost:11434/v1/chat/completions");
    assert_eq!(g.authorization(), "Bearer k");
    assert_eq!(g.model(), "gpt-4o");
    let prompt = OpenAiPolicyGenerator::system_prompt();
    assert!(prompt.starts_with("You are a SELinux policy generator."));
    assert!(prompt.contains("\"severity\": \"<low|medium|high|critical>\""));
    assert!(prompt.ends_with("}\n"));
}

#[test]
fn a_reply_holds_what_the_model_said() {
    let ok = |text: &str| content_of_reply(200, text);
    assert_eq!(
        ok(r#"{"choices":[{"message":{"content":"{\"a\":1}"}},{"message":{"content":"b"}}]}"#).unwrap(),
        "{\"a\":1}"
    );
    for text in [
        "{}", "[]", "null", r#"{"choices":[]}"#, r#"{"choices":{"0":1}}"#,
        r#"{"choices":[{"message":{"content":7}}]}"#, r#"{"choices":[{"message":"x"}]}"#,
    ] {
        match ok(text) {
            Err(LlmError::Serialization(m)) => assert_eq!(m, "missing choices[0].message.content"),
            _ => panic!("expected Serialization"),
        }
    }
    assert!(matches!(ok("no json"), Err(LlmError::Serialization(m)) if m.contains("line 1 column")));
}

#[test]
fn a_status_without_success_is_an_error_of_the_service() {
    for status in [100, 199, 300, 404, 500, 65535] {
        match content_of_reply(status, r#"{"choices":[{"message":{"content":"x"}}]}"#) {
            Err(LlmError::Api(m)) => assert!(m.starts_with(&format!("HTTP {}: {{", status))),
            _ => panic!("expected Api"),
        }
    }
    assert_eq!(content_from_parts(299, "", Ok(Some("x".into()))).unwrap(), "x");
    assert_eq!(
        content_from_parts(503, "busy", Err("e".into())).unwrap_err().message(),
        "API error: HTTP 503: busy"
    );
    assert_eq!(
        content_from_parts(200, "", Err("e".into())).unwrap_err().message(),
        "serialization error: e"
    );
}

#[test]
fn failures_have_their_words() {
    assert_eq!(LlmError::Http("h".into()).message(), "HTTP error: h");
    assert_eq!(
        LlmError::Validation(ValidationError::EmptyPerms).message(),
        "validation error: perms list is empty"
    );
    assert_eq!(
        unreadable_output("why").message(),
        "serialization error: failed to parse LLM output: why"
    );
    assert_eq!(PolicyError::EmptyRules.message(), "empty rule set");
    assert_eq!(PolicyError::Io("x".into()).message(), "I/O error: x");
    assert_eq!(PolicyError::InstallFailed("x".into()).message(), "semodule install failed: x");
    assert_eq!(PolicyError::Timeout.message(), "semodule timed out");
    assert_eq!(
        PolicyError::from(StoreError::InsufficientHistory).message(),
        "store error: insufficient history for rollback"
    );
}

fn exited(success: bool, stderr: &[u8]) -> CommandResult {
    CommandResult::Exited { success, stderr: stderr.to_vec() }
}

#[test]
fn an_installation_that_succeeds_is_recorded() {
    let mut l = PolicyLoader::new("/tmp/autolsm", PolicyStore::new(10));
    let rules = vec![rule("a_t", "b_t", "file", &["read"])];
    assert!(matches!(l.prepare_install(&[]), Err(PolicyError::EmptyRules)));
    let job = l.prepare_install(&rules).unwrap();
    assert!(job.module_name.starts_with("autolsm_"));
    assert_eq!(job.cil_path, format!("/tmp/autolsm/{}.cil", job.module_name));
    assert_eq!(job.cil, "(allow a_t b_t (file ((read))))\n");
    let job = l.prepare_as(&rules, "autolsm_7").unwrap();
    assert_eq!(job.cil_path, "/tmp/autolsm/autolsm_7.cil");
    let r = l.install(job, Some(exited(true, b"warning")));
    assert_eq!(r.as_ref().unwrap(), "autolsm_7");
    assert_eq!(l.store().current_version(), Some("autolsm_7"));
}

#[test]
fn an_installation_that_fails_leaves_the_history() {
    let mut l = PolicyLoader::new("/tmp/autolsm", PolicyStore::new(10));
    let rules = vec![rule("a_t", "b_t", "file", &["read"])];
    let outcomes = [
        (Some(exited(false, b"bad \xff policy")), "semodule install failed: bad \u{fffd} policy"),
        (Some(CommandResult::Failed("no such file".into())), "I/O error: no such file"),
        (None, "semodule timed out"),
    ];
    for (outcome, words) in outcomes {
        let job = l.prepare_as(&rules, "autolsm_1").unwrap();
        let r = l.install(job, outcome);
        assert_eq!(r.unwrap_err().message(), words);
        assert_eq!(l.store().current_version(), None);
    }
}

#[test]
fn going_back_undoes_the_last_installation() {
    let mut l = PolicyLoader::new("/tmp/autolsm", PolicyStore::new(10));
    let rules = vec![rule("a_t", "b_t", "file", &["read"])];
    for name in ["autolsm_1", "autolsm_2"] {
        let job = l.prepare_as(&rules, name).unwrap();
        l.install(job, Some(exited(true, b""))).unwrap();
    }
    assert_eq!(l.rollback().unwrap(), "autolsm_2");
    assert_eq!(l.store().versions(), vec!["autolsm_1"]);
    assert!(matches!(l.rollback(), Err(PolicyError::Store(StoreError::InsufficientHistory))));
    assert_eq!(l.store().versions(), vec!["autolsm_1"]);
    assert!(PolicyLoader::finish_rollback(exited(true, b"")).is_ok());
    assert_eq!(
        PolicyLoader::finish_rollback(exited(false, b"e")).unwrap_err().message(),
        "semodule install failed: e"
    );
    assert!(matches!(
        PolicyLoader::finish_rollback(CommandResult::Failed("f".into())),
        Err(PolicyError::Io(f)) if f == "f"
    ));
}

#[test]
fn a_store_keeps_the_last_modules() {
    let mut s = PolicyStore::new(2);
    assert_eq!(s.current_version(), None);
    for i in 1..=3 {
        s.commit(module_name(i), "c".into());
    }
    assert_eq!(s.versions(), vec!["autolsm_2", "autolsm_3"]);
    assert_eq!(s.current_version(), Some("autolsm_3"));
    assert_eq!(s.rollback().unwrap(), "autolsm_3");
    assert_eq!(s.rollback().unwrap_err().message(), "insufficient history for rollback");
    let mut none = PolicyStore::new(0);
    none.commit("a".into(), "b".into());
    assert_eq!(none.versions().len(), 0);
}

#[test]
fn modules_are_named_by_the_second() {
    assert_eq!(module_name(0), "autolsm_0");
    assert_eq!(module_name(1784123098), "autolsm_1784123098");
    assert_eq!(module_name_at(Some(1784123098)), "autolsm_1784123098");
    // A clock before the epoch counts as the epoch.
    assert_eq!(module_name_at(None), "autolsm_0");
    let s = PolicyStore::new(1);
    let name = s.next_module_name();
    let seconds: u64 = name["autolsm_".len()..].parse().unwrap();
    assert!(seconds > 1_600_000_000);
}

#[test]
fn the_order_of_rules_does_not_matter_for_a_statement() {
    let a = vec![
        rule("a_t", "b_t", "file", &["write", "read"]),
        rule("c_t", "b_t", "file", &["open"]),
        rule("a_t", "b_t", "file", &["append"]),
    ];
    let mut b = a.clone();
    b.reverse();
    let lines = |rules: &[AllowRule]| {
        let mut lines: Vec<String> =
            PolicyLoader::to_cil(rules).lines().map(|l| l.to_string()).collect();
        lines.sort();
        lines
    };
    assert_eq!(lines(&a), lines(&b));
    assert_eq!(lines(&a)[0], "(allow a_t b_t (file ((append) (read) (write))))");
}

#[test]
fn copies_say_the_same() {
    let b = batch(vec![access("a_t", "b_t", "file", "read")], true);
    let c = b.clone();
    assert_eq!(c.events[0].perm, "read");
    assert!(c.has_denials);
    let r = build_request(&b, &vec![]).unwrap().clone();
    assert_eq!(r.task, LlmTask::RefinePolicy);
    assert_eq!(r.context.workload_domain, "a_t");
    let mut x = answer(0.5, vec![rule("a_t", "b_t", "file", &["read"])]);
    x.summary = Some("s".into());
    x.alerts.push(LlmAlert {
        severity: AlertSeverity::High,
        scontext_type: "a_t".into(),
        tcontext_type: "b_t".into(),
        tclass: "file".into(),
        perm: "read".into(),
        reason: "why".into(),
    });
    let y = x.clone();
    assert_eq!(y.confidence_bits, 0.5f64.to_bits());
    assert_eq!(y.summary.as_deref(), Some("s"));
    assert_eq!(y.alerts[0].severity, AlertSeverity::High);
    assert_eq!(y.alerts[0].reason, "why");
    assert_eq!(y.allow_rules[0].perms, vec!["read"]);
}

fn alert(reason: &str) -> LlmAlert {
    LlmAlert {
        severity: AlertSeverity::High,
        scontext_type: "a_t".into(),
        tcontext_type: "b_t".into(),
        tclass: "file".into(),
        perm: "read".into(),
        reason: reason.into(),
    }
}

fn denied(serial: u64) -> AvcDenial {
    AvcDenial {
        timestamp_sec: "1.0".into(),
        serial,
        scontext: "u:r:a_t:s0".into(),
        scontext_type: "a_t".into(),
        tcontext: "u:r:b_t:s0".into(),
        tcontext_type: "b_t".into(),
        tclass: "file".into(),
        perms: vec!["write".into()],
        pid: 1,
        comm: "c".into(),
        raw: "r".into(),
    }
}

/// Has a loop install rules, and returns what it does about the outcome.
fn install(l: &mut PolicyLoop, rules: Vec<AllowRule>, name: &str, works: bool) -> Action {
    l.on_batch(batch(vec![access("a_t", "b_t", "file", "read")], false));
    assert!(matches!(l.on_answer(&Ok(answer(1.0, rules))).1, Action::Install(_)));
    if works {
        l.on_installed(name, &Ok(name.into()))
    } else {
        l.on_installed(name, &Err(PolicyError::Timeout))
    }
}

/// The rules that a loop names when it asks for a refinement.
fn current_rules(l: &mut PolicyLoop) -> Vec<AllowRule> {
    match l.on_batch(batch(vec![access("a_t", "b_t", "file", "read")], true)) {
        Action::Refine(r) => r.current_rules,
        _ => panic!("expected Refine"),
    }
}

#[test]
fn the_loop_installs_what_is_approved() {
    let events = || vec![access("a_t", "b_t", "file", "read")];
    let mut l = PolicyLoop::new();
    assert!(matches!(l.on_batch(batch(vec![], true)), Action::Wait));

    assert!(matches!(
        l.on_batch(batch(events(), false)),
        Action::Generate(r) if r.task == LlmTask::GenerateMinimalPolicy
    ));
    let good = answer(1.0, vec![rule("a_t", "b_t", "file", &["read"])]);
    match l.on_answer(&Ok(good.clone())).1 {
        Action::Install(rules) => assert_eq!(rules[0].perms, vec!["read"]),
        _ => panic!("expected Install"),
    }
    assert!(matches!(l.on_installed("autolsm_1", &Ok("autolsm_1".into())), Action::Wait));

    // An answer that nobody asked for installs nothing.
    assert!(matches!(l.on_answer(&Ok(good)).1, Action::Wait));
    assert!(matches!(l.on_installed("autolsm_1", &Err(PolicyError::Timeout)), Action::Wait));
}

#[test]
fn the_loop_removes_only_what_failed() {
    let mut l = PolicyLoop::new();
    let rules = || vec![rule("a_t", "b_t", "file", &["read"])];
    assert!(matches!(install(&mut l, rules(), "autolsm_1", true), Action::Wait));
    match install(&mut l, rules(), "autolsm_2", false) {
        Action::Remove(module) => assert_eq!(module, "autolsm_2"),
        _ => panic!("expected Remove"),
    }
    assert!(matches!(l.on_installed("autolsm_2", &Err(PolicyError::Timeout)), Action::Wait));
    // What was approved before stays approved.
    assert_eq!(current_rules(&mut l).len(), 1);
}

#[test]
fn a_failed_installation_keeps_the_versions_before() {
    let mut l = PolicyLoader::new("/tmp/autolsm", PolicyStore::new(10));
    let rules = vec![rule("a_t", "b_t", "file", &["read"])];
    for name in ["autolsm_1", "autolsm_2"] {
        let job = l.prepare_as(&rules, name).unwrap();
        l.install(job, Some(exited(true, b""))).unwrap();
    }
    for outcome in [Some(exited(false, b"")), Some(CommandResult::Failed("f".into())), None] {
        let job = l.prepare_as(&rules, "autolsm_3").unwrap();
        assert!(l.install(job, outcome).is_err());
        assert_eq!(l.store().versions(), vec!["autolsm_1", "autolsm_2"]);
        assert_eq!(l.store().current_version(), Some("autolsm_2"));
    }
    // What is left of the failed one is removed, but nothing that is still kept.
    assert_eq!(l.left_over("autolsm_3").as_deref(), Some("autolsm_3"));
    assert_eq!(l.left_over("autolsm_1"), None);
    assert_eq!(l.left_over("autolsm_2"), None);
}

#[test]
fn the_loop_reports_what_it_does_not_install() {
    let ask = |x: Result<LlmResponse, LlmError>| {
        let mut l = PolicyLoop::new();
        l.on_batch(batch(vec![access("a_t", "b_t", "file", "read")], false));
        l.on_answer(&x).1
    };
    assert!(matches!(
        ask(Ok(answer(0.5, vec![rule("a_t", "b_t", "file", &["read"])]))),
        Action::HoldBack
    ));
    assert!(matches!(
        ask(Ok(answer(0.9, vec![rule("a_t", "x_t", "file", &["read"])]))),
        Action::Refuse(ValidationError::UnknownType(_))
    ));
    assert!(matches!(ask(Ok(answer(0.9, vec![]))), Action::Wait));
    assert!(matches!(ask(Err(LlmError::Http("down".into()))), Action::Wait));
}

#[test]
fn a_refusal_is_a_failure_of_the_generator() {
    let e = LlmError::from(ValidationError::EmptyPerms);
    assert!(matches!(&e, LlmError::Validation(ValidationError::EmptyPerms)));
    assert_eq!(e.message(), "validation error: perms list is empty");
}

#[test]
fn rules_about_labels_that_were_not_found_are_refused() {
    for t in ["unknown_t", "unresolved_t", "generic_t"] {
        let events = vec![access("a_t", t, "file", "read"), access(t, "b_t", "file", "read")];
        let x = answer(1.0, vec![rule("a_t", t, "file", &["read"])]);
        assert!(matches!(
            review(&x, &events),
            Review::Refused(ValidationError::DeniedTarget(d)) if d == t
        ));
        let x = answer(1.0, vec![rule(t, "b_t", "file", &["read"])]);
        assert!(matches!(
            review(&x, &events),
            Review::Refused(ValidationError::DeniedSource(d)) if d == t
        ));
    }
}

#[test]
fn every_alert_is_reported() {
    let rules = vec![rule("a_t", "b_t", "file", &["read"])];
    let others = vec![rule("a_t", "x_t", "file", &["read"])];
    for (confidence, rules) in [(0.1, vec![]), (1.0, vec![]), (1.0, rules), (1.0, others)] {
        let mut l = PolicyLoop::new();
        l.on_batch(batch(vec![access("a_t", "b_t", "file", "read")], false));
        let mut x = answer(confidence, rules);
        x.alerts = vec![alert("one"), alert("two")];
        let reasons: Vec<String> =
            l.on_answer(&Ok(x.clone())).0.into_iter().map(|a| a.reason).collect();
        assert_eq!(reasons, vec!["one", "two"]);
        // Those of an answer that nobody asked for are reported too.
        assert_eq!(l.on_answer(&Ok(x)).0.len(), 2);
    }
    let mut l = PolicyLoop::new();
    assert_eq!(l.on_answer(&Err(LlmError::Http("down".into()))).0.len(), 0);
}

#[test]
fn a_refinement_names_denials_and_rules() {
    let mut b = batch(vec![access("a_t", "b_t", "file", "read")], true);
    b.denials = vec![denied(7), denied(8)];
    let approved = vec![rule("a_t", "b_t", "file", &["read"])];
    let r = build_request(&b, &approved).unwrap();
    assert_eq!(r.drift_denials.len(), 2);
    assert_eq!(r.drift_denials[1].serial, 8);
    assert_eq!(r.current_rules[0].perms, vec!["read"]);
    b.has_denials = false;
    let r = build_request(&b, &approved).unwrap();
    assert_eq!((r.drift_denials.len(), r.current_rules.len()), (0, 0));
}

#[test]
fn what_was_installed_is_approved() {
    let mut l = PolicyLoop::new();
    assert_eq!(current_rules(&mut l).len(), 0);
    install(&mut l, vec![rule("a_t", "b_t", "file", &["read"])], "autolsm_1", true);
    install(&mut l, vec![rule("a_t", "b_t", "file", &["open"])], "autolsm_2", false);
    assert_eq!(current_rules(&mut l).len(), 1);
    // What grants nothing more is not named again.
    let more = vec![
        rule("a_t", "b_t", "file", &["read", "write"]),
        rule("a_t", "b_t", "file", &["write", "read"]),
    ];
    install(&mut l, more, "autolsm_3", true);
    let rules = current_rules(&mut l);
    assert_eq!(rules.len(), 2);
    assert_eq!(rules[1].perms, vec!["read", "write"]);
}

#[test]
fn added_rules_grant_the_same() {
    let mut rules = vec![rule("a_t", "b_t", "file", &["read", "open"])];
    let more = vec![
        rule("a_t", "b_t", "file", &["open"]),
        rule("a_t", "c_t", "file", &["open"]),
        rule("a_t", "b_t", "dir", &["read"]),
        rule("c_t", "b_t", "file", &["read"]),
    ];
    add_rules(&mut rules, &more);
    let left: Vec<&str> = rules.iter().map(|r| r.target_type.as_str()).collect();
    assert_eq!(left, vec!["b_t", "c_t", "b_t", "b_t"]);
    let statements = |rules: &[AllowRule]| PolicyLoader::to_cil(rules).lines().count();
    assert_eq!(statements(&rules), 4);
}
