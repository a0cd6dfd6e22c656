//! What is said of a record is what its fields hold.

use crate::audit::{decision_view, opt_denial, Decision, FilterDecision};
use crate::common::userspace::{
    access_views, alert_views, denial_views, rule_views, AllowRule, AvcDenial, LlmAlert, LlmRequest,
    LlmResponse, NormalizedAccess, NormalizedBatch,
};
use crate::grouping::{group_views, AccessGroup};
use crate::llm::{
    answer_view, opt_request, reply_view, Action, Command, Failure, LlmError, Outcome, Review,
};
use crate::normalizer::{answer_text, opt_batch, Observed};
use crate::text::{opt_text, opt_view, views};
use crate::validator::{Refusal, ValidationError};
use vstd::prelude::*;

verus! {

/// What is said of an access pattern.
pub proof fn law_access_fields(a: NormalizedAccess)
    ensures
        a@.scontext == a.scontext@,
        a@.scontext_type == a.scontext_type@,
        a@.tcontext == a.tcontext@,
        a@.tcontext_type == a.tcontext_type@,
        a@.tclass == a.tclass@,
        a@.perm == a.perm@,
        a@.hook_id == a.hook_id,
        a@.count == a.count,
        a@.first_seen_ns == a.first_seen_ns,
        a@.last_seen_ns == a.last_seen_ns,
        a@.is_new == a.is_new,
{
}

/// What is said of a denial.
pub proof fn law_denial_fields(d: AvcDenial)
    ensures
        d@.timestamp_sec == d.timestamp_sec@,
        d@.serial == d.serial,
        d@.scontext == d.scontext@,
        d@.scontext_type == d.scontext_type@,
        d@.tcontext == d.tcontext@,
        d@.tcontext_type == d.tcontext_type@,
        d@.tclass == d.tclass@,
        d@.perms == views(d.perms@),
        d@.pid == d.pid,
        d@.comm == d.comm@,
        d@.raw == d.raw@,
{
}

/// What is said of a rule, and of an alert.
pub proof fn law_rule_fields(r: AllowRule, a: LlmAlert)
    ensures
        r@.source_type == r.source_type@,
        r@.target_type == r.target_type@,
        r@.tclass == r.tclass@,
        r@.perms == views(r.perms@),
        r@.rationale == r.rationale@,
        a@.severity == a.severity,
        a@.scontext_type == a.scontext_type@,
        a@.tcontext_type == a.tcontext_type@,
        a@.tclass == a.tclass@,
        a@.perm == a.perm@,
        a@.reason == a.reason@,
{
}

/// What is said of a batch, a request and an answer.
pub proof fn law_exchange_fields(b: NormalizedBatch, q: LlmRequest, x: LlmResponse)
    ensures
        b@.events == access_views(b.events@),
        b@.has_denials == b.has_denials,
        b@.denials == denial_views(b.denials@),
        q@.task == q.task,
        q@.workload_domain == q.context.workload_domain@,
        q@.workload_type == opt_view(q.context.workload_type),
        q@.observed_window_s == q.context.observed_window_s,
        q@.normalized_events == access_views(q.normalized_events@),
        q@.drift_denials == denial_views(q.drift_denials@),
        q@.current_rules == rule_views(q.current_rules@),
        x@.allow_rules == rule_views(x.allow_rules@),
        x@.alerts == alert_views(x.alerts@),
        x@.confidence_bits == x.confidence_bits,
        x@.summary == opt_view(x.summary),
{
}

/// What is said of an observation and of a group of permissions.
pub proof fn law_working_fields(o: Observed, g: AccessGroup)
    ensures
        o@.scontext == o.scontext@,
        o@.scontext_type == o.scontext_type@,
        o@.tcontext == o.tcontext@,
        o@.tcontext_type == o.tcontext_type@,
        o@.tclass == o.tclass@,
        o@.hook_id == o.hook_id,
        o@.at == o.at,
        g@.source == g.source_type@,
        g@.target == g.target_type@,
        g@.class == g.tclass@,
        g@.perms == views(g.perms@),
{
}

/// What is said of a list is what is said of each of its items, in order.
pub proof fn law_lists(
    texts: Seq<String>,
    accesses: Seq<NormalizedAccess>,
    denials: Seq<AvcDenial>,
    rules: Seq<AllowRule>,
    alerts: Seq<LlmAlert>,
    groups: Seq<AccessGroup>,
    i: int,
)
    ensures
        views(texts).len() == texts.len(),
        access_views(accesses).len() == accesses.len(),
        denial_views(denials).len() == denials.len(),
        rule_views(rules).len() == rules.len(),
        alert_views(alerts).len() == alerts.len(),
        group_views(groups).len() == groups.len(),
        0 <= i < texts.len() ==> views(texts)[i] == texts[i]@,
        0 <= i < accesses.len() ==> access_views(accesses)[i] == accesses[i]@,
        0 <= i < denials.len() ==> denial_views(denials)[i] == denials[i]@,
        0 <= i < rules.len() ==> rule_views(rules)[i] == rules[i]@,
        0 <= i < alerts.len() ==> alert_views(alerts)[i] == alerts[i]@,
        0 <= i < groups.len() ==> group_views(groups)[i] == groups[i]@,
{
}

/// What is said of what is done with a denial, and of what a line reports.
pub proof fn law_decision_fields(d: AvcDenial, reason: String)
    ensures
        decision_view(FilterDecision::Pass(d)) == Decision::Pass(d@),
        decision_view(FilterDecision::Alert(d, reason)) == Decision::Alert(d@, reason@),
        decision_view(FilterDecision::Drop) == Decision::Drop,
        opt_denial(Some(d)) == Some(d@),
        opt_denial(None) is None,
{
}

/// What is said of what the loop is told and does.
pub proof fn law_action_fields(
    q: LlmRequest,
    x: LlmResponse,
    e: LlmError,
    why: ValidationError,
    rules: Vec<AllowRule>,
    text: String,
)
    ensures
        Action::Wait@ == Command::Wait,
        Action::Generate(q)@ == Command::Generate(q@),
        Action::Refine(q)@ == Command::Refine(q@),
        Action::HoldBack@ == Command::HoldBack,
        Action::Refuse(why)@ == Command::Refuse(why@),
        Action::Install(rules)@ == Command::Install(rule_views(rules@)),
        Action::Remove(text)@ == Command::Remove(text@),
        Review::LowConfidence@ == Outcome::LowConfidence,
        Review::Refused(why)@ == Outcome::Refused(why@),
        Review::NothingToInstall@ == Outcome::NothingToInstall,
        Review::Install@ == Outcome::Install,
        answer_view(Ok(x)) == Some(x@),
        answer_view(Err(e)) is None,
        opt_request(Some(q)) == Some(q@),
        opt_request(None) is None,
        reply_view(Ok(text)) == Ok::<Seq<char>, Failure>(text@),
        reply_view(Err(e)) == Err::<Seq<char>, Failure>(e@),
        LlmError::Http(text)@ == Failure::Http(text@),
        LlmError::Api(text)@ == Failure::Api(text@),
        LlmError::Serialization(text)@ == Failure::Serialization(text@),
        LlmError::Validation(why)@ == Failure::Validation(why@),
{
}

/// What is said of why a rule is refused.
pub proof fn law_refusal_fields(s: String, t: String)
    ensures
        ValidationError::WildcardSource(s)@ == Refusal::WildcardSource(s@),
        ValidationError::WildcardTarget(s)@ == Refusal::WildcardTarget(s@),
        ValidationError::WildcardClass@ == Refusal::WildcardClass,
        ValidationError::WildcardPerm(s)@ == Refusal::WildcardPerm(s@),
        ValidationError::UnconfinedTarget@ == Refusal::UnconfinedTarget,
        ValidationError::UnknownType(s)@ == Refusal::UnknownType(s@),
        ValidationError::DeniedSource(s)@ == Refusal::DeniedSource(s@),
        ValidationError::DeniedTarget(s)@ == Refusal::DeniedTarget(s@),
        ValidationError::EmptyPerms@ == Refusal::EmptyPerms,
        ValidationError::UnknownClass(s)@ == Refusal::UnknownClass(s@),
        (ValidationError::UnknownPerm { class: s, perm: t })@ == (Refusal::UnknownPerm {
            class: s@,
            perm: t@,
        }),
{
}

/// What is said of what may be missing.
pub proof fn law_optional(s: String, t: &str, b: NormalizedBatch, bytes: &[u8])
    ensures
        opt_view(Some(s)) == Some(s@),
        opt_view(None) is None,
        opt_text(Some(t)) == Some(t@),
        opt_text(None) is None,
        opt_batch(Some(b)) == Some(b@),
        opt_batch(None) is None,
        answer_text(Some(bytes)) == Some(crate::outside::utf8_lossy(bytes@)),
        answer_text(None) is None,
{
}

} // verus!
