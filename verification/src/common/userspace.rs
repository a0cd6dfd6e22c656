//! Records that pass between the stages of the daemon.

use crate::common::event::ObservationEvent;
use crate::text::{copy_all, opt_view, views};
use vstd::prelude::*;

verus! {

/// An access pattern that was observed in a time window, with how often it was.
#[derive(Debug)]
pub struct NormalizedAccess {
    /// Security context of the subject (`system_u:system_r:httpd_t:s0`).
    pub scontext: String,
    /// Type of the subject (`httpd_t`).
    pub scontext_type: String,
    /// Security context of the object.
    pub tcontext: String,
    /// Type of the object.
    pub tcontext_type: String,
    /// Object class (`file`, `tcp_socket`, `process`).
    pub tclass: String,
    /// Permission (`open`, `read`, `write`).
    pub perm: String,
    /// The number of the hook that was passed.
    pub hook_id: u32,
    /// How often the pattern was observed in the window.
    pub count: u64,
    /// Time of the first observation in nanoseconds.
    pub first_seen_ns: u64,
    /// Time of the last observation in nanoseconds.
    pub last_seen_ns: u64,
    /// Whether the pattern had not been observed before.
    pub is_new: bool,
}

/// What a `NormalizedAccess` says.
#[verifier::ext_equal]
pub struct AccessView {
    pub scontext: Seq<char>,
    pub scontext_type: Seq<char>,
    pub tcontext: Seq<char>,
    pub tcontext_type: Seq<char>,
    pub tclass: Seq<char>,
    pub perm: Seq<char>,
    pub hook_id: u32,
    pub count: u64,
    pub first_seen_ns: u64,
    pub last_seen_ns: u64,
    pub is_new: bool,
}

impl View for NormalizedAccess {
    type V = AccessView;

    open spec fn view(&self) -> AccessView {
        AccessView {
            scontext: self.scontext@,
            scontext_type: self.scontext_type@,
            tcontext: self.tcontext@,
            tcontext_type: self.tcontext_type@,
            tclass: self.tclass@,
            perm: self.perm@,
            hook_id: self.hook_id,
            count: self.count,
            first_seen_ns: self.first_seen_ns,
            last_seen_ns: self.last_seen_ns,
            is_new: self.is_new,
        }
    }
}

impl Clone for NormalizedAccess {
    fn clone(&self) -> (r: Self)
        ensures
            r@ == self@,
    {
        NormalizedAccess {
            scontext: self.scontext.clone(),
            scontext_type: self.scontext_type.clone(),
            tcontext: self.tcontext.clone(),
            tcontext_type: self.tcontext_type.clone(),
            tclass: self.tclass.clone(),
            perm: self.perm.clone(),
            hook_id: self.hook_id,
            count: self.count,
            first_seen_ns: self.first_seen_ns,
            last_seen_ns: self.last_seen_ns,
            is_new: self.is_new,
        }
    }
}

/// What a list of access patterns says.
pub open spec fn access_views(v: Seq<NormalizedAccess>) -> Seq<AccessView> {
    Seq::new(v.len(), |i: int| v[i]@)
}

/// A copy of a list of access patterns.
pub fn copy_accesses(v: &Vec<NormalizedAccess>) -> (r: Vec<NormalizedAccess>)
    ensures
        access_views(r@) == access_views(v@),
{
    let mut r: Vec<NormalizedAccess> = Vec::new();
    let mut i: usize = 0;
    while i < v.len()
        invariant
            i <= v.len(),
            r.len() == i,
            forall|j: int| 0 <= j < i ==> (#[trigger] r@[j])@ == v@[j]@,
        decreases v.len() - i,
    {
        r.push(v[i].clone());
        i = i + 1;
    }
    assert(access_views(r@) =~= access_views(v@));
    r
}

/// The access patterns of one window.
#[derive(Debug)]
pub struct NormalizedBatch {
    pub events: Vec<NormalizedAccess>,
    /// Whether a denial came in the window.
    pub has_denials: bool,
    /// The denials of the window.
    pub denials: Vec<AvcDenial>,
}

/// What a `NormalizedBatch` says.
#[verifier::ext_equal]
pub struct BatchView {
    pub events: Seq<AccessView>,
    pub has_denials: bool,
    pub denials: Seq<DenialView>,
}

impl View for NormalizedBatch {
    type V = BatchView;

    open spec fn view(&self) -> BatchView {
        BatchView {
            events: access_views(self.events@),
            has_denials: self.has_denials,
            denials: denial_views(self.denials@),
        }
    }
}

impl Clone for NormalizedBatch {
    fn clone(&self) -> (r: Self)
        ensures
            r@ == self@,
    {
        NormalizedBatch {
            events: copy_accesses(&self.events),
            has_denials: self.has_denials,
            denials: copy_denials(&self.denials),
        }
    }
}

/// What the normalizer takes in.
#[derive(Debug)]
pub enum NormalizerInput {
    /// An observation, whose contexts are yet to be found.
    Observation(ObservationEvent),
    /// A denial, which names its contexts.
    Denial(AvcDenial),
}

impl Clone for NormalizerInput {
    fn clone(&self) -> (r: Self)
        ensures
            match *self {
                NormalizerInput::Observation(e) => r == NormalizerInput::Observation(e),
                NormalizerInput::Denial(d) => r matches NormalizerInput::Denial(c) && c@ == d@,
            },
    {
        match self {
            NormalizerInput::Observation(e) => NormalizerInput::Observation(*e),
            NormalizerInput::Denial(d) => NormalizerInput::Denial(d.clone()),
        }
    }
}

/// A denial of the access vector cache, as the audit log reports it.
#[derive(Debug)]
pub struct AvcDenial {
    /// Time of the message in seconds, as it is written there.
    pub timestamp_sec: String,
    /// Serial number of the message.
    pub serial: u64,
    /// Security context of the subject.
    pub scontext: String,
    /// Type of the subject.
    pub scontext_type: String,
    /// Security context of the object.
    pub tcontext: String,
    /// Type of the object.
    pub tcontext_type: String,
    /// Object class.
    pub tclass: String,
    /// The permissions that were denied.
    pub perms: Vec<String>,
    /// The process that was denied.
    pub pid: u32,
    /// Its command name.
    pub comm: String,
    /// The whole message.
    pub raw: String,
}

/// What an `AvcDenial` says.
#[verifier::ext_equal]
pub struct DenialView {
    pub timestamp_sec: Seq<char>,
    pub serial: u64,
    pub scontext: Seq<char>,
    pub scontext_type: Seq<char>,
    pub tcontext: Seq<char>,
    pub tcontext_type: Seq<char>,
    pub tclass: Seq<char>,
    pub perms: Seq<Seq<char>>,
    pub pid: u32,
    pub comm: Seq<char>,
    pub raw: Seq<char>,
}

impl View for AvcDenial {
    type V = DenialView;

    open spec fn view(&self) -> DenialView {
        DenialView {
            timestamp_sec: self.timestamp_sec@,
            serial: self.serial,
            scontext: self.scontext@,
            scontext_type: self.scontext_type@,
            tcontext: self.tcontext@,
            tcontext_type: self.tcontext_type@,
            tclass: self.tclass@,
            perms: views(self.perms@),
            pid: self.pid,
            comm: self.comm@,
            raw: self.raw@,
        }
    }
}

impl Clone for AvcDenial {
    fn clone(&self) -> (r: Self)
        ensures
            r@ == self@,
    {
        AvcDenial {
            timestamp_sec: self.timestamp_sec.clone(),
            serial: self.serial,
            scontext: self.scontext.clone(),
            scontext_type: self.scontext_type.clone(),
            tcontext: self.tcontext.clone(),
            tcontext_type: self.tcontext_type.clone(),
            tclass: self.tclass.clone(),
            perms: copy_all(&self.perms),
            pid: self.pid,
            comm: self.comm.clone(),
            raw: self.raw.clone(),
        }
    }
}

/// What a list of denials says.
pub open spec fn denial_views(v: Seq<AvcDenial>) -> Seq<DenialView> {
    Seq::new(v.len(), |i: int| v[i]@)
}

/// A copy of a list of denials.
pub fn copy_denials(v: &Vec<AvcDenial>) -> (r: Vec<AvcDenial>)
    ensures
        denial_views(r@) == denial_views(v@),
{
    let mut r: Vec<AvcDenial> = Vec::new();
    let mut i: usize = 0;
    while i < v.len()
        invariant
            i <= v.len(),
            r.len() == i,
            forall|j: int| 0 <= j < i ==> (#[trigger] r@[j])@ == v@[j]@,
        decreases v.len() - i,
    {
        r.push(v[i].clone());
        i = i + 1;
    }
    assert(denial_views(r@) =~= denial_views(v@));
    r
}

/// What a policy generator is asked.
#[derive(Debug)]
pub struct LlmRequest {
    pub task: LlmTask,
    pub context: LlmContext,
    /// The access patterns of the window.
    pub normalized_events: Vec<NormalizedAccess>,
    /// Denials of the window, for a refinement.
    pub drift_denials: Vec<AvcDenial>,
    /// Rules that were approved before, for a refinement.
    pub current_rules: Vec<AllowRule>,
}

/// What an `LlmRequest` says.
#[verifier::ext_equal]
pub struct RequestView {
    pub task: LlmTask,
    pub workload_domain: Seq<char>,
    pub workload_type: Option<Seq<char>>,
    pub observed_window_s: u64,
    pub normalized_events: Seq<AccessView>,
    pub drift_denials: Seq<DenialView>,
    pub current_rules: Seq<RuleView>,
}

impl View for LlmRequest {
    type V = RequestView;

    open spec fn view(&self) -> RequestView {
        RequestView {
            task: self.task,
            workload_domain: self.context.workload_domain@,
            workload_type: opt_view(self.context.workload_type),
            observed_window_s: self.context.observed_window_s,
            normalized_events: access_views(self.normalized_events@),
            drift_denials: denial_views(self.drift_denials@),
            current_rules: rule_views(self.current_rules@),
        }
    }
}

impl Clone for LlmRequest {
    fn clone(&self) -> (r: Self)
        ensures
            r@ == self@,
    {
        LlmRequest {
            task: self.task,
            context: self.context.clone(),
            normalized_events: copy_accesses(&self.normalized_events),
            drift_denials: copy_denials(&self.drift_denials),
            current_rules: copy_rules(&self.current_rules),
        }
    }
}

/// A copy of an optional text.
fn copy_opt(s: &Option<String>) -> (r: Option<String>)
    ensures
        opt_view(r) == opt_view(*s),
{
    match s {
        Some(x) => Some(x.clone()),
        None => None,
    }
}

/// The kinds of request.
#[derive(Clone, Copy, Debug, PartialEq, Eq, Structural)]
pub enum LlmTask {
    GenerateMinimalPolicy,
    RefinePolicy,
}

/// What a request is about.
#[derive(Debug)]
pub struct LlmContext {
    /// The domain under analysis (`container_t`).
    pub workload_domain: String,
    /// What the workload is, in words.
    pub workload_type: Option<String>,
    /// Length of the window in seconds.
    pub observed_window_s: u64,
}

impl Clone for LlmContext {
    fn clone(&self) -> (r: Self)
        ensures
            r.workload_domain@ == self.workload_domain@,
            opt_view(r.workload_type) == opt_view(self.workload_type),
            r.observed_window_s == self.observed_window_s,
    {
        LlmContext {
            workload_domain: self.workload_domain.clone(),
            workload_type: copy_opt(&self.workload_type),
            observed_window_s: self.observed_window_s,
        }
    }
}

/// What a policy generator answers.
#[derive(Debug)]
pub struct LlmResponse {
    /// The rules that it recommends.
    pub allow_rules: Vec<AllowRule>,
    /// The accesses that it holds to be suspicious.
    pub alerts: Vec<LlmAlert>,
    /// How sure it is, between zero and one: the bits of a double-precision number.
    pub confidence_bits: u64,
    /// An explanation.
    pub summary: Option<String>,
}

/// What an `LlmResponse` says.
#[verifier::ext_equal]
pub struct ResponseView {
    pub allow_rules: Seq<RuleView>,
    pub alerts: Seq<AlertView>,
    pub confidence_bits: u64,
    pub summary: Option<Seq<char>>,
}

impl View for LlmResponse {
    type V = ResponseView;

    open spec fn view(&self) -> ResponseView {
        ResponseView {
            allow_rules: rule_views(self.allow_rules@),
            alerts: alert_views(self.alerts@),
            confidence_bits: self.confidence_bits,
            summary: opt_view(self.summary),
        }
    }
}

impl Clone for LlmResponse {
    fn clone(&self) -> (r: Self)
        ensures
            r@ == self@,
    {
        LlmResponse {
            allow_rules: copy_rules(&self.allow_rules),
            alerts: copy_alerts(&self.alerts),
            confidence_bits: self.confidence_bits,
            summary: copy_opt(&self.summary),
        }
    }
}

/// A rule that allows accesses.
#[derive(Debug)]
pub struct AllowRule {
    /// Type of the subject (`httpd_t`).
    pub source_type: String,
    /// Type of the object (`var_log_t`).
    pub target_type: String,
    /// Object class (`file`).
    pub tclass: String,
    /// The permissions (`read`, `open`).
    pub perms: Vec<String>,
    /// Why the rule is needed.
    pub rationale: String,
}

/// What an `AllowRule` says.
#[verifier::ext_equal]
pub struct RuleView {
    pub source_type: Seq<char>,
    pub target_type: Seq<char>,
    pub tclass: Seq<char>,
    pub perms: Seq<Seq<char>>,
    pub rationale: Seq<char>,
}

impl View for AllowRule {
    type V = RuleView;

    open spec fn view(&self) -> RuleView {
        RuleView {
            source_type: self.source_type@,
            target_type: self.target_type@,
            tclass: self.tclass@,
            perms: views(self.perms@),
            rationale: self.rationale@,
        }
    }
}

impl Clone for AllowRule {
    fn clone(&self) -> (r: Self)
        ensures
            r@ == self@,
    {
        AllowRule {
            source_type: self.source_type.clone(),
            target_type: self.target_type.clone(),
            tclass: self.tclass.clone(),
            perms: copy_all(&self.perms),
            rationale: self.rationale.clone(),
        }
    }
}

/// What a list of rules says.
pub open spec fn rule_views(v: Seq<AllowRule>) -> Seq<RuleView> {
    Seq::new(v.len(), |i: int| v[i]@)
}

/// A copy of a list of rules.
pub fn copy_rules(v: &Vec<AllowRule>) -> (r: Vec<AllowRule>)
    ensures
        rule_views(r@) == rule_views(v@),
{
    let mut r: Vec<AllowRule> = Vec::new();
    let mut i: usize = 0;
    while i < v.len()
        invariant
            i <= v.len(),
            r.len() == i,
            forall|j: int| 0 <= j < i ==> (#[trigger] r@[j])@ == v@[j]@,
        decreases v.len() - i,
    {
        r.push(v[i].clone());
        i = i + 1;
    }
    assert(rule_views(r@) =~= rule_views(v@));
    r
}

/// An access that a policy generator holds to be suspicious.
#[derive(Debug)]
pub struct LlmAlert {
    pub severity: AlertSeverity,
    pub scontext_type: String,
    pub tcontext_type: String,
    pub tclass: String,
    pub perm: String,
    pub reason: String,
}

/// What an `LlmAlert` says.
#[verifier::ext_equal]
pub struct AlertView {
    pub severity: AlertSeverity,
    pub scontext_type: Seq<char>,
    pub tcontext_type: Seq<char>,
    pub tclass: Seq<char>,
    pub perm: Seq<char>,
    pub reason: Seq<char>,
}

impl View for LlmAlert {
    type V = AlertView;

    open spec fn view(&self) -> AlertView {
        AlertView {
            severity: self.severity,
            scontext_type: self.scontext_type@,
            tcontext_type: self.tcontext_type@,
            tclass: self.tclass@,
            perm: self.perm@,
            reason: self.reason@,
        }
    }
}

impl Clone for LlmAlert {
    fn clone(&self) -> (r: Self)
        ensures
            r@ == self@,
    {
        LlmAlert {
            severity: self.severity,
            scontext_type: self.scontext_type.clone(),
            tcontext_type: self.tcontext_type.clone(),
            tclass: self.tclass.clone(),
            perm: self.perm.clone(),
            reason: self.reason.clone(),
        }
    }
}

/// A copy of a list of alerts.
pub fn copy_alerts(v: &Vec<LlmAlert>) -> (r: Vec<LlmAlert>)
    ensures
        alert_views(r@) == alert_views(v@),
{
    let mut r: Vec<LlmAlert> = Vec::new();
    let mut i: usize = 0;
    while i < v.len()
        invariant
            i <= v.len(),
            r.len() == i,
            forall|j: int| 0 <= j < i ==> (#[trigger] r@[j])@ == v@[j]@,
        decreases v.len() - i,
    {
        r.push(v[i].clone());
        i = i + 1;
    }
    assert(alert_views(r@) =~= alert_views(v@));
    r
}

/// What a list of alerts says.
pub open spec fn alert_views(v: Seq<LlmAlert>) -> Seq<AlertView> {
    Seq::new(v.len(), |i: int| v[i]@)
}

/// How grave an alert is.
#[derive(Clone, Copy, Debug, PartialEq, Eq, Structural)]
pub enum AlertSeverity {
    Low,
    Medium,
    High,
    Critical,
}

} // verus!
