//! Policy generators: what they are asked, and what is done with their answers.

use crate::approval::{add_rules, with_rules};
use crate::common::userspace::{
    access_views, alert_views, copy_accesses, copy_alerts, copy_denials, copy_rules, denial_views,
    rule_views, AccessView, AlertView, AllowRule, AvcDenial, BatchView, LlmAlert, LlmContext,
    LlmRequest, LlmResponse, LlmTask, NormalizedAccess, NormalizedBatch, RequestView, ResponseView,
    RuleView,
};
use crate::double::{is_less, less};
use crate::normalizer::is_sentinel;
use crate::number::{decimal, to_decimal};
use crate::outside::{json_text, json_text_at, json_view};
use crate::selinux::PolicyError;
use crate::text::{is_only, join, trim_end, trim_end_char};
use crate::type_set::TypeSet;
use crate::validator::{
    acceptable, default_denied, default_deny_sources, first_refusal,
    law_approved_means_all_acceptable, refusal_text, validate, Refusal, ValidationError,
};
use vstd::prelude::*;
use vstd::std_specs::convert::FromSpecImpl;

verus! {

/// What goes wrong with a policy generator.
#[derive(Debug)]
pub enum LlmError {
    Http(String),
    Api(String),
    Serialization(String),
    Validation(ValidationError),
}

impl From<ValidationError> for LlmError {
    fn from(e: ValidationError) -> (r: LlmError) {
        LlmError::Validation(e)
    }
}

impl FromSpecImpl<ValidationError> for LlmError {
    open spec fn obeys_from_spec() -> bool {
        true
    }

    open spec fn from_spec(e: ValidationError) -> LlmError {
        LlmError::Validation(e)
    }
}

/// What an `LlmError` says.
pub enum Failure {
    Http(Seq<char>),
    Api(Seq<char>),
    Serialization(Seq<char>),
    Validation(Refusal),
}

impl View for LlmError {
    type V = Failure;

    open spec fn view(&self) -> Failure {
        match self {
            LlmError::Http(s) => Failure::Http(s@),
            LlmError::Api(s) => Failure::Api(s@),
            LlmError::Serialization(s) => Failure::Serialization(s@),
            LlmError::Validation(e) => Failure::Validation(e@),
        }
    }
}

/// The text of a failure.
pub open spec fn failure_text(f: Failure) -> Seq<char> {
    match f {
        Failure::Http(s) => "HTTP error: "@ + s,
        Failure::Api(s) => "API error: "@ + s,
        Failure::Serialization(s) => "serialization error: "@ + s,
        Failure::Validation(e) => "validation error: "@ + refusal_text(e),
    }
}

impl LlmError {
    /// The error in words.
    pub fn message(&self) -> (r: String)
        ensures
            r@ == failure_text(self@),
    {
        match self {
            LlmError::Http(s) => join("HTTP error: ", s.as_str()),
            LlmError::Api(s) => join("API error: ", s.as_str()),
            LlmError::Serialization(s) => join("serialization error: ", s.as_str()),
            LlmError::Validation(e) => {
                let text = e.message();
                join("validation error: ", text.as_str())
            },
        }
    }
}

/// What makes rules out of access patterns.
pub trait PolicyGenerator {
    /// Rules that allow what was observed, and no more than is needed.
    fn generate(&self, req: &LlmRequest) -> Result<LlmResponse, LlmError>;

    /// Rules that allow what was denied although it is legitimate.
    fn refine(&self, req: &LlmRequest) -> Result<LlmResponse, LlmError>;
}

/// The bits of the number one: full confidence.
pub const FULL_CONFIDENCE: u64 = 0x3ff0_0000_0000_0000;

/// The bits of seven tenths: below it, rules are not installed.
pub const CONFIDENCE_THRESHOLD: u64 = 0x3fe6_6666_6666_6666;

/// A generator that makes no rules.
pub struct NoOpGenerator;

/// The answer of a generator that makes no rules.
pub open spec fn no_rules() -> ResponseView {
    ResponseView {
        allow_rules: Seq::empty(),
        alerts: Seq::empty(),
        confidence_bits: FULL_CONFIDENCE,
        summary: Some("no-op generator — no LLM backend configured"@),
    }
}

impl PolicyGenerator for NoOpGenerator {
    fn generate(&self, req: &LlmRequest) -> (r: Result<LlmResponse, LlmError>)
        ensures
            r matches Ok(x) && x@ == no_rules(),
    {
        let x = LlmResponse {
            allow_rules: Vec::new(),
            alerts: Vec::new(),
            confidence_bits: FULL_CONFIDENCE,
            summary: Some("no-op generator — no LLM backend configured".to_owned()),
        };
        assert(x@ =~= no_rules());
        Ok(x)
    }

    fn refine(&self, req: &LlmRequest) -> (r: Result<LlmResponse, LlmError>)
        ensures
            r matches Ok(x) && x@ == no_rules(),
    {
        self.generate(req)
    }
}

// ---- A backend with the interface of OpenAI ----

/// What a language model is told before the request.
pub const SYSTEM_PROMPT: &'static str = r#"You are a SELinux policy generator. Given observed process behaviors (from eBPF LSM hooks),
produce a minimal-privilege set of allow rules in JSON format.

Key rules:
1. Only produce standard CIL allow rules. Do NOT generate:
   - type_transition, type_change, or type_member rules
   - capability rules using wildcards
   - new type declarations (use only existing types from the input)
   - wildcards ("*") in any field

2. Each allow rule MUST include a concise "rationale" field explaining why this access is needed.

3. Flag any anomalous access patterns as "alerts":
   - Access to sensitive paths (/etc/shadow, /etc/passwd, /root)
   - Access outside the workload's expected scope
   - Suspicious socket connections

4. Provide a "confidence" score (0.0-1.0) for your response.

5. Group related permissions for the same (source_type, target_type, tclass) into one rule.

6. Alert severities: "low", "medium", "high", or "critical".

Output EXACTLY this JSON schema, no extra text outside the JSON object:
{
  "allow_rules": [
    {
      "source_type": "<string>",
      "target_type": "<string>",
      "tclass": "<string>",
      "perms": ["<string>"],
      "rationale": "<string>"
    }
  ],
  "alerts": [
    {
      "severity": "<low|medium|high|critical>",
      "scontext_type": "<string>",
      "tcontext_type": "<string>",
      "tclass": "<string>",
      "perm": "<string>",
      "reason": "<string>"
    }
  ],
  "confidence": 0.0,
  "summary": "<optional string>"
}
"#;

/// A language model behind an interface like that of OpenAI.
pub struct OpenAiPolicyGenerator {
    endpoint: String,
    model: String,
    api_key: String,
}

/// What an `OpenAiPolicyGenerator` holds.
#[verifier::ext_equal]
pub struct Backend {
    pub endpoint: Seq<char>,
    pub model: Seq<char>,
    pub api_key: Seq<char>,
}

impl View for OpenAiPolicyGenerator {
    type V = Backend;

    closed spec fn view(&self) -> Backend {
        Backend { endpoint: self.endpoint@, model: self.model@, api_key: self.api_key@ }
    }
}

impl OpenAiPolicyGenerator {
    /// The model at an endpoint; slashes at the end of the endpoint do not matter.
    pub fn new(endpoint: &str, model: &str, api_key: &str) -> (r: Self)
        ensures
            r@ == (Backend {
                endpoint: trim_end(endpoint@, is_only('/')),
                model: model@,
                api_key: api_key@,
            }),
    {
        OpenAiPolicyGenerator {
            endpoint: trim_end_char(endpoint, '/'),
            model: model.to_owned(),
            api_key: api_key.to_owned(),
        }
    }

    /// The name of the model.
    pub fn model(&self) -> (r: &str)
        ensures
            r@ == self@.model,
    {
        self.model.as_str()
    }

    /// Where requests are sent to.
    pub fn chat_url(&self) -> (r: String)
        ensures
            r@ == self@.endpoint + "/chat/completions"@,
    {
        join(self.endpoint.as_str(), "/chat/completions")
    }

    /// The header that authorizes a request.
    pub fn authorization(&self) -> (r: String)
        ensures
            r@ == "Bearer "@ + self@.api_key,
    {
        join("Bearer ", self.api_key.as_str())
    }

    /// What the model is told before the request.
    pub fn system_prompt() -> (r: &'static str)
        ensures
            r@ == SYSTEM_PROMPT@,
    {
        SYSTEM_PROMPT
    }
}

/// Whether a status means success.
pub open spec fn is_success(status: u16) -> bool {
    200 <= status < 300
}

/// What the model said, given what was found in the reply of the service.
pub open spec fn said(
    status: u16,
    text: Seq<char>,
    found: Result<Option<Seq<char>>, Seq<char>>,
) -> Result<Seq<char>, Failure> {
    if !is_success(status) {
        Err(Failure::Api("HTTP "@ + decimal(status as nat) + ": "@ + text))
    } else {
        match found {
            Ok(Some(content)) => Ok(content),
            Ok(None) => Err(Failure::Serialization("missing choices[0].message.content"@)),
            Err(e) => Err(Failure::Serialization(e)),
        }
    }
}

/// What a text, or a failure, says.
pub open spec fn reply_view(r: Result<String, LlmError>) -> Result<Seq<char>, Failure> {
    match r {
        Ok(s) => Ok(s@),
        Err(e) => Err(e@),
    }
}

/// What the model said, given what was found at the place for it in the reply of the service.
pub fn content_from_parts(
    status: u16,
    text: &str,
    found: Result<Option<String>, String>,
) -> (r: Result<String, LlmError>)
    ensures
        reply_view(r) == said(status, text@, json_view(found)),
{
    if status < 200 || status >= 300 {
        let number = to_decimal(status as u64);
        let mut message = join("HTTP ", number.as_str());
        message.append(": ");
        message.append(text);
        return Err(LlmError::Api(message));
    }
    match found {
        Ok(Some(content)) => Ok(content),
        Ok(None) => Err(LlmError::Serialization("missing choices[0].message.content".to_owned())),
        Err(e) => Err(LlmError::Serialization(e)),
    }
}

/// What the model said in a reply of the service: the content of the first choice.
pub fn content_of_reply(status: u16, text: &str) -> (r: Result<String, LlmError>)
    ensures
        reply_view(r) == said(
            status,
            text@,
            json_text(text@, "choices"@, 0, "message"@, "content"@),
        ),
{
    let found = json_text_at(text, "choices", 0, "message", "content");
    content_from_parts(status, text, found)
}

/// The failure of a model whose words are no answer, with the reason.
pub fn unreadable_output(reason: &str) -> (r: LlmError)
    ensures
        r@ == Failure::Serialization("failed to parse LLM output: "@ + reason@),
{
    LlmError::Serialization(join("failed to parse LLM output: ", reason))
}

// ---- From batch to rules ----

/// The request that a batch leads to. Where a denial was among it, it asks for a refinement, and
/// names the denials and the rules that were approved before.
pub open spec fn request_of(b: BatchView, approved: Seq<RuleView>) -> Option<RequestView> {
    if b.events.len() == 0 {
        None
    } else {
        Some(
            RequestView {
                task: if b.has_denials {
                    LlmTask::RefinePolicy
                } else {
                    LlmTask::GenerateMinimalPolicy
                },
                workload_domain: b.events[0].scontext_type,
                workload_type: None,
                observed_window_s: 60,
                normalized_events: b.events,
                drift_denials: if b.has_denials {
                    b.denials
                } else {
                    Seq::empty()
                },
                current_rules: if b.has_denials {
                    approved
                } else {
                    Seq::empty()
                },
            },
        )
    }
}

/// What an optional request says.
pub open spec fn opt_request(r: Option<LlmRequest>) -> Option<RequestView> {
    match r {
        Some(x) => Some(x@),
        None => None,
    }
}

/// The request that a batch leads to, given the rules that were approved before; an empty batch
/// leads to none.
pub fn build_request(batch: &NormalizedBatch, approved: &Vec<AllowRule>) -> (r: Option<LlmRequest>)
    ensures
        opt_request(r) == request_of(batch@, rule_views(approved@)),
{
    if batch.events.len() == 0 {
        return None;
    }
    let mut task = LlmTask::GenerateMinimalPolicy;
    let mut drift_denials: Vec<AvcDenial> = Vec::new();
    let mut current_rules: Vec<AllowRule> = Vec::new();
    assert(denial_views(drift_denials@) =~= Seq::empty());
    assert(rule_views(current_rules@) =~= Seq::empty());
    if batch.has_denials {
        task = LlmTask::RefinePolicy;
        drift_denials = copy_denials(&batch.denials);
        current_rules = copy_rules(approved);
    }
    Some(
        LlmRequest {
            task,
            context: LlmContext {
                workload_domain: batch.events[0].scontext_type.clone(),
                workload_type: None,
                observed_window_s: 60,
            },
            normalized_events: copy_accesses(&batch.events),
            drift_denials,
            current_rules,
        },
    )
}

/// Whether a type occurs in a batch, as subject or as object.
pub open spec fn occurs(events: Seq<AccessView>, t: Seq<char>) -> bool {
    exists|i: int|
        0 <= i < events.len() && ((#[trigger] events[i]).scontext_type == t
            || events[i].tcontext_type == t)
}

/// The types that occur in a batch.
pub open spec fn types_in(events: Seq<AccessView>) -> Set<Seq<char>>
    decreases events.len(),
{
    if events.len() == 0 {
        Set::empty()
    } else {
        types_in(events.drop_last()).insert(events.last().scontext_type).insert(
            events.last().tcontext_type,
        )
    }
}

/// A type is known just when it occurs in the batch.
pub proof fn law_known_types(events: Seq<AccessView>, t: Seq<char>)
    ensures
        types_in(events).contains(t) <==> occurs(events, t),
    decreases events.len(),
{
    if events.len() > 0 {
        let before = events.drop_last();
        law_known_types(before, t);
        if occurs(before, t) {
            let i = choose|i: int|
                0 <= i < before.len() && ((#[trigger] before[i]).scontext_type == t
                    || before[i].tcontext_type == t);
            assert(events[i] == before[i]);
        }
        if occurs(events, t) {
            let i = choose|i: int|
                0 <= i < events.len() && ((#[trigger] events[i]).scontext_type == t
                    || events[i].tcontext_type == t);
            if i < before.len() {
                assert(before[i] == events[i]);
            }
        }
        if events.last().scontext_type == t || events.last().tcontext_type == t {
            assert(events[events.len() - 1] == events.last());
        }
    }
}

/// The types that occur in a batch.
pub fn known_types(events: &Vec<NormalizedAccess>) -> (r: TypeSet)
    ensures
        r@ == types_in(access_views(events@)),
{
    let mut r = TypeSet::new();
    let ghost all = access_views(events@);
    let mut i: usize = 0;
    while i < events.len()
        invariant
            i <= events@.len(),
            all == access_views(events@),
            r@ == types_in(all.take(i as int)),
        decreases events@.len() - i,
    {
        proof {
            assert(all.take(i + 1).drop_last() =~= all.take(i as int));
            assert(all.take(i + 1).last() == events@[i as int]@);
        }
        r.insert(events[i].scontext_type.as_str());
        r.insert(events[i].tcontext_type.as_str());
        i = i + 1;
    }
    assert(all.take(i as int) =~= all);
    r
}

/// The types that an answer must not name: those that are denied by default, and the one that
/// stands for a label that is too general.
pub open spec fn denied_types() -> Set<Seq<char>> {
    default_denied().insert("generic_t"@)
}

/// The types that an answer must not name.
fn types_denied() -> (r: TypeSet)
    ensures
        r@ == denied_types(),
{
    let mut r = default_deny_sources();
    r.insert("generic_t");
    r
}

/// What is done with an answer.
#[derive(Debug)]
pub enum Review {
    /// Its rules are not installed, since the generator is not sure enough of them.
    LowConfidence,
    /// Its rules are not installed, for the first one that is not acceptable.
    Refused(ValidationError),
    /// There are no rules to install.
    NothingToInstall,
    /// Its rules are installed.
    Install,
}

/// What a `Review` says.
pub enum Outcome {
    LowConfidence,
    Refused(Refusal),
    NothingToInstall,
    Install,
}

impl View for Review {
    type V = Outcome;

    open spec fn view(&self) -> Outcome {
        match self {
            Review::LowConfidence => Outcome::LowConfidence,
            Review::Refused(e) => Outcome::Refused(e@),
            Review::NothingToInstall => Outcome::NothingToInstall,
            Review::Install => Outcome::Install,
        }
    }
}

/// What is done with an answer to a request about a batch.
pub open spec fn reviewed(answer: ResponseView, events: Seq<AccessView>) -> Outcome {
    if less(answer.confidence_bits, CONFIDENCE_THRESHOLD) {
        Outcome::LowConfidence
    } else {
        match first_refusal(answer.allow_rules, types_in(events), denied_types()) {
            Some(e) => Outcome::Refused(e),
            None => if answer.allow_rules.len() == 0 {
                Outcome::NothingToInstall
            } else {
                Outcome::Install
            },
        }
    }
}

/// What is done with an answer to a request about a batch.
pub fn review(answer: &LlmResponse, events: &Vec<NormalizedAccess>) -> (r: Review)
    ensures
        r@ == reviewed(answer@, access_views(events@)),
{
    if is_less(answer.confidence_bits, CONFIDENCE_THRESHOLD) {
        return Review::LowConfidence;
    }
    let known = known_types(events);
    let deny = types_denied();
    match validate(answer.allow_rules.as_slice(), &known, &deny) {
        Err(e) => Review::Refused(e),
        Ok(_) => if answer.allow_rules.len() == 0 {
            Review::NothingToInstall
        } else {
            Review::Install
        },
    }
}

/// Whatever a generator answers, rules are installed only where it was confident enough and
/// every one of them is acceptable: its types occur in the batch and are not denied, its class
/// and permissions exist, and nothing in it is a wildcard.
pub proof fn law_only_approved_rules_are_installed(answer: ResponseView, events: Seq<AccessView>)
    ensures
        reviewed(answer, events) is Install <==> {
            &&& !less(answer.confidence_bits, CONFIDENCE_THRESHOLD)
            &&& answer.allow_rules.len() > 0
            &&& forall|i: int|
                0 <= i < answer.allow_rules.len() ==> acceptable(
                    #[trigger] answer.allow_rules[i],
                    types_in(events),
                    denied_types(),
                )
        },
{
    law_approved_means_all_acceptable(answer.allow_rules, types_in(events), denied_types());
}

/// Rules that are installed name only types that occur in the batch.
pub proof fn law_no_invented_types(answer: ResponseView, events: Seq<AccessView>, i: int)
    requires
        reviewed(answer, events) is Install,
        0 <= i < answer.allow_rules.len(),
    ensures
        occurs(events, answer.allow_rules[i].source_type),
        occurs(events, answer.allow_rules[i].target_type),
{
    law_only_approved_rules_are_installed(answer, events);
    let rule = answer.allow_rules[i];
    assert(acceptable(rule, types_in(events), denied_types()));
    law_known_types(events, rule.source_type);
    law_known_types(events, rule.target_type);
}

/// Rules that are installed name no type that stands for a label that could not be found.
pub proof fn law_no_sentinels_are_installed(answer: ResponseView, events: Seq<AccessView>, i: int)
    requires
        reviewed(answer, events) is Install,
        0 <= i < answer.allow_rules.len(),
    ensures
        !is_sentinel(answer.allow_rules[i].source_type),
        !is_sentinel(answer.allow_rules[i].target_type),
{
    law_only_approved_rules_are_installed(answer, events);
    assert(acceptable(answer.allow_rules[i], types_in(events), denied_types()));
}

/// A generator that makes no rules never leads to an installation.
pub proof fn law_no_rules_install_nothing(events: Seq<AccessView>)
    ensures
        reviewed(no_rules(), events) is NothingToInstall,
{
    assert(!less(FULL_CONFIDENCE, CONFIDENCE_THRESHOLD)) by {
        crate::double::lemma_magnitude_increases(CONFIDENCE_THRESHOLD, FULL_CONFIDENCE);
    }
}

// ---- The loop ----

/// Where the loop from batch to rules stands.
pub enum Stage {
    /// A batch is waited for.
    Idle,
    /// A generator was asked about these access patterns.
    Asked(Vec<NormalizedAccess>),
    /// These rules are being installed.
    Installing(Vec<AllowRule>),
}

/// What a `Stage` says.
pub enum Standing {
    Idle,
    Asked(Seq<AccessView>),
    Installing(Seq<RuleView>),
}

impl View for Stage {
    type V = Standing;

    open spec fn view(&self) -> Standing {
        match self {
            Stage::Idle => Standing::Idle,
            Stage::Asked(events) => Standing::Asked(access_views(events@)),
            Stage::Installing(rules) => Standing::Installing(rule_views(rules@)),
        }
    }
}

/// Where the loop stands, and the rules that were approved and installed so far.
pub struct Progress {
    pub stage: Standing,
    pub approved: Seq<RuleView>,
}

/// What is to be done next.
#[derive(Debug)]
pub enum Action {
    /// Nothing, until the next batch comes.
    Wait,
    /// A generator is asked for rules.
    Generate(LlmRequest),
    /// A generator is asked to refine the rules.
    Refine(LlmRequest),
    /// The rules of an answer are held back, since the generator is not sure enough of them.
    HoldBack,
    /// The rules of an answer are refused, for the first one that is not acceptable.
    Refuse(ValidationError),
    /// Rules are installed.
    Install(Vec<AllowRule>),
    /// What is left of a module that could not be installed is removed.
    Remove(String),
}

/// What an `Action` says.
pub enum Command {
    Wait,
    Generate(RequestView),
    Refine(RequestView),
    HoldBack,
    Refuse(Refusal),
    Install(Seq<RuleView>),
    Remove(Seq<char>),
}

impl View for Action {
    type V = Command;

    open spec fn view(&self) -> Command {
        match self {
            Action::Wait => Command::Wait,
            Action::Generate(r) => Command::Generate(r@),
            Action::Refine(r) => Command::Refine(r@),
            Action::HoldBack => Command::HoldBack,
            Action::Refuse(e) => Command::Refuse(e@),
            Action::Install(rules) => Command::Install(rule_views(rules@)),
            Action::Remove(module) => Command::Remove(module@),
        }
    }
}

/// What can happen to the loop.
pub enum Occurrence {
    /// A batch comes.
    Batch(BatchView),
    /// A generator answers, or fails to.
    Answer(Option<ResponseView>),
    /// The installation of a module ends, with or without success.
    Installed(Seq<char>, bool),
}

/// What is to be done next, and where the loop stands after that.
pub open spec fn next(p: Progress, o: Occurrence) -> (Command, Progress) {
    let idle = Progress { stage: Standing::Idle, ..p };
    match o {
        Occurrence::Batch(b) => match request_of(b, p.approved) {
            None => (Command::Wait, idle),
            Some(r) => (
                if b.has_denials {
                    Command::Refine(r)
                } else {
                    Command::Generate(r)
                },
                Progress { stage: Standing::Asked(b.events), ..p },
            ),
        },
        Occurrence::Answer(Some(answer)) => match p.stage {
            Standing::Asked(events) => match reviewed(answer, events) {
                Outcome::LowConfidence => (Command::HoldBack, idle),
                Outcome::Refused(e) => (Command::Refuse(e), idle),
                Outcome::NothingToInstall => (Command::Wait, idle),
                Outcome::Install => (
                    Command::Install(answer.allow_rules),
                    Progress { stage: Standing::Installing(answer.allow_rules), ..p },
                ),
            },
            _ => (Command::Wait, idle),
        },
        Occurrence::Answer(None) => (Command::Wait, idle),
        Occurrence::Installed(module, success) => match p.stage {
            Standing::Installing(rules) => if success {
                (
                    Command::Wait,
                    Progress { stage: Standing::Idle, approved: with_rules(p.approved, rules) },
                )
            } else {
                (Command::Remove(module), idle)
            },
            _ => (Command::Wait, idle),
        },
    }
}

/// The alerts that are reported on an occurrence: all those of an answer.
pub open spec fn reported(o: Occurrence) -> Seq<AlertView> {
    match o {
        Occurrence::Answer(Some(answer)) => answer.alerts,
        _ => Seq::empty(),
    }
}

/// Wherever the loop stands and whatever happens, rules are installed only as the answer to a
/// request about a batch, where the generator was confident enough and every rule is acceptable
/// for that batch.
pub proof fn law_loop_installs_only_approved_rules(p: Progress, o: Occurrence)
    ensures
        next(p, o).0 matches Command::Install(rules) ==> {
            &&& p.stage matches Standing::Asked(events) && o matches Occurrence::Answer(
                Some(answer),
            ) && rules == answer.allow_rules && rules.len() > 0 && !less(
                answer.confidence_bits,
                CONFIDENCE_THRESHOLD,
            ) && forall|i: int|
                0 <= i < rules.len() ==> acceptable(
                    #[trigger] rules[i],
                    types_in(events),
                    denied_types(),
                )
        },
{
    if let Standing::Asked(events) = p.stage {
        if let Occurrence::Answer(Some(answer)) = o {
            law_only_approved_rules_are_installed(answer, events);
        }
    }
}

/// The only module that is ever removed is one whose installation by this loop just failed, and
/// after such a failure that module is removed. What was approved before stays approved.
pub proof fn law_loop_removes_only_what_failed(p: Progress, o: Occurrence)
    ensures
        next(p, o).0 matches Command::Remove(module) ==> p.stage is Installing && o
            == Occurrence::Installed(module, false),
        o matches Occurrence::Installed(module, success) ==> p.stage is Installing && !success
            ==> next(p, o).0 == Command::Remove(module) && next(p, o).1.approved == p.approved,
{
}

/// A batch in which denials came asks for a refinement that names these denials and the rules
/// approved so far; one without them asks for a new policy, and an empty one for nothing.
pub proof fn law_loop_asks_once_per_batch(p: Progress, b: BatchView)
    ensures
        b.events.len() == 0 <==> next(p, Occurrence::Batch(b)).0 is Wait,
        next(p, Occurrence::Batch(b)).0 matches Command::Refine(r) ==> b.has_denials
            && r.drift_denials == b.denials && r.current_rules == p.approved
            && r.normalized_events == b.events,
        next(p, Occurrence::Batch(b)).0 matches Command::Generate(r) ==> !b.has_denials
            && r.normalized_events == b.events,
        b.events.len() > 0 ==> next(p, Occurrence::Batch(b)).0 is Refine || next(
            p,
            Occurrence::Batch(b),
        ).0 is Generate,
{
}

/// Rules count as approved only after their installation succeeded, and from then on.
pub proof fn law_loop_approves_what_was_installed(p: Progress, o: Occurrence)
    ensures
        next(p, o).1.approved == (match (p.stage, o) {
            (Standing::Installing(rules), Occurrence::Installed(_, true)) => with_rules(
                p.approved,
                rules,
            ),
            _ => p.approved,
        }),
{
}

/// Every alert of every answer is reported, wherever the loop stands and however confident the
/// generator is.
pub proof fn law_every_alert_is_reported(answer: ResponseView, i: int)
    requires
        0 <= i < answer.alerts.len(),
    ensures
        reported(Occurrence::Answer(Some(answer))).contains(answer.alerts[i]),
{
}

/// What an answer, or the failure to give one, says.
pub open spec fn answer_view(r: Result<LlmResponse, LlmError>) -> Option<ResponseView> {
    match r {
        Ok(x) => Some(x@),
        Err(_) => None,
    }
}

/// The loop from batch to rules: what happened is told to it, and it says what to do next.
pub struct PolicyLoop {
    stage: Stage,
    approved: Vec<AllowRule>,
}

impl View for PolicyLoop {
    type V = Progress;

    closed spec fn view(&self) -> Progress {
        Progress { stage: self.stage@, approved: rule_views(self.approved@) }
    }
}

impl PolicyLoop {
    /// A loop that waits for a batch; nothing was installed yet.
    pub fn new() -> (r: Self)
        ensures
            r@ == (Progress { stage: Standing::Idle, approved: Seq::empty() }),
    {
        let r = PolicyLoop { stage: Stage::Idle, approved: Vec::new() };
        assert(rule_views(r.approved@) =~= Seq::empty());
        r
    }

    /// A batch comes.
    pub fn on_batch(&mut self, batch: NormalizedBatch) -> (r: Action)
        ensures
            (r@, final(self)@) == next(old(self)@, Occurrence::Batch(batch@)),
    {
        match build_request(&batch, &self.approved) {
            None => {
                self.stage = Stage::Idle;
                Action::Wait
            },
            Some(request) => {
                let refine = batch.has_denials;
                self.stage = Stage::Asked(batch.events);
                if refine {
                    Action::Refine(request)
                } else {
                    Action::Generate(request)
                }
            },
        }
    }

    /// A generator answers, or fails to. The alerts are to be reported, whatever is done with
    /// the rules.
    pub fn on_answer(&mut self, answer: &Result<LlmResponse, LlmError>) -> (r: (
        Vec<LlmAlert>,
        Action,
    ))
        ensures
            alert_views(r.0@) == reported(Occurrence::Answer(answer_view(*answer))),
            (r.1@, final(self)@) == next(old(self)@, Occurrence::Answer(answer_view(*answer))),
    {
        let mut stage = Stage::Idle;
        std::mem::swap(&mut stage, &mut self.stage);
        let alerts: Vec<LlmAlert> = match answer {
            Ok(x) => copy_alerts(&x.alerts),
            Err(_) => Vec::new(),
        };
        assert(alert_views(alerts@) =~= reported(Occurrence::Answer(answer_view(*answer))));
        let action = match (stage, answer) {
            (Stage::Asked(events), Ok(x)) => match review(x, &events) {
                Review::LowConfidence => Action::HoldBack,
                Review::Refused(e) => Action::Refuse(e),
                Review::NothingToInstall => Action::Wait,
                Review::Install => {
                    self.stage = Stage::Installing(copy_rules(&x.allow_rules));
                    Action::Install(copy_rules(&x.allow_rules))
                },
            },
            _ => Action::Wait,
        };
        (alerts, action)
    }

    /// The installation of a module ends.
    pub fn on_installed(&mut self, module: &str, result: &Result<String, PolicyError>) -> (r:
        Action)
        ensures
            (r@, final(self)@) == next(
                old(self)@,
                Occurrence::Installed(module@, result is Ok),
            ),
    {
        let mut stage = Stage::Idle;
        std::mem::swap(&mut stage, &mut self.stage);
        match (stage, result) {
            (Stage::Installing(rules), Ok(_)) => {
                add_rules(&mut self.approved, &rules);
                Action::Wait
            },
            (Stage::Installing(_), Err(_)) => Action::Remove(module.to_owned()),
            _ => Action::Wait,
        }
    }
}

} // verus!
