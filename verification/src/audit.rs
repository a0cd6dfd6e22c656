//! Denials in the audit log, and what is let through of them.

use crate::common::userspace::{denial_views, AvcDenial, DenialView};
use crate::number::{all_digits, parse_unsigned, parsed};
use crate::outside::{
    any_path, elapsed_ns, is_regex_match, regex_capture, regex_group, regex_match, the_path,
    tokio_now,
};
use crate::resolver::{extract_type, type_of};
use crate::text::{
    chars_of, code_point, contains_text, find, find_from, has_text, is_not, is_plain_path,
    is_solid, is_whitespace, join, join_all, joined, lemma_run_is, opt_text, opt_view, run, split,
    split_on, views, words, words_of,
};
use tokio::time::Instant;
use vstd::hash_map::StringHashMap;
use vstd::prelude::*;

verus! {

// ---- Fields of a message ----

/// What follows `key` in a message: the text between double quotes, or else all characters up
/// to the next white space.
pub open spec fn field(line: Seq<char>, key: Seq<char>) -> Option<Seq<char>> {
    match find_from(line, key, 0) {
        None => None,
        Some(at) => {
            let rest = line.skip(at as int + key.len());
            if rest.len() > 0 && rest[0] == '"' {
                let inner = rest.skip(1);
                if run(inner, is_not('"')) < inner.len() {
                    Some(inner.take(run(inner, is_not('"')) as int))
                } else {
                    None
                }
            } else {
                Some(rest.take(run(rest, is_solid()) as int))
            }
        },
    }
}

/// What follows `key` in a message, without quotes; `None` where the key does not occur or a
/// quote is left open.
pub fn extract_field(line: &str, key: &str) -> (r: Option<String>)
    ensures
        opt_view(r) == field(line@, key@),
{
    match find(line, key) {
        None => None,
        Some(at) => {
            let v = chars_of(line);
            let k = chars_of(key);
            let total: usize = v.len();
            assert(at + k@.len() <= total);
            let start: usize = at + k.len();
            let ghost rest = line@.skip(start as int);
            if start < v.len() && v[start] == '"' {
                let ghost inner = rest.skip(1);
                assert(rest[0] == v@[start as int]);
                let mut i: usize = start + 1;
                while i < v.len() && v[i] != '"'
                    invariant
                        start + 1 <= i <= v.len(),
                        v@ == line@,
                        inner == line@.skip(start as int).skip(1),
                        forall|j: int| 0 <= j < i - start - 1 ==> is_not('"')(#[trigger] inner[j]),
                    decreases v.len() - i,
                {
                    assert(inner[i - start - 1] == v@[i as int]);
                    i = i + 1;
                }
                proof {
                    if i < v.len() {
                        assert(inner[i - start - 1] == v@[i as int]);
                    }
                    lemma_run_is(inner, is_not('"'), i - start - 1);
                }
                if i < v.len() {
                    assert(inner.take(i - start - 1) =~= line@.subrange(start + 1, i as int));
                    Some(line.substring_char(start + 1, i).to_owned())
                } else {
                    None
                }
            } else {
                let mut i: usize = start;
                while i < v.len() && !is_whitespace(v[i])
                    invariant
                        start <= i <= v.len(),
                        v@ == line@,
                        rest == line@.skip(start as int),
                        forall|j: int| 0 <= j < i - start ==> is_solid()(#[trigger] rest[j]),
                    decreases v.len() - i,
                {
                    assert(rest[i - start] == v@[i as int]);
                    i = i + 1;
                }
                proof {
                    if i < v.len() {
                        assert(rest[i - start] == v@[i as int]);
                    }
                    lemma_run_is(rest, is_solid(), i - start);
                    assert(rest.take(i - start) =~= line@.subrange(start as int, i as int));
                    if rest.len() > 0 {
                        assert(rest[0] == v@[start as int]);
                    }
                }
                Some(line.substring_char(start, i).to_owned())
            }
        },
    }
}

/// The field of a message, or `unknown`.
pub open spec fn field_or_unknown(line: Seq<char>, key: Seq<char>) -> Seq<char> {
    match field(line, key) {
        Some(s) => s,
        None => "unknown"@,
    }
}

/// The field of a message, or `unknown`.
fn known_field(line: &str, key: &str) -> (r: String)
    ensures
        r@ == field_or_unknown(line@, key@),
{
    match extract_field(line, key) {
        Some(s) => s,
        None => "unknown".to_owned(),
    }
}

/// The process number of a message; zero where it is absent or no number of 32 bits.
pub open spec fn pid_of(line: Seq<char>) -> u32 {
    match field(line, "pid="@) {
        Some(s) => match parsed(s, u32::MAX as nat) {
            Some(n) => n as u32,
            None => 0,
        },
        None => 0,
    }
}

fn extract_pid(line: &str) -> (r: u32)
    ensures
        r == pid_of(line@),
{
    match extract_field(line, "pid=") {
        Some(s) => match parse_unsigned(s.as_str(), u32::MAX as u64) {
            Some(n) => n as u32,
            None => 0,
        },
        None => 0,
    }
}

// ---- Messages ----

/// Where a message holds its time and serial number.
pub const STAMP_PATTERN: &'static str = r"msg=audit\((\d+\.\d+):(\d+)\)";

/// Where a message holds the permissions that were denied.
pub const PERMS_PATTERN: &'static str = r"denied\s*\{([^}]+)\}";

/// Whether a text is a time: digits, a dot and digits, all of them ASCII.
pub open spec fn is_timestamp(s: Seq<char>) -> bool {
    let parts = split_on(s, '.');
    &&& parts.len() == 2
    &&& parts[0].len() > 0 && all_digits(parts[0])
    &&& parts[1].len() > 0 && all_digits(parts[1])
}

fn digits_only(s: &str) -> (r: bool)
    ensures
        r == (s@.len() > 0 && all_digits(s@)),
{
    let v = chars_of(s);
    let mut i: usize = 0;
    while i < v.len()
        invariant
            i <= v.len(),
            v@ == s@,
            forall|j: int| 0 <= j < i ==> crate::number::is_digit(#[trigger] s@[j]),
        decreases v.len() - i,
    {
        let u: u32 = code_point(v[i]);
        if u < 48 || u > 57 {
            assert(!crate::number::is_digit(s@[i as int]));
            return false;
        }
        i = i + 1;
    }
    v.len() > 0
}

fn looks_like_timestamp(s: &str) -> (r: bool)
    ensures
        r == is_timestamp(s@),
{
    let parts = split(s, '.');
    assert(views(parts@).len() == parts@.len());
    if parts.len() != 2 {
        return false;
    }
    assert(split_on(s@, '.')[0] == parts@[0]@);
    assert(split_on(s@, '.')[1] == parts@[1]@);
    digits_only(parts[0].as_str()) && digits_only(parts[1].as_str())
}

/// Whether a message reports a denial of the access vector cache.
pub open spec fn is_denial(line: Seq<char>) -> bool {
    has_text(line, "type=AVC"@) && has_text(line, "denied"@)
}

/// The denial that a message reports, given the texts of its time, its serial number and its
/// permissions, as far as they were found.
pub open spec fn denial_of(
    line: Seq<char>,
    stamp: Option<Seq<char>>,
    serial: Option<Seq<char>>,
    perms: Option<Seq<char>>,
) -> Option<DenialView> {
    match (stamp, serial, perms) {
        (Some(t), Some(n), Some(p)) => if is_denial(line) && is_timestamp(t) && parsed(
            n,
            u64::MAX as nat,
        ) is Some {
            Some(
                DenialView {
                    timestamp_sec: t,
                    serial: parsed(n, u64::MAX as nat)->0 as u64,
                    scontext: field_or_unknown(line, "scontext="@),
                    scontext_type: type_of(field_or_unknown(line, "scontext="@)),
                    tcontext: field_or_unknown(line, "tcontext="@),
                    tcontext_type: type_of(field_or_unknown(line, "tcontext="@)),
                    tclass: field_or_unknown(line, "tclass="@),
                    perms: words_of(p),
                    pid: pid_of(line),
                    comm: field_or_unknown(line, "comm="@),
                    raw: line,
                },
            )
        } else {
            None
        },
        _ => None,
    }
}

/// What an optional denial says.
pub open spec fn opt_denial(d: Option<AvcDenial>) -> Option<DenialView> {
    match d {
        Some(x) => Some(x@),
        None => None,
    }
}

/// The denial that a message reports, given the texts of its time, its serial number and its
/// permissions, as far as they were found in it.
pub fn denial_from_parts(
    line: &str,
    stamp: Option<String>,
    serial: Option<String>,
    perms: Option<String>,
) -> (r: Option<AvcDenial>)
    ensures
        opt_denial(r) == denial_of(line@, opt_view(stamp), opt_view(serial), opt_view(perms)),
{
    if !contains_text(line, "type=AVC") || !contains_text(line, "denied") {
        return None;
    }
    match (stamp, serial, perms) {
        (Some(t), Some(n), Some(p)) => {
            if !looks_like_timestamp(t.as_str()) {
                return None;
            }
            match parse_unsigned(n.as_str(), u64::MAX) {
                None => None,
                Some(number) => {
                    let scontext = known_field(line, "scontext=");
                    let tcontext = known_field(line, "tcontext=");
                    let d = AvcDenial {
                        timestamp_sec: t,
                        serial: number,
                        scontext_type: extract_type(scontext.as_str()),
                        scontext,
                        tcontext_type: extract_type(tcontext.as_str()),
                        tcontext,
                        tclass: known_field(line, "tclass="),
                        perms: words(p.as_str()),
                        pid: extract_pid(line),
                        comm: known_field(line, "comm="),
                        raw: line.to_owned(),
                    };
                    Some(d)
                },
            }
        },
        _ => None,
    }
}

/// The denial that a message reports.
pub open spec fn avc_denial(line: Seq<char>) -> Option<DenialView> {
    denial_of(
        line,
        regex_group(STAMP_PATTERN@, line, 1),
        regex_group(STAMP_PATTERN@, line, 2),
        regex_group(PERMS_PATTERN@, line, 1),
    )
}

/// The denials that a list of messages reports, in order.
pub open spec fn denials_in(lines: Seq<Seq<char>>) -> Seq<DenialView>
    decreases lines.len(),
{
    if lines.len() == 0 {
        Seq::empty()
    } else {
        let before = denials_in(lines.drop_last());
        match avc_denial(lines.last()) {
            Some(d) => before.push(d),
            None => before,
        }
    }
}

/// The denials of two parts of a log are those of the whole, so that it can be read in pieces.
pub proof fn law_denials_piecewise(a: Seq<Seq<char>>, b: Seq<Seq<char>>)
    ensures
        denials_in(a + b) == denials_in(a) + denials_in(b),
    decreases b.len(),
{
    if b.len() == 0 {
        assert(a + b =~= a);
        assert(denials_in(a) + denials_in(b) =~= denials_in(a));
    } else {
        law_denials_piecewise(a, b.drop_last());
        assert((a + b).drop_last() =~= a + b.drop_last());
        assert((a + b).last() == b.last());
        assert(denials_in(a + b) =~= denials_in(a) + denials_in(b));
    }
}

/// Only a message of the access vector cache that says `denied` counts as a denial, and the
/// denial keeps that message.
pub proof fn law_denial_keeps_its_message(
    line: Seq<char>,
    stamp: Option<Seq<char>>,
    serial: Option<Seq<char>>,
    perms: Option<Seq<char>>,
)
    ensures
        denial_of(line, stamp, serial, perms) matches Some(d) ==> is_denial(line) && d.raw == line
            && d.scontext_type == type_of(d.scontext) && d.tcontext_type == type_of(d.tcontext),
        !is_denial(line) ==> denial_of(line, stamp, serial, perms) is None,
{
}

/// A reader of an audit log that remembers how far it has read.
pub struct AuditConsumer {
    path: String,
    cursor: u64,
}

impl AuditConsumer {
    /// The log that is read.
    pub closed spec fn log(&self) -> Seq<char> {
        self.path@
    }

    /// How many bytes of it were read.
    pub closed spec fn position(&self) -> u64 {
        self.cursor
    }

    /// A reader that has read nothing.
    pub fn new(path: &str) -> (r: Self)
        ensures
            r.log() == path@,
            r.position() == 0,
    {
        AuditConsumer { path: path.to_owned(), cursor: 0 }
    }

    /// The log that is read.
    pub fn path(&self) -> (r: &str)
        ensures
            r@ == self.log(),
    {
        self.path.as_str()
    }

    /// Where to go on reading in a log of `file_len` bytes; `None` where nothing was added.
    pub fn unread_from(&self, file_len: u64) -> (r: Option<u64>)
        ensures
            r == (if file_len <= self.position() {
                None
            } else {
                Some(self.position())
            }),
    {
        if file_len <= self.cursor {
            None
        } else {
            Some(self.cursor)
        }
    }

    /// Takes in the unread lines of a log of `file_len` bytes and returns the denials in them.
    /// A log that has not grown holds nothing new.
    pub fn poll_denials(&mut self, file_len: u64, lines: &[String]) -> (r: Vec<AvcDenial>)
        ensures
            final(self).log() == old(self).log(),
            file_len <= old(self).position() ==> r@.len() == 0 && *final(self) == *old(self),
            file_len > old(self).position() ==> {
                &&& denial_views(r@) == denials_in(views(lines@))
                &&& final(self).position() == file_len
            },
    {
        let mut r: Vec<AvcDenial> = Vec::new();
        if file_len <= self.cursor {
            return r;
        }
        let ghost all = views(lines@);
        let mut i: usize = 0;
        assert(denial_views(r@) =~= denials_in(all.take(0)));
        while i < lines.len()
            invariant
                i <= lines.len(),
                all == views(lines@),
                denial_views(r@) == denials_in(all.take(i as int)),
            decreases lines.len() - i,
        {
            proof {
                assert(all.take(i + 1).drop_last() =~= all.take(i as int));
                assert(all.take(i + 1).last() == lines@[i as int]@);
            }
            let ghost before = r@;
            match AuditConsumer::parse_avc_line(lines[i].as_str()) {
                Some(d) => {
                    r.push(d);
                    assert(denial_views(r@) =~= denial_views(before).push(d@));
                },
                None => {},
            }
            i = i + 1;
        }
        assert(all.take(i as int) =~= all);
        self.cursor = file_len;
        r
    }

    /// The denial that a message reports; `None` for any other message.
    pub fn parse_avc_line(line: &str) -> (r: Option<AvcDenial>)
        ensures
            opt_denial(r) == avc_denial(line@),
    {
        if !contains_text(line, "type=AVC") || !contains_text(line, "denied") {
            return None;
        }
        let stamp = regex_capture(STAMP_PATTERN, line, 1);
        let serial = regex_capture(STAMP_PATTERN, line, 2);
        let perms = regex_capture(PERMS_PATTERN, line, 1);
        denial_from_parts(line, stamp, serial, perms)
    }
}

// ---- Filtering ----

/// Messages that name files with credentials.
pub const CREDENTIAL_PATTERN: &'static str = r"(?i)(/etc/shadow|/etc/passwd|/etc/sudoers)";

/// Messages that name files with keys of the secure shell.
pub const SSH_KEY_PATTERN: &'static str = r"(?i)(/root/\.ssh|/home/\w+/\.ssh/authorized_keys)";

/// Messages that name private keys for transport security.
pub const TLS_KEY_PATTERN: &'static str = r"(?i)/etc/ssl/private";

/// Messages that name cached files of a user.
pub const CACHE_PATTERN: &'static str = r"(?i)/home/\w+/\.cache/";

/// Messages that name temporary files.
pub const TMP_PATTERN: &'static str = r"(?i)/tmp/";

/// How many like denials pass in a window.
pub const RATE_LIMIT: usize = 10;

/// The length of a window in nanoseconds: one minute.
pub const WINDOW_NS: u64 = 60_000_000_000;

/// Whether a pattern occurs in a message.
pub open spec fn matched(pattern: Seq<char>, raw: Seq<char>) -> bool {
    regex_match(pattern, raw) == Some(true)
}

fn is_matched(pattern: &str, raw: &str) -> (r: bool)
    ensures
        r == matched(pattern@, raw@),
        forall|path: Seq<char>|
            pattern@ == #[trigger] the_path(path) && pattern@.len() <= 1000 && is_plain_path(path)
                && has_text(raw@, path) ==> r,
        forall|paths: Seq<Seq<char>>, i: int|
            pattern@ == #[trigger] any_path(paths) && pattern@.len() <= 1000 && (forall|j: int|
                0 <= j < paths.len() ==> is_plain_path(#[trigger] paths[j])) && 0 <= i
                < paths.len() && has_text(raw@, #[trigger] paths[i]) ==> r,
{
    match is_regex_match(pattern, raw) {
        Some(b) => b,
        None => false,
    }
}

/// The threat that a message is a sign of.
pub open spec fn threat_in(raw: Seq<char>) -> Option<Seq<char>> {
    if matched(CREDENTIAL_PATTERN@, raw) {
        Some("credential_access"@)
    } else if matched(SSH_KEY_PATTERN@, raw) {
        Some("ssh_key_access"@)
    } else if matched(TLS_KEY_PATTERN@, raw) {
        Some("tls_key_access"@)
    } else {
        None
    }
}

/// The files with credentials.
pub open spec fn credential_files() -> Seq<Seq<char>> {
    seq!["/etc/shadow"@, "/etc/passwd"@, "/etc/sudoers"@]
}

/// Whether a message names a file with credentials.
pub open spec fn names_credentials(raw: Seq<char>) -> bool {
    has_text(raw, "/etc/shadow"@) || has_text(raw, "/etc/passwd"@) || has_text(raw, "/etc/sudoers"@)
}

/// The pattern for credentials is the one for the files with credentials.
proof fn lemma_credential_pattern()
    ensures
        CREDENTIAL_PATTERN@ == any_path(credential_files()),
        CREDENTIAL_PATTERN@.len() <= 1000,
        forall|j: int|
            0 <= j < credential_files().len() ==> is_plain_path(#[trigger] credential_files()[j]),
{
    reveal_strlit("(?i)(/etc/shadow|/etc/passwd|/etc/sudoers)");
    reveal_strlit("/etc/shadow");
    reveal_strlit("/etc/passwd");
    reveal_strlit("/etc/sudoers");
    reveal_strlit("(?i)(");
    reveal_strlit("|");
    reveal_strlit(")");
    let files = credential_files();
    let two = files.drop_last();
    let one = two.drop_last();
    assert(joined(one, "|"@) == "/etc/shadow"@);
    assert(joined(two, "|"@) == "/etc/shadow"@ + "|"@ + "/etc/passwd"@);
    assert(joined(files, "|"@) == joined(two, "|"@) + "|"@ + "/etc/sudoers"@);
    assert(CREDENTIAL_PATTERN@ =~= any_path(files));
}

/// The patterns for private keys and temporary files are those for their directories.
proof fn lemma_directory_patterns()
    ensures
        TLS_KEY_PATTERN@ == the_path("/etc/ssl/private"@),
        TLS_KEY_PATTERN@.len() <= 1000,
        is_plain_path("/etc/ssl/private"@),
        TMP_PATTERN@ == the_path("/tmp/"@),
        TMP_PATTERN@.len() <= 1000,
        is_plain_path("/tmp/"@),
{
    reveal_strlit("(?i)/etc/ssl/private");
    reveal_strlit("/etc/ssl/private");
    reveal_strlit("(?i)/tmp/");
    reveal_strlit("/tmp/");
    reveal_strlit("(?i)");
    assert(TLS_KEY_PATTERN@ =~= the_path("/etc/ssl/private"@));
    assert(TMP_PATTERN@ =~= the_path("/tmp/"@));
}

/// Whether a message is known to be harmless.
pub open spec fn noise_in(raw: Seq<char>) -> bool {
    matched(CACHE_PATTERN@, raw) || matched(TMP_PATTERN@, raw)
}

/// The threat that a message is a sign of, by the first pattern that occurs in it. One that
/// names a file with credentials, or the directory of private keys, is always such a sign.
pub fn find_threat(raw: &str) -> (r: Option<&'static str>)
    ensures
        opt_text(r) == threat_in(raw@),
        names_credentials(raw@) ==> opt_text(r) == Some("credential_access"@),
        has_text(raw@, "/etc/ssl/private"@) ==> r is Some,
{
    proof {
        lemma_credential_pattern();
        lemma_directory_patterns();
        assert(credential_files()[0] == "/etc/shadow"@);
        assert(credential_files()[1] == "/etc/passwd"@);
        assert(credential_files()[2] == "/etc/sudoers"@);
    }
    if is_matched(CREDENTIAL_PATTERN, raw) {
        Some("credential_access")
    } else if is_matched(SSH_KEY_PATTERN, raw) {
        Some("ssh_key_access")
    } else if is_matched(TLS_KEY_PATTERN, raw) {
        Some("tls_key_access")
    } else {
        None
    }
}

/// Whether a message is known to be harmless, as one is that names the directory of temporary
/// files.
pub fn is_noise(raw: &str) -> (r: bool)
    ensures
        r == noise_in(raw@),
        has_text(raw@, "/tmp/"@) ==> r,
{
    proof {
        lemma_directory_patterns();
    }
    is_matched(CACHE_PATTERN, raw) || is_matched(TMP_PATTERN, raw)
}

/// What like denials have in common: the two types, the class and the permissions.
pub open spec fn rate_key(d: DenialView) -> Seq<char> {
    d.scontext_type + ":"@ + d.tcontext_type + ":"@ + d.tclass + ":"@ + joined(d.perms, ","@)
}

fn rate_key_of(d: &AvcDenial) -> (r: String)
    ensures
        r@ == rate_key(d@),
{
    let mut r = join(d.scontext_type.as_str(), ":");
    r.append(d.tcontext_type.as_str());
    r.append(":");
    r.append(d.tclass.as_str());
    r.append(":");
    let perms = join_all(&d.perms, ",");
    r.append(perms.as_str());
    r
}

/// What is done with a denial.
#[derive(Debug)]
pub enum FilterDecision {
    /// It goes on to the normalizer.
    Pass(AvcDenial),
    /// It is a threat, which is reported with the reason.
    Alert(AvcDenial, String),
    /// It is ignored.
    Drop,
}

/// What a `FilterDecision` says.
pub enum Decision {
    Pass(DenialView),
    Alert(DenialView, Seq<char>),
    Drop,
}

/// What a decision says.
pub open spec fn decision_view(d: FilterDecision) -> Decision {
    match d {
        FilterDecision::Pass(x) => Decision::Pass(x@),
        FilterDecision::Alert(x, reason) => Decision::Alert(x@, reason@),
        FilterDecision::Drop => Decision::Drop,
    }
}

/// A denial that comes in at some time, with the threat that its message is a sign of and
/// whether its message is known to be harmless.
pub struct Incident {
    pub denial: DenialView,
    pub threat: Option<Seq<char>>,
    pub noise: bool,
    pub now: u64,
}

/// A denial that comes in at some time.
pub open spec fn incident(d: DenialView, now: u64) -> Incident {
    Incident { denial: d, threat: threat_in(d.raw), noise: noise_in(d.raw), now }
}

/// How many like denials came in a window, this one among them, and when the window began.
pub open spec fn tally(entry: Option<(usize, u64)>, now: u64) -> (usize, u64) {
    match entry {
        None => (1, now),
        Some((n, since)) => if now - since > WINDOW_NS {
            (1, now)
        } else if n < usize::MAX {
            ((n + 1) as usize, since)
        } else {
            (n, since)
        },
    }
}

/// What is done with an incident, and the counts of like denials after it. Only a denial that
/// is neither a threat nor noise is counted, and it passes while there are not too many.
pub open spec fn judge(
    counts: Map<Seq<char>, (usize, u64)>,
    i: Incident,
) -> (Decision, Map<Seq<char>, (usize, u64)>) {
    if i.threat is Some {
        (Decision::Alert(i.denial, "matched deny-pattern: "@ + i.threat->0), counts)
    } else if i.noise {
        (Decision::Drop, counts)
    } else {
        let k = rate_key(i.denial);
        let entry = if counts.contains_key(k) {
            Some(counts[k])
        } else {
            None
        };
        let next = tally(entry, i.now);
        let decision = if next.0 > RATE_LIMIT {
            Decision::Drop
        } else {
            Decision::Pass(i.denial)
        };
        (decision, counts.insert(k, next))
    }
}

/// How many denials with the key `k` pass out of a sequence of incidents.
pub open spec fn passes(
    counts: Map<Seq<char>, (usize, u64)>,
    incidents: Seq<Incident>,
    k: Seq<char>,
) -> nat
    decreases incidents.len(),
{
    if incidents.len() == 0 {
        0
    } else {
        let (decision, after) = judge(counts, incidents[0]);
        let this: nat = if decision is Pass && rate_key(incidents[0].denial) == k {
            1
        } else {
            0
        };
        this + passes(after, incidents.skip(1), k)
    }
}

/// Whether no two incidents are further apart than a window.
pub open spec fn within_a_window(incidents: Seq<Incident>) -> bool {
    forall|i: int, j: int|
        0 <= i < incidents.len() && 0 <= j < incidents.len() ==> #[trigger] incidents[i].now
            - #[trigger] incidents[j].now <= WINDOW_NS
}

/// In a window that has begun, no more denials pass than are left of its limit.
pub proof fn law_rest_of_window(
    counts: Map<Seq<char>, (usize, u64)>,
    incidents: Seq<Incident>,
    k: Seq<char>,
)
    requires
        counts.contains_key(k),
        forall|i: int|
            0 <= i < incidents.len() ==> (#[trigger] incidents[i]).now - counts[k].1 <= WINDOW_NS,
    ensures
        counts[k].0 <= RATE_LIMIT ==> passes(counts, incidents, k) <= RATE_LIMIT - counts[k].0,
        counts[k].0 > RATE_LIMIT ==> passes(counts, incidents, k) == 0,
    decreases incidents.len(),
{
    if incidents.len() > 0 {
        let after = judge(counts, incidents[0]).1;
        let rest = incidents.skip(1);
        assert forall|i: int| 0 <= i < rest.len() implies (#[trigger] rest[i]).now - after[k].1
            <= WINDOW_NS by {
            assert(rest[i] == incidents[i + 1]);
        }
        law_rest_of_window(after, rest, k);
    }
}

/// Of like denials that come in within one minute, and of which none came before, no more than
/// the limit pass.
pub proof fn law_rate_limit(
    counts: Map<Seq<char>, (usize, u64)>,
    incidents: Seq<Incident>,
    k: Seq<char>,
)
    requires
        !counts.contains_key(k),
        within_a_window(incidents),
    ensures
        passes(counts, incidents, k) <= RATE_LIMIT,
    decreases incidents.len(),
{
    if incidents.len() > 0 {
        let after = judge(counts, incidents[0]).1;
        let rest = incidents.skip(1);
        assert forall|i: int| 0 <= i < rest.len() implies #[trigger] rest[i] == incidents[i
            + 1] by {}
        if after.contains_key(k) {
            law_rest_of_window(after, rest, k);
        } else {
            law_rate_limit(after, rest, k);
        }
    }
}

/// Whatever came before, of like denials that come in within one minute no more than twice the
/// limit pass: one window may end and another one begin in that time.
pub proof fn law_rate_limit_in_any_minute(
    counts: Map<Seq<char>, (usize, u64)>,
    incidents: Seq<Incident>,
    k: Seq<char>,
)
    requires
        within_a_window(incidents),
    ensures
        passes(counts, incidents, k) <= 2 * RATE_LIMIT,
        counts.contains_key(k) && counts[k].0 <= RATE_LIMIT ==> passes(counts, incidents, k) <= 2
            * RATE_LIMIT - counts[k].0,
        counts.contains_key(k) && counts[k].0 > RATE_LIMIT ==> passes(counts, incidents, k)
            <= RATE_LIMIT,
    decreases incidents.len(),
{
    if incidents.len() > 0 {
        let after = judge(counts, incidents[0]).1;
        let rest = incidents.skip(1);
        assert forall|i: int| 0 <= i < rest.len() implies #[trigger] rest[i] == incidents[i
            + 1] by {}
        law_rate_limit_in_any_minute(after, rest, k);
        if after.contains_key(k) && after[k].1 == incidents[0].now {
            law_rest_of_window(after, rest, k);
        }
    }
}

/// A threat is always reported, however many denials came before, and uses up nothing of what
/// may pass: what is done with the next denial is what would have been done without it.
pub proof fn law_threat_is_reported(
    counts: Map<Seq<char>, (usize, u64)>,
    d: DenialView,
    now: u64,
    next: Incident,
)
    requires
        threat_in(d.raw) is Some,
    ensures
        judge(counts, incident(d, now)).0 is Alert,
        judge(counts, incident(d, now)).1 == counts,
        judge(judge(counts, incident(d, now)).1, next) == judge(counts, next),
{
}

/// A denial that passes is neither a sign of a threat nor known to be harmless, and it passes
/// unchanged.
pub proof fn law_only_unclear_denials_pass(
    counts: Map<Seq<char>, (usize, u64)>,
    d: DenialView,
    now: u64,
)
    ensures
        judge(counts, incident(d, now)).0 matches Decision::Pass(p) ==> p == d && threat_in(d.raw)
            is None && !noise_in(d.raw),
{
}

/// What is promised of the decision on a denial, and of the counts before and after it, by what
/// its message names. Files with credentials are always reported, and so is the directory of
/// private keys. The directory of temporary files never lets a denial pass. None of these uses
/// up anything of what may pass.
pub open spec fn is_kept_apart(
    d: DenialView,
    decision: Decision,
    before: Map<Seq<char>, (usize, u64)>,
    after: Map<Seq<char>, (usize, u64)>,
) -> bool {
    &&& names_credentials(d.raw) ==> decision == Decision::Alert(
        d,
        "matched deny-pattern: "@ + "credential_access"@,
    )
    &&& has_text(d.raw, "/etc/ssl/private"@) ==> decision is Alert
    &&& has_text(d.raw, "/tmp/"@) ==> !(decision is Pass)
    &&& names_credentials(d.raw) || has_text(d.raw, "/etc/ssl/private"@) || has_text(
        d.raw,
        "/tmp/"@,
    ) ==> after == before
}

/// What stands between the audit log and the normalizer: it reports threats, ignores noise and
/// limits how many like denials pass.
pub struct DenialPreFilter {
    counts: StringHashMap<(usize, u64)>,
    origin: Instant,
}

impl View for DenialPreFilter {
    type V = Map<Seq<char>, (usize, u64)>;

    /// For each kind of denial, how many came in its window and when that began.
    closed spec fn view(&self) -> Map<Seq<char>, (usize, u64)> {
        self.counts@
    }
}

impl DenialPreFilter {
    /// When the filter was made; times are counted from then on.
    pub closed spec fn clock(&self) -> Instant {
        self.origin
    }

    /// A filter that has counted nothing.
    pub fn new() -> (r: Self)
        ensures
            r@ == Map::<Seq<char>, (usize, u64)>::empty(),
    {
        DenialPreFilter { counts: StringHashMap::new(), origin: tokio_now() }
    }

    /// What is done with a denial that comes in now.
    pub fn filter(&mut self, denial: &AvcDenial) -> (r: FilterDecision)
        ensures
            exists|now: u64|
                (decision_view(r), final(self)@) == #[trigger] judge(
                    old(self)@,
                    incident(denial@, now),
                ),
            is_kept_apart(denial@, decision_view(r), old(self)@, final(self)@),
            final(self).clock() == old(self).clock(),
    {
        let now: u64 = elapsed_ns(&self.origin);
        self.filter_at(denial, now)
    }

    /// What is done with a denial that comes in `now` nanoseconds after the filter was made.
    pub fn filter_at(&mut self, denial: &AvcDenial, now: u64) -> (r: FilterDecision)
        ensures
            (decision_view(r), final(self)@) == judge(old(self)@, incident(denial@, now)),
            is_kept_apart(denial@, decision_view(r), old(self)@, final(self)@),
            final(self).clock() == old(self).clock(),
    {
        let threat = find_threat(denial.raw.as_str());
        let noise = is_noise(denial.raw.as_str());
        self.decide(denial, threat, noise, now)
    }

    /// What is done with a denial, given the threat that it is a sign of and whether it is
    /// known to be harmless.
    pub fn decide(
        &mut self,
        denial: &AvcDenial,
        threat: Option<&str>,
        noise: bool,
        now: u64,
    ) -> (r: FilterDecision)
        ensures
            (decision_view(r), final(self)@) == judge(
                old(self)@,
                (Incident { denial: denial@, threat: opt_text(threat), noise, now }),
            ),
            final(self).clock() == old(self).clock(),
    {
        match threat {
            Some(reason) => {
                return FilterDecision::Alert(
                    denial.clone(),
                    join("matched deny-pattern: ", reason),
                );
            },
            None => {},
        }
        if noise {
            return FilterDecision::Drop;
        }
        let key = rate_key_of(denial);
        let next: (usize, u64) = match self.counts.get(key.as_str()) {
            None => (1, now),
            Some(entry) => {
                let (n, since) = *entry;
                if now > since && now - since > WINDOW_NS {
                    (1, now)
                } else if n < usize::MAX {
                    (n + 1, since)
                } else {
                    (n, since)
                }
            },
        };
        self.counts.insert(key, next);
        if next.0 > RATE_LIMIT {
            FilterDecision::Drop
        } else {
            FilterDecision::Pass(denial.clone())
        }
    }
}

} // verus!
