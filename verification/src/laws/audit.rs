//! What denials say, and what is done with them.

use crate::audit::{
    avc_denial, denial_of, denials_in, field, incident, is_timestamp, judge, noise_in, rate_key,
    threat_in, Decision, Incident,
};
use crate::common::userspace::DenialView;
use crate::laws::text::{law_found_first, law_pieces, law_standing_inside};
use crate::number::{all_digits, parsed};
use crate::outside::{regex_group, regex_match};
use crate::resolver::type_of;
use crate::text::{has_text, is_not, is_solid, joined, lemma_run_is, split_on, whitespace, words_of};
use vstd::prelude::*;

verus! {

// ---- Fields ----

/// Whether `key` stands in a line at `at` and nowhere before.
pub open spec fn first_at(line: Seq<char>, key: Seq<char>, at: int) -> bool {
    &&& 0 <= at && at + key.len() <= line.len()
    &&& line.subrange(at, at + key.len()) == key
    &&& forall|j: int| 0 <= j < at ==> #[trigger] line.subrange(j, j + key.len()) != key
}

/// Whether a text without white space, which begins with no quote, follows `key`, and white space or
/// the end of the line follows that.
pub open spec fn bare_after(line: Seq<char>, key: Seq<char>, at: int, c: Seq<char>) -> bool {
    let start = at + key.len();
    &&& first_at(line, key, at)
    &&& start + c.len() <= line.len()
    &&& line.subrange(start, start + c.len()) == c
    &&& forall|i: int| 0 <= i < c.len() ==> !whitespace(#[trigger] c[i])
    &&& c.len() > 0 ==> c[0] != '"'
    &&& start + c.len() < line.len() ==> whitespace(line[start + c.len()])
}

/// Whether a text without quotes follows `key` in double quotes.
pub open spec fn quoted_after(line: Seq<char>, key: Seq<char>, at: int, c: Seq<char>) -> bool {
    let start = at + key.len();
    &&& first_at(line, key, at)
    &&& start + c.len() + 2 <= line.len()
    &&& line[start] == '"'
    &&& line.subrange(start + 1, start + 1 + c.len()) == c
    &&& forall|i: int| 0 <= i < c.len() ==> #[trigger] c[i] != '"'
    &&& line[start + 1 + c.len()] == '"'
}

/// Whether a quote follows `key` that is not closed.
pub open spec fn open_after(line: Seq<char>, key: Seq<char>, at: int) -> bool {
    let start = at + key.len();
    &&& first_at(line, key, at)
    &&& start < line.len() && line[start] == '"'
    &&& forall|i: int| start < i < line.len() ==> #[trigger] line[i] != '"'
}

/// A field is the whole text after its key, up to white space or the end, or the whole text in the
/// quotes after its key. Where the key does not stand in the line, or a quote after it is not
/// closed, there is none.
pub proof fn law_field(line: Seq<char>, key: Seq<char>, at: int, c: Seq<char>)
    ensures
        bare_after(line, key, at, c) ==> field(line, key) == Some(c),
        quoted_after(line, key, at, c) ==> field(line, key) == Some(c),
        open_after(line, key, at) ==> field(line, key) is None,
        !has_text(line, key) ==> field(line, key) is None,
{
    law_standing_inside(line, key);
    if first_at(line, key, at) {
        law_found_first(line, key, at);
        let start = at + key.len();
        let rest = line.skip(start);
        if bare_after(line, key, at, c) {
            let n = c.len() as int;
            assert forall|j: int| 0 <= j < n implies is_solid()(#[trigger] rest[j]) by {
                assert(rest[j] == line.subrange(start, start + n)[j]);
                assert(c[j] == rest[j]);
            }
            if n < rest.len() {
                assert(rest[n] == line[start + n]);
            }
            lemma_run_is(rest, is_solid(), n);
            assert(rest.take(n) =~= c);
            if rest.len() > 0 {
                if n > 0 {
                    assert(rest[0] == c[0]);
                } else {
                    assert(whitespace(rest[0]));
                    assert(!whitespace('"'));
                }
            }
        }
        if open_after(line, key, at) {
            let inner = rest.skip(1);
            assert(rest[0] == line[start]);
            assert forall|j: int| 0 <= j < inner.len() implies is_not('"')(#[trigger] inner[j]) by {
                assert(inner[j] == line[start + 1 + j]);
            }
            lemma_run_is(inner, is_not('"'), inner.len() as int);
        }
        if quoted_after(line, key, at, c) {
            let n = c.len() as int;
            let inner = rest.skip(1);
            assert(rest[0] == line[start]);
            assert forall|j: int| 0 <= j < n implies is_not('"')(#[trigger] inner[j]) by {
                assert(inner[j] == line.subrange(start + 1, start + 1 + n)[j]);
                assert(c[j] == inner[j]);
            }
            assert(inner[n] == line[start + 1 + n]);
            lemma_run_is(inner, is_not('"'), n);
            assert(inner.take(n) =~= c);
        }
    }
}

/// Whether a text is digits, a dot, and digits.
pub open spec fn is_time(t: Seq<char>) -> bool {
    exists|a: Seq<char>, b: Seq<char>|
        t == #[trigger] (a + seq!['.'] + b) && a.len() > 0 && b.len() > 0 && (forall|i: int|
            0 <= i < a.len() ==> '0' <= #[trigger] a[i] <= '9') && (forall|i: int|
            0 <= i < b.len() ==> '0' <= #[trigger] b[i] <= '9')
}

/// A time is digits, a dot, and digits.
pub proof fn law_time(t: Seq<char>)
    ensures
        is_timestamp(t) <==> is_time(t),
{
    if is_timestamp(t) {
        if !t.contains('.') {
            law_pieces(t, '.', t);
        }
        lemma_first_dot(t);
        let i = choose|i: int|
            0 <= i < t.len() && t[i] == '.' && !(#[trigger] t.take(i)).contains('.');
        let a = t.take(i);
        let b = t.skip(i + 1);
        assert(t =~= a + seq!['.'] + b);
        law_pieces(a, '.', b);
        if b.contains('.') {
            lemma_first_dot(b);
            let j = choose|j: int|
                0 <= j < b.len() && b[j] == '.' && !(#[trigger] b.take(j)).contains('.');
            assert(b =~= b.take(j) + seq!['.'] + b.skip(j + 1));
            law_pieces(b.take(j), '.', b.skip(j + 1));
            lemma_some_piece(b.skip(j + 1));
        } else {
            law_pieces(b, '.', b);
        }
        let parts = split_on(t, '.');
        assert(parts[0] == a && parts[1] == b);
        assert(all_digits(a) && all_digits(b));
    }
    if is_time(t) {
        let (a, b) = choose|a: Seq<char>, b: Seq<char>|
            t == #[trigger] (a + seq!['.'] + b) && a.len() > 0 && b.len() > 0 && (forall|i: int|
                0 <= i < a.len() ==> '0' <= #[trigger] a[i] <= '9') && (forall|i: int|
                0 <= i < b.len() ==> '0' <= #[trigger] b[i] <= '9');
        law_pieces(a, '.', b);
        law_pieces(b, '.', b);
        assert(split_on(t, '.') =~= seq![a, b]);
    }
}

proof fn lemma_first_dot(t: Seq<char>)
    requires
        t.contains('.'),
    ensures
        exists|i: int| 0 <= i < t.len() && t[i] == '.' && !(#[trigger] t.take(i)).contains('.'),
    decreases t.len(),
{
    let k = choose|k: int| 0 <= k < t.len() && t[k] == '.';
    if t.take(k).contains('.') {
        lemma_first_dot(t.take(k));
        let i = choose|i: int|
            0 <= i < k && t.take(k)[i] == '.' && !(#[trigger] t.take(k).take(i)).contains('.');
        assert(t.take(k).take(i) =~= t.take(i));
    }
}

proof fn lemma_some_piece(s: Seq<char>)
    ensures
        split_on(s, '.').len() >= 1,
{
}

// ---- Denials ----

/// Which lines report a denial: those that name the access vector cache and say `denied`, with a
/// time, a serial number of no more than sixty-four bits, and permissions.
pub proof fn law_lines_that_report(
    line: Seq<char>,
    stamp: Option<Seq<char>>,
    serial: Option<Seq<char>>,
    perms: Option<Seq<char>>,
)
    ensures
        denial_of(line, stamp, serial, perms) is Some <==> {
            &&& has_text(line, "type=AVC"@)
            &&& has_text(line, "denied"@)
            &&& stamp is Some && is_time(stamp->0)
            &&& serial is Some && parsed(serial->0, 0xffff_ffff_ffff_ffff) is Some
            &&& perms is Some
        },
{
    if stamp is Some {
        law_time(stamp->0);
    }
}

/// What a denial says. The class, the two contexts and the command name are the whole texts after
/// their keys, or `unknown` where a key is missing; the types are those in the contexts; the
/// process is the number after its key, or zero; the time, the serial number and the permissions
/// are those that were found, and the message is the line.
pub proof fn law_denial_says_what_the_line_says(
    line: Seq<char>,
    t: Seq<char>,
    n: Seq<char>,
    p: Seq<char>,
    at: int,
    c: Seq<char>,
)
    requires
        denial_of(line, Some(t), Some(n), Some(p)) is Some,
    ensures
        ({
            let d = denial_of(line, Some(t), Some(n), Some(p))->0;
            &&& bare_after(line, "tclass="@, at, c) || quoted_after(line, "tclass="@, at, c)
                ==> d.tclass == c
            &&& bare_after(line, "scontext="@, at, c) || quoted_after(line, "scontext="@, at, c)
                ==> d.scontext == c && d.scontext_type == type_of(c)
            &&& bare_after(line, "tcontext="@, at, c) || quoted_after(line, "tcontext="@, at, c)
                ==> d.tcontext == c && d.tcontext_type == type_of(c)
            &&& bare_after(line, "comm="@, at, c) || quoted_after(line, "comm="@, at, c) ==> d.comm
                == c
            &&& bare_after(line, "pid="@, at, c) || quoted_after(line, "pid="@, at, c) ==> d.pid == (
            match parsed(c, 0xffff_ffff) {
                Some(v) => v,
                None => 0,
            })
            &&& !has_text(line, "tclass="@) ==> d.tclass == "unknown"@
            &&& !has_text(line, "scontext="@) ==> d.scontext == "unknown"@ && d.scontext_type
                == type_of("unknown"@)
            &&& !has_text(line, "tcontext="@) ==> d.tcontext == "unknown"@ && d.tcontext_type
                == type_of("unknown"@)
            &&& !has_text(line, "comm="@) ==> d.comm == "unknown"@
            &&& !has_text(line, "pid="@) ==> d.pid == 0
            &&& d.timestamp_sec == t
            &&& parsed(n, 0xffff_ffff_ffff_ffff) == Some(d.serial as nat)
            &&& d.perms == words_of(p)
            &&& d.raw == line
        }),
{
    law_field(line, "tclass="@, at, c);
    law_field(line, "scontext="@, at, c);
    law_field(line, "tcontext="@, at, c);
    law_field(line, "comm="@, at, c);
    law_field(line, "pid="@, at, c);
}

/// A line is read by the time and serial number after `msg=audit`, and the permissions in the
/// braces after `denied`.
pub proof fn law_where_a_line_is_read(line: Seq<char>)
    ensures
        avc_denial(line) == denial_of(
            line,
            regex_group(r"msg=audit\((\d+\.\d+):(\d+)\)"@, line, 1),
            regex_group(r"msg=audit\((\d+\.\d+):(\d+)\)"@, line, 2),
            regex_group(r"denied\s*\{([^}]+)\}"@, line, 1),
        ),
{
}

/// The denials in a log are those of its lines, each line once and in order.
pub proof fn law_denials_line_by_line(lines: Seq<Seq<char>>, line: Seq<char>)
    ensures
        denials_in(Seq::empty()).len() == 0,
        avc_denial(line) matches Some(d) ==> denials_in(lines.push(line)) == denials_in(lines).push(
            d,
        ),
        avc_denial(line) is None ==> denials_in(lines.push(line)) == denials_in(lines),
{
    assert(lines.push(line).drop_last() =~= lines);
}

// ---- Threats and noise ----

/// Which expressions make a message a sign of which threat, the first that matches deciding; and
/// which ones make it noise.
pub proof fn law_signs(raw: Seq<char>)
    ensures
        ({
            let credentials = regex_match(r"(?i)(/etc/shadow|/etc/passwd|/etc/sudoers)"@, raw) == Some(
                true,
            );
            let shell = regex_match(
                r"(?i)(/root/\.ssh|/home/\w+/\.ssh/authorized_keys)"@,
                raw,
            ) == Some(true);
            let transport = regex_match(r"(?i)/etc/ssl/private"@, raw) == Some(true);
            &&& credentials ==> threat_in(raw) == Some("credential_access"@)
            &&& !credentials && shell ==> threat_in(raw) == Some("ssh_key_access"@)
            &&& !credentials && !shell && transport ==> threat_in(raw) == Some("tls_key_access"@)
            &&& !credentials && !shell && !transport ==> threat_in(raw) is None
        }),
        noise_in(raw) <==> regex_match(r"(?i)/home/\w+/\.cache/"@, raw) == Some(true) || regex_match(
            r"(?i)/tmp/"@,
            raw,
        ) == Some(true),
{
}

/// An incident is the denial itself, judged by its message.
pub proof fn law_incident(d: DenialView, now: u64)
    ensures
        incident(d, now).denial == d,
        incident(d, now).now == now,
        incident(d, now).threat == threat_in(d.raw),
        incident(d, now).noise == noise_in(d.raw),
{
}

// ---- Rates ----

/// Denials with the same two types, class and permissions are counted together.
pub proof fn law_like_denials_share_a_count(a: DenialView, b: DenialView)
    requires
        a.scontext_type == b.scontext_type,
        a.tcontext_type == b.tcontext_type,
        a.tclass == b.tclass,
        a.perms == b.perms,
    ensures
        rate_key(a) == rate_key(b),
{
}

/// Whether the types and the class of a denial hold no colon.
pub open spec fn is_plain(d: DenialView) -> bool {
    !d.scontext_type.contains(':') && !d.tcontext_type.contains(':') && !d.tclass.contains(':')
}

/// Denials that differ in one of their types, in their class or in their list of permissions are
/// counted apart.
pub proof fn law_unlike_denials_share_no_count(a: DenialView, b: DenialView)
    requires
        is_plain(a),
        is_plain(b),
        rate_key(a) == rate_key(b),
    ensures
        a.scontext_type == b.scontext_type,
        a.tcontext_type == b.tcontext_type,
        a.tclass == b.tclass,
        joined(a.perms, ","@) == joined(b.perms, ","@),
{
    lemma_key_pieces(a);
    lemma_key_pieces(b);
    let x = split_on(rate_key(a), ':');
    let y = split_on(rate_key(b), ':');
    assert(x[0] == y[0] && x[1] == y[1] && x[2] == y[2]);
    let n = a.scontext_type.len() + a.tcontext_type.len() + a.tclass.len() + 3;
    reveal_strlit(":");
    assert(rate_key(a).skip(n as int) =~= joined(a.perms, ","@));
    assert(rate_key(b).skip(n as int) =~= joined(b.perms, ","@));
}

proof fn lemma_key_pieces(d: DenialView)
    requires
        is_plain(d),
    ensures
        split_on(rate_key(d), ':').len() >= 3,
        split_on(rate_key(d), ':')[0] == d.scontext_type,
        split_on(rate_key(d), ':')[1] == d.tcontext_type,
        split_on(rate_key(d), ':')[2] == d.tclass,
{
    let p = joined(d.perms, ","@);
    let three = d.tclass + seq![':'] + p;
    let two = d.tcontext_type + seq![':'] + three;
    let one = d.scontext_type + seq![':'] + two;
    reveal_strlit(":");
    assert(rate_key(d) =~= one);
    law_pieces(d.scontext_type, ':', two);
    law_pieces(d.tcontext_type, ':', three);
    law_pieces(d.tclass, ':', p);
}

/// What is done with one denial. A threat is reported with its reason and noise is ignored, and
/// neither is counted. Any other is counted under its own key alone: as the first of a window where
/// none was counted before or the last window began more than a minute ago, and as one more
/// otherwise. It passes, unchanged, just when it is not beyond the tenth.
pub proof fn law_one_denial(counts: Map<Seq<char>, (usize, u64)>, i: Incident, k: Seq<char>)
    ensures
        ({
            let (decision, after) = judge(counts, i);
            let key = rate_key(i.denial);
            let fresh = !counts.contains_key(key) || i.now > counts[key].1 + 60_000_000_000;
            &&& i.threat matches Some(t) ==> decision == Decision::Alert(
                i.denial,
                "matched deny-pattern: "@ + t,
            ) && after == counts
            &&& i.threat is None && i.noise ==> decision == Decision::Drop && after == counts
            &&& i.threat is None && !i.noise ==> after.contains_key(key) && (k != key ==> (
            after.contains_key(k) <==> counts.contains_key(k)) && (counts.contains_key(k)
                ==> after[k] == counts[k]))
            &&& i.threat is None && !i.noise && fresh ==> decision == Decision::Pass(i.denial)
                && after[key] == (1usize, i.now)
            &&& i.threat is None && !i.noise && !fresh && counts[key].0 < 10 ==> decision
                == Decision::Pass(i.denial) && after[key].0 == counts[key].0 + 1 && after[key].1
                == counts[key].1
            &&& i.threat is None && !i.noise && !fresh && counts[key].0 >= 10 ==> decision
                == Decision::Drop && after[key].0 >= counts[key].0 && after[key].1 == counts[key].1
        }),
{
}

/// The counts after one denial after the other.
pub open spec fn counted(
    counts: Map<Seq<char>, (usize, u64)>,
    past: Seq<Incident>,
) -> Map<Seq<char>, (usize, u64)>
    decreases past.len(),
{
    if past.len() == 0 {
        counts
    } else {
        judge(counted(counts, past.drop_last()), past.last()).1
    }
}

/// How many of the denials that came in at `since` or later, and are neither a threat nor noise,
/// have the two types and the class of `d`.
pub open spec fn like_since(past: Seq<Incident>, d: DenialView, since: int) -> nat
    decreases past.len(),
{
    if past.len() == 0 {
        0
    } else {
        let x = past.last();
        like_since(past.drop_last(), d, since) + (if x.threat is None && !x.noise && x.now >= since
            && x.denial.scontext_type == d.scontext_type && x.denial.tcontext_type
            == d.tcontext_type && x.denial.tclass == d.tclass {
            1nat
        } else {
            0
        })
    }
}

/// Whether denials come in one after the other in time.
pub open spec fn in_time(past: Seq<Incident>) -> bool {
    forall|i: int, j: int|
        0 <= i <= j < past.len() ==> (#[trigger] past[i]).now <= (#[trigger] past[j]).now
}

/// A count is never more than the like denials since its window began.
proof fn lemma_count_is_covered(past: Seq<Incident>, d: DenialView)
    requires
        in_time(past),
        is_plain(d),
        forall|i: int| 0 <= i < past.len() ==> is_plain((#[trigger] past[i]).denial),
    ensures
        ({
            let counts = counted(Map::empty(), past);
            counts.contains_key(rate_key(d)) ==> counts[rate_key(d)].0 <= like_since(
                past,
                d,
                counts[rate_key(d)].1 as int,
            ) && past.len() > 0 && counts[rate_key(d)].1 <= past.last().now
        }),
    decreases past.len(),
{
    if past.len() > 0 {
        let t = past.drop_last();
        let x = past.last();
        assert forall|i: int, j: int| 0 <= i <= j < t.len() implies (#[trigger] t[i]).now <= (
        #[trigger] t[j]).now by {
            assert(t[i] == past[i] && t[j] == past[j]);
            assert(past[i].now <= past[j].now);
        }
        assert forall|i: int| 0 <= i < t.len() implies is_plain((#[trigger] t[i]).denial) by {
            assert(t[i] == past[i]);
        }
        lemma_count_is_covered(t, d);
        let before = counted(Map::empty(), t);
        let key = rate_key(d);
        assert(past[past.len() - 1] == x);
        if t.len() > 0 {
            assert(past[t.len() - 1] == t.last());
            assert(past[t.len() - 1].now <= past[past.len() - 1].now);
        }
        law_one_denial(before, x, key);
        if x.threat is None && !x.noise && rate_key(x.denial) == key {
            law_unlike_denials_share_no_count(x.denial, d);
        }
    }
}

/// A denial that is neither a threat nor noise passes where fewer than ten denials with the same
/// two types and class came in during the last minute, whatever else came in.
pub proof fn law_fewer_than_ten_pass(past: Seq<Incident>, x: Incident)
    requires
        in_time(past.push(x)),
        is_plain(x.denial),
        forall|i: int| 0 <= i < past.len() ==> is_plain((#[trigger] past[i]).denial),
        x.threat is None,
        !x.noise,
        like_since(past, x.denial, x.now - 60_000_000_000) < 10,
    ensures
        judge(counted(Map::empty(), past), x).0 == Decision::Pass(x.denial),
{
    let all = past.push(x);
    assert forall|i: int, j: int| 0 <= i <= j < past.len() implies (#[trigger] past[i]).now <= (
    #[trigger] past[j]).now by {
        assert(all[i] == past[i] && all[j] == past[j]);
        assert(all[i].now <= all[j].now);
    }
    lemma_count_is_covered(past, x.denial);
    let counts = counted(Map::empty(), past);
    let key = rate_key(x.denial);
    law_one_denial(counts, x, key);
    if counts.contains_key(key) && x.now <= counts[key].1 + 60_000_000_000 {
        lemma_earlier_is_more(past, x.denial, x.now - 60_000_000_000, counts[key].1 as int);
    }
}

proof fn lemma_earlier_is_more(past: Seq<Incident>, d: DenialView, a: int, b: int)
    requires
        a <= b,
    ensures
        like_since(past, d, b) <= like_since(past, d, a),
    decreases past.len(),
{
    if past.len() > 0 {
        lemma_earlier_is_more(past.drop_last(), d, a, b);
    }
}

} // verus!
