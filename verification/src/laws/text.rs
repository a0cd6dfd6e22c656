//! What holds of texts and numbers.

use crate::number::{all_digits, decimal, digit_value, is_digit, parsed, unsigned_part, value_of};
use crate::order::{
    before, insert_in_order, lemma_before_irreflexive, lemma_insert_in_order, strictly_sorted,
};
use crate::text::{
    find_from, has_text, is_not, is_only, is_solid, is_space, joined, lemma_find_none, lemma_run,
    lemma_run_is, lemma_trim_end_is, occurs_at, run, split_on, trim_end, trimmed, whitespace,
    words_of,
};
use vstd::prelude::*;

verus! {

// ---- Characters ----

/// Of the ASCII characters, the space and those from the tabulator to the carriage return are
/// white space, and no others; beyond them there is none before the next line character, and
/// none after the ideographic space.
pub proof fn law_white_space(c: char)
    ensures
        c == ' ' || c == '\t' || c == '\n' || c == '\r' ==> whitespace(c),
        c as int <= 0x7f ==> (whitespace(c) <==> c as int == 0x20 || 0x09 <= c as int <= 0x0d),
        0x7f < (c as int) < 0x85 || c as int > 0x3000 ==> !whitespace(c),
        c == '\u{85}' || c == '\u{a0}' || c == '\u{1680}' || c == '\u{2028}' || c == '\u{2029}' || c
            == '\u{202f}' || c == '\u{205f}' || c == '\u{3000}' ==> whitespace(c),
        0x2000 <= c as int <= 0x200a ==> whitespace(c),
        'a' <= c <= 'z' || 'A' <= c <= 'Z' || '0' <= c <= '9' ==> !whitespace(c),
{
}

/// Whether a text is nothing but white space.
pub open spec fn is_blank(s: Seq<char>) -> bool {
    forall|i: int| 0 <= i < s.len() ==> whitespace(#[trigger] s[i])
}

/// Whether a text holds no white space.
pub open spec fn is_tight(s: Seq<char>) -> bool {
    forall|i: int| 0 <= i < s.len() ==> !whitespace(#[trigger] s[i])
}

// ---- Words ----

/// A text without white space is one word.
pub proof fn law_one_word(w: Seq<char>)
    requires
        w.len() > 0,
        is_tight(w),
    ensures
        words_of(w) == seq![w],
{
    lemma_run_is(w, is_solid(), w.len() as int);
    assert(w.take(w.len() as int) =~= w);
    assert(w.skip(w.len() as int) =~= Seq::<char>::empty());
    assert(words_of(Seq::<char>::empty()) =~= Seq::empty());
    assert(words_of(w) =~= seq![w]);
}

/// White space holds no word.
pub proof fn law_no_word(s: Seq<char>)
    requires
        is_blank(s),
    ensures
        words_of(s).len() == 0,
    decreases s.len(),
{
    if s.len() > 0 {
        let t = s.skip(1);
        assert forall|i: int| 0 <= i < t.len() implies whitespace(#[trigger] t[i]) by {
            assert(t[i] == s[i + 1]);
        }
        law_no_word(t);
    }
}

/// The words on both sides of white space are the words of the whole.
pub proof fn law_words_apart(a: Seq<char>, gap: Seq<char>, b: Seq<char>)
    requires
        gap.len() > 0,
        is_blank(gap),
    ensures
        words_of(a + gap + b) == words_of(a) + words_of(b),
    decreases a.len() + gap.len(),
{
    let s = a + gap + b;
    if a.len() == 0 {
        assert(s[0] == gap[0]);
        assert(words_of(a) =~= Seq::empty());
        if gap.len() == 1 {
            assert(s.skip(1) =~= b);
            assert(words_of(a) + words_of(b) =~= words_of(b));
        } else {
            let rest = gap.skip(1);
            assert forall|i: int| 0 <= i < rest.len() implies whitespace(#[trigger] rest[i]) by {
                assert(rest[i] == gap[i + 1]);
            }
            law_words_apart(a, rest, b);
            assert(s.skip(1) =~= a + rest + b);
        }
    } else if whitespace(a[0]) {
        assert(s[0] == a[0]);
        assert(s.skip(1) =~= a.skip(1) + gap + b);
        law_words_apart(a.skip(1), gap, b);
    } else {
        assert(s[0] == a[0]);
        lemma_run(a, is_solid());
        let n = run(a, is_solid()) as int;
        assert(n > 0);
        assert forall|j: int| 0 <= j < n implies is_solid()(#[trigger] s[j]) by {
            assert(s[j] == a[j]);
        }
        if n < a.len() {
            assert(s[n] == a[n]);
        } else {
            assert(s[n] == gap[0]);
        }
        lemma_run_is(s, is_solid(), n);
        assert(s.take(n) =~= a.take(n));
        assert(s.skip(n) =~= a.skip(n) + gap + b);
        law_words_apart(a.skip(n), gap, b);
        assert(seq![a.take(n)] + (words_of(a.skip(n)) + words_of(b)) =~= words_of(a) + words_of(b));
    }
}

// ---- Pieces ----

/// A text without the separator is one piece; otherwise the first piece ends at the first
/// separator, and the other pieces are those of what follows it.
pub proof fn law_pieces(a: Seq<char>, sep: char, b: Seq<char>)
    requires
        !a.contains(sep),
    ensures
        split_on(a, sep) == seq![a],
        split_on(a + seq![sep] + b, sep) == seq![a] + split_on(b, sep),
{
    let s = a + seq![sep] + b;
    let n = a.len() as int;
    assert forall|j: int| 0 <= j < n implies is_not(sep)(#[trigger] a[j]) by {
        assert(a.contains(a[j]));
    }
    lemma_run_is(a, is_not(sep), n);
    assert forall|j: int| 0 <= j < n implies is_not(sep)(#[trigger] s[j]) by {
        assert(s[j] == a[j]);
    }
    assert(s[n] == sep);
    lemma_run_is(s, is_not(sep), n);
    assert(s.take(n) =~= a);
    assert(s.skip(n + 1) =~= b);
}

// ---- Ends ----

/// White space around a text is taken off, and nothing else.
pub proof fn law_trimmed(a: Seq<char>, s: Seq<char>, b: Seq<char>)
    requires
        is_blank(a),
        is_blank(b),
        s.len() > 0 ==> !whitespace(s[0]) && !whitespace(s.last()),
    ensures
        trimmed(a + s + b) == s,
{
    let all = a + s + b;
    let n = a.len() as int;
    if s.len() > 0 {
        assert forall|j: int| 0 <= j < n implies is_space()(#[trigger] all[j]) by {
            assert(all[j] == a[j]);
        }
        assert(all[n] == s[0]);
        lemma_run_is(all, is_space(), n);
        let t = all.skip(n);
        let k = s.len() as int;
        assert forall|j: int| k <= j < t.len() implies is_space()(#[trigger] t[j]) by {
            assert(t[j] == b[j - k]);
        }
        assert(t[k - 1] == s.last());
        lemma_trim_end_is(t, is_space(), k);
        assert(t.take(k) =~= s);
    } else {
        assert forall|j: int| 0 <= j < all.len() implies is_space()(#[trigger] all[j]) by {
            if j < n {
                assert(all[j] == a[j]);
            } else {
                assert(all[j] == b[j - n]);
            }
        }
        lemma_run_is(all, is_space(), all.len() as int);
        let t = all.skip(all.len() as int);
        assert(t =~= Seq::<char>::empty());
        lemma_trim_end_is(t, is_space(), 0);
        assert(trimmed(all) =~= s);
    }
}

/// A character is taken off the end as often as it stands there, and nothing else is.
pub proof fn law_end_cut(s: Seq<char>, c: char, b: Seq<char>)
    requires
        forall|i: int| 0 <= i < b.len() ==> #[trigger] b[i] == c,
        s.len() > 0 ==> s.last() != c,
    ensures
        trim_end(s + b, is_only(c)) == s,
{
    let all = s + b;
    let k = s.len() as int;
    assert forall|j: int| k <= j < all.len() implies is_only(c)(#[trigger] all[j]) by {
        assert(all[j] == b[j - k]);
    }
    lemma_trim_end_is(all, is_only(c), k);
    assert(all.take(k) =~= s);
}

// ---- Searching ----

/// A search finds the first place where the text stands, if there is one.
pub proof fn law_found_first(s: Seq<char>, key: Seq<char>, at: int)
    requires
        0 <= at,
        at + key.len() <= s.len(),
        s.subrange(at, at + key.len()) == key,
        forall|j: int| 0 <= j < at ==> #[trigger] s.subrange(j, j + key.len()) != key,
    ensures
        find_from(s, key, 0) == Some(at as nat),
{
    lemma_found_from(s, key, 0, at);
}

proof fn lemma_found_from(s: Seq<char>, key: Seq<char>, i: nat, at: int)
    requires
        i <= at,
        at + key.len() <= s.len(),
        s.subrange(at, at + key.len()) == key,
        forall|j: int| i <= j < at ==> #[trigger] s.subrange(j, j + key.len()) != key,
    ensures
        find_from(s, key, i) == Some(at as nat),
    decreases at - i,
{
    if i < at {
        assert(s.subrange(i as int, i as int + key.len()) != key);
        lemma_found_from(s, key, i + 1, at);
    }
}

/// A text stands in another just when that is made of something, the text, and something.
pub proof fn law_standing_inside(s: Seq<char>, key: Seq<char>)
    ensures
        has_text(s, key) <==> exists|a: Seq<char>, b: Seq<char>| s == #[trigger] (a + key + b),
        has_text(s, key) <==> find_from(s, key, 0) is Some,
{
    if has_text(s, key) {
        let i = choose|i: int| occurs_at(s, key, i);
        let a = s.take(i);
        let b = s.skip(i + key.len());
        assert(s =~= a + key + b);
        if find_from(s, key, 0) is None {
            lemma_find_none(s, key, 0);
        }
    }
    if exists|a: Seq<char>, b: Seq<char>| s == #[trigger] (a + key + b) {
        let (a, b) = choose|a: Seq<char>, b: Seq<char>| s == #[trigger] (a + key + b);
        assert(s.subrange(a.len() as int, a.len() as int + key.len()) =~= key);
        assert(occurs_at(s, key, a.len() as int));
    }
    if find_from(s, key, 0) is Some {
        lemma_found_is_there(s, key, 0);
    }
}

proof fn lemma_found_is_there(s: Seq<char>, key: Seq<char>, i: nat)
    requires
        find_from(s, key, i) is Some,
    ensures
        occurs_at(s, key, find_from(s, key, i)->0 as int),
    decreases s.len() - i,
{
    if i + key.len() <= s.len() && !occurs_at(s, key, i as int) && i < s.len() {
        lemma_found_is_there(s, key, i + 1);
    }
}

// ---- Lists ----

/// A list of texts is written with the separator between each two, and not at the ends.
pub proof fn law_joined(v: Seq<Seq<char>>, x: Seq<char>, sep: Seq<char>)
    ensures
        joined(Seq::empty(), sep) == Seq::<char>::empty(),
        joined(seq![x], sep) == x,
        v.len() > 0 ==> joined(v.push(x), sep) == joined(v, sep) + sep + x,
{
    assert(v.push(x).drop_last() =~= v);
}

/// Texts are in order by the first character in which they differ, and a text comes before all
/// that begin with it.
pub proof fn law_order(p: Seq<char>, a: Seq<char>, b: Seq<char>)
    ensures
        a.len() > 0 && b.len() > 0 && a[0] < b[0] ==> before(p + a, p + b) && !before(p + b, p + a),
        b.len() > 0 ==> before(p, p + b) && !before(p + b, p),
        !before(p, p),
    decreases p.len(),
{
    lemma_before_irreflexive(p);
    if p.len() == 0 {
        assert(p + a =~= a);
        assert(p + b =~= b);
    } else {
        law_order(p.skip(1), a, b);
        assert((p + a).skip(1) =~= p.skip(1) + a);
        assert((p + b).skip(1) =~= p.skip(1) + b);
    }
}

/// Putting a text into a sorted list adds it where it is missing, takes none out, and leaves the
/// list sorted.
pub proof fn law_insertion(s: Seq<Seq<char>>, x: Seq<char>, y: Seq<char>)
    requires
        forall|i: int, j: int| 0 <= i < j < s.len() ==> before(#[trigger] s[i], #[trigger] s[j]),
    ensures
        forall|i: int, j: int|
            0 <= i < j < insert_in_order(s, x).len() ==> before(
                #[trigger] insert_in_order(s, x)[i],
                #[trigger] insert_in_order(s, x)[j],
            ),
        insert_in_order(s, x).contains(y) <==> s.contains(y) || y == x,
{
    assert(strictly_sorted(s));
    lemma_insert_in_order(s, x);
    assert(strictly_sorted(insert_in_order(s, x)));
}

// ---- Numbers ----

/// Numbers are written in base ten: the last digit is the remainder by ten, what stands before it
/// is the rest, and a number below ten is one character.
pub proof fn law_decimal(n: nat, d: nat)
    requires
        d < 10,
    ensures
        decimal(d).len() == 1,
        decimal(d)[0] as int == '0' as int + d,
        n > 0 ==> decimal(10 * n + d) == decimal(n).push(decimal(d)[0]),
{
    assert((48 + d) as char as int == 48 + d);
    if n > 0 {
        assert((10 * n + d) / 10 == n && (10 * n + d) % 10 == d) by (nonlinear_arith)
            requires
                d < 10,
        ;
    }
}

/// Numbers are read in base ten: digits only, at least one, perhaps after a plus sign, and not
/// more than the largest one.
pub proof fn law_parsed(s: Seq<char>, c: char, max: nat)
    ensures
        parsed(Seq::empty(), max) is None,
        '0' <= c <= '9' ==> parsed(seq![c], max) == (if c as int - '0' as int <= max {
            Some((c as int - '0' as int) as nat)
        } else {
            None
        }),
        !('0' <= c <= '9') ==> parsed(s.push(c), max) is None,
        s.len() > 0 && s[0] != '+' && '0' <= c <= '9' ==> parsed(s.push(c), max) == (match parsed(
            s,
            max,
        ) {
            Some(v) if v * 10 + (c as int - '0' as int) <= max => Some(
                (v * 10 + (c as int - '0' as int)) as nat,
            ),
            _ => None,
        }),
        s.len() > 0 && s[0] != '+' ==> parsed(seq!['+'] + s, max) == parsed(s, max),
        parsed(seq!['+', '+'] + s, max) is None,
        parsed(s, max) matches Some(v) ==> v <= max,
{
    let one = seq![c];
    assert(one.drop_last() =~= Seq::<char>::empty());
    assert(value_of(Seq::<char>::empty()) == 0);
    assert(value_of(one) == digit_value(c));
    let t = s.push(c);
    if !('0' <= c <= '9') {
        let d = unsigned_part(t);
        if d.len() > 0 {
            assert(d.last() == c);
            assert(!is_digit(d[d.len() - 1]));
        }
    }
    if s.len() > 0 && s[0] != '+' && '0' <= c <= '9' {
        assert(t[0] == s[0]);
        assert(t.drop_last() =~= s);
        assert(value_of(t) == value_of(s) * 10 + digit_value(c));
        if all_digits(s) {
            assert forall|i: int| 0 <= i < t.len() implies is_digit(#[trigger] t[i]) by {
                if i < s.len() {
                    assert(t[i] == s[i]);
                }
            }
        } else {
            let i = choose|i: int| 0 <= i < s.len() && !is_digit(#[trigger] s[i]);
            assert(t[i] == s[i]);
        }
    }
    let p = seq!['+'] + s;
    assert(p.skip(1) =~= s);
    let two = seq!['+', '+'] + s;
    assert(two.skip(1)[0] == '+');
    assert(!is_digit(unsigned_part(two)[0]));
}

} // verus!
