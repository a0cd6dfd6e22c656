//! Plain text operations on `str` and `String`, stated over sequences of characters.

use vstd::prelude::*;

verus! {

/// The characters of each string of a list.
pub open spec fn views(v: Seq<String>) -> Seq<Seq<char>> {
    Seq::new(v.len(), |i: int| v[i]@)
}

/// The characters of an optional string.
pub open spec fn opt_view(s: Option<String>) -> Option<Seq<char>> {
    match s {
        Some(x) => Some(x@),
        None => None,
    }
}

/// The characters of an optional text.
pub open spec fn opt_text(s: Option<&str>) -> Option<Seq<char>> {
    match s {
        Some(x) => Some(x@),
        None => None,
    }
}

/// The characters of `s`, in order.
pub fn chars_of(s: &str) -> (v: Vec<char>)
    ensures
        v@ == s@,
{
    let mut v: Vec<char> = Vec::new();
    for c in it: s.chars()
        invariant
            v@ == it.seq().take(it.index()),
            it.seq() == s@,
    {
        v.push(c);
    }
    assert(v@ =~= s@);
    v
}

/// Whether two strings hold the same characters.
pub fn same(a: &str, b: &str) -> (r: bool)
    ensures
        r == (a@ == b@),
{
    let x = chars_of(a);
    let y = chars_of(b);
    if x.len() != y.len() {
        return false;
    }
    let mut i: usize = 0;
    while i < x.len()
        invariant
            i <= x.len(),
            x.len() == y.len(),
            x@ == a@,
            y@ == b@,
            forall|j: int| 0 <= j < i ==> x@[j] == y@[j],
        decreases x.len() - i,
    {
        if x[i] != y[i] {
            assert(a@[i as int] != b@[i as int]);
            return false;
        }
        i = i + 1;
    }
    assert(a@ =~= b@);
    true
}

/// A copy of a list of texts.
pub fn copy_all(v: &Vec<String>) -> (r: Vec<String>)
    ensures
        views(r@) == views(v@),
{
    let mut r: Vec<String> = Vec::new();
    let mut i: usize = 0;
    while i < v.len()
        invariant
            i <= v.len(),
            r.len() == i,
            forall|j: int| 0 <= j < i ==> (#[trigger] r@[j])@ == v@[j]@,
        decreases v.len() - i,
    {
        r.push(v[i].clone());
        i = i + 1;
    }
    assert(views(r@) =~= views(v@));
    r
}

/// The two texts, one after the other.
pub fn join(a: &str, b: &str) -> (r: String)
    ensures
        r@ == a@ + b@,
{
    let mut r = a.to_owned();
    r.append(b);
    r
}

/// The texts of a list, one after the other, with `sep` between each two.
pub open spec fn joined(v: Seq<Seq<char>>, sep: Seq<char>) -> Seq<char>
    decreases v.len(),
{
    if v.len() == 0 {
        Seq::empty()
    } else if v.len() == 1 {
        v[0]
    } else {
        joined(v.drop_last(), sep) + sep + v.last()
    }
}

/// The texts of a list, one after the other, with `sep` between each two.
pub fn join_all(v: &Vec<String>, sep: &str) -> (r: String)
    ensures
        r@ == joined(views(v@), sep@),
{
    let mut r = String::new();
    let mut i: usize = 0;
    let ghost all = views(v@);
    while i < v.len()
        invariant
            i <= v.len(),
            all == views(v@),
            r@ == joined(all.take(i as int), sep@),
        decreases v.len() - i,
    {
        proof {
            assert(all.take(i + 1).drop_last() =~= all.take(i as int));
            assert(all.take(i + 1).last() == v@[i as int]@);
        }
        if i > 0 {
            r.append(sep);
        }
        r.append(v[i].as_str());
        i = i + 1;
    }
    assert(all.take(i as int) =~= all);
    r
}

// ---- Runs of characters ----

/// The characters other than `c`.
pub open spec fn is_not(c: char) -> spec_fn(char) -> bool {
    |x: char| x != c
}

/// The character `c` alone.
pub open spec fn is_only(c: char) -> spec_fn(char) -> bool {
    |x: char| x == c
}

/// The Unicode property `White_Space`.
pub open spec fn whitespace(c: char) -> bool {
    let u = c as int;
    ||| 0x09 <= u <= 0x0d
    ||| u == 0x20
    ||| u == 0x85
    ||| u == 0xa0
    ||| u == 0x1680
    ||| 0x2000 <= u <= 0x200a
    ||| u == 0x2028
    ||| u == 0x2029
    ||| u == 0x202f
    ||| u == 0x205f
    ||| u == 0x3000
}

/// The white space characters.
pub open spec fn is_space() -> spec_fn(char) -> bool {
    |x: char| whitespace(x)
}

/// The characters that are not white space.
pub open spec fn is_solid() -> spec_fn(char) -> bool {
    |x: char| !whitespace(x)
}

/// The length of the longest prefix of `s` on which `f` holds throughout.
pub open spec fn run(s: Seq<char>, f: spec_fn(char) -> bool) -> nat
    decreases s.len(),
{
    if s.len() == 0 || !f(s[0]) {
        0
    } else {
        1 + run(s.skip(1), f)
    }
}

/// A run ends at the first character on which the predicate fails, or with the text.
pub proof fn lemma_run(s: Seq<char>, f: spec_fn(char) -> bool)
    ensures
        run(s, f) <= s.len(),
        forall|j: int| 0 <= j < run(s, f) ==> f(#[trigger] s[j]),
        run(s, f) < s.len() ==> !f(s[run(s, f) as int]),
    decreases s.len(),
{
    if s.len() != 0 && f(s[0]) {
        let t = s.skip(1);
        lemma_run(t, f);
        assert forall|j: int| 0 <= j < run(s, f) implies f(#[trigger] s[j]) by {
            if j > 0 {
                assert(t[j - 1] == s[j]);
            }
        }
        if run(s, f) < s.len() {
            assert(t[run(t, f) as int] == s[run(s, f) as int]);
        }
    }
}

/// What ends where a run ends is that run.
pub proof fn lemma_run_is(s: Seq<char>, f: spec_fn(char) -> bool, k: int)
    requires
        0 <= k <= s.len(),
        forall|j: int| 0 <= j < k ==> f(#[trigger] s[j]),
        k < s.len() ==> !f(s[k]),
    ensures
        run(s, f) == k,
{
    lemma_run(s, f);
    let r = run(s, f) as int;
    if r < k {
        assert(f(s[r]));
    } else if k < r {
        assert(f(s[k]));
    }
}

/// The code point of `c`.
pub fn code_point(c: char) -> (u: u32)
    ensures
        u == c as int,
{
    c as u32
}

/// Whether `c` is a white space character.
pub fn is_whitespace(c: char) -> (r: bool)
    ensures
        r == whitespace(c),
{
    let u: u32 = code_point(c);
    (0x09 <= u && u <= 0x0d) || u == 0x20 || u == 0x85 || u == 0xa0 || u == 0x1680 || (0x2000 <= u
        && u <= 0x200a) || u == 0x2028 || u == 0x2029 || u == 0x202f || u == 0x205f || u == 0x3000
}

/// Whether `c` occurs in `s`.
pub fn contains_char(s: &str, c: char) -> (r: bool)
    ensures
        r == s@.contains(c),
{
    let v = chars_of(s);
    let mut i: usize = 0;
    while i < v.len()
        invariant
            i <= v.len(),
            v@ == s@,
            forall|j: int| 0 <= j < i ==> v@[j] != c,
        decreases v.len() - i,
    {
        if v[i] == c {
            assert(s@[i as int] == c);
            return true;
        }
        i = i + 1;
    }
    false
}

// ---- Splitting ----

/// The pieces of `s` between the occurrences of `sep`; there is always at least one.
pub open spec fn split_on(s: Seq<char>, sep: char) -> Seq<Seq<char>>
    decreases s.len(),
{
    let n = run(s, is_not(sep));
    if n < s.len() {
        seq![s.take(n as int)] + split_on(s.skip(n as int + 1), sep)
    } else {
        seq![s]
    }
}

/// The pieces of `s` between the occurrences of `sep`.
pub fn split(s: &str, sep: char) -> (parts: Vec<String>)
    ensures
        views(parts@) == split_on(s@, sep),
        parts@.len() > 0,
{
    let v = chars_of(s);
    let mut parts: Vec<String> = Vec::new();
    let mut start: usize = 0;
    let mut i: usize = 0;
    assert(s@.skip(0) =~= s@);
    assert(views(parts@) + split_on(s@, sep) =~= split_on(s@, sep));
    while i < v.len()
        invariant
            start <= i <= v.len(),
            v@ == s@,
            views(parts@) + split_on(s@.skip(start as int), sep) == split_on(s@, sep),
            forall|j: int| start <= j < i ==> v@[j] != sep,
        decreases v.len() - i,
    {
        if v[i] == sep {
            let ghost before = parts@;
            let ghost tail = s@.skip(start as int);
            let piece = s.substring_char(start, i).to_owned();
            proof {
                lemma_run_is(tail, is_not(sep), i - start);
                assert(tail.take(i - start) =~= piece@);
                assert(tail.skip(i - start + 1) =~= s@.skip(i + 1));
            }
            parts.push(piece);
            start = i + 1;
            proof {
                assert(views(parts@) =~= views(before).push(piece@));
                assert(views(parts@) + split_on(s@.skip(start as int), sep) =~= views(before) + (
                seq![piece@] + split_on(s@.skip(start as int), sep)));
            }
        }
        i = i + 1;
    }
    let piece = s.substring_char(start, v.len()).to_owned();
    proof {
        let tail = s@.skip(start as int);
        lemma_run_is(tail, is_not(sep), tail.len() as int);
        assert(piece@ =~= tail);
        assert(views(parts@.push(piece)) =~= views(parts@) + seq![piece@]);
    }
    parts.push(piece);
    parts
}

/// The maximal pieces of `s` without white space.
pub open spec fn words_of(s: Seq<char>) -> Seq<Seq<char>>
    decreases s.len(),
{
    if s.len() == 0 {
        Seq::empty()
    } else if whitespace(s[0]) {
        words_of(s.skip(1))
    } else {
        proof {
            lemma_run(s, is_solid());
        }
        let n = run(s, is_solid());
        seq![s.take(n as int)] + words_of(s.skip(n as int))
    }
}

/// The maximal pieces of `s` without white space, in order.
pub fn words(s: &str) -> (r: Vec<String>)
    ensures
        views(r@) == words_of(s@),
{
    let v = chars_of(s);
    let mut r: Vec<String> = Vec::new();
    let mut i: usize = 0;
    assert(s@.skip(0) =~= s@);
    assert(views(r@) + words_of(s@) =~= words_of(s@));
    while i < v.len()
        invariant
            i <= v.len(),
            v@ == s@,
            views(r@) + words_of(s@.skip(i as int)) == words_of(s@),
        decreases v.len() - i,
    {
        let ghost tail = s@.skip(i as int);
        assert(tail[0] == v@[i as int]);
        if is_whitespace(v[i]) {
            assert(tail.skip(1) =~= s@.skip(i + 1));
            i = i + 1;
        } else {
            let start: usize = i;
            i = i + 1;
            while i < v.len() && !is_whitespace(v[i])
                invariant
                    start < i <= v.len(),
                    forall|j: int| start <= j < i ==> !whitespace(v@[j]),
                decreases v.len() - i,
            {
                i = i + 1;
            }
            let ghost before = r@;
            let word = s.substring_char(start, i).to_owned();
            proof {
                lemma_run_is(tail, is_solid(), i - start);
                assert(tail.take(i - start) =~= word@);
                assert(tail.skip(i - start) =~= s@.skip(i as int));
            }
            r.push(word);
            proof {
                assert(views(r@) =~= views(before).push(word@));
                assert(views(r@) + words_of(s@.skip(i as int)) =~= views(before) + (seq![word@]
                    + words_of(s@.skip(i as int))));
            }
        }
    }
    assert(s@.skip(i as int) =~= Seq::<char>::empty());
    assert(views(r@) + words_of(Seq::<char>::empty()) =~= views(r@));
    r
}

// ---- Trimming ----

/// `s` without the characters of `f` at its end.
pub open spec fn trim_end(s: Seq<char>, f: spec_fn(char) -> bool) -> Seq<char> {
    s.take(s.len() - run(s.reverse(), f))
}

/// `s` without the white space at either end.
pub open spec fn trimmed(s: Seq<char>) -> Seq<char> {
    trim_end(s.skip(run(s, is_space()) as int), is_space())
}

/// What is left when the end of a text is cut where the predicate last fails.
pub proof fn lemma_trim_end_is(s: Seq<char>, f: spec_fn(char) -> bool, k: int)
    requires
        0 <= k <= s.len(),
        forall|j: int| k <= j < s.len() ==> f(#[trigger] s[j]),
        k > 0 ==> !f(s[k - 1]),
    ensures
        trim_end(s, f) == s.take(k),
{
    let t = s.reverse();
    assert forall|j: int| 0 <= j < s.len() - k implies f(#[trigger] t[j]) by {
        assert(t[j] == s[s.len() - 1 - j]);
    }
    if s.len() - k < s.len() {
        assert(t[s.len() - k] == s[k - 1]);
    }
    lemma_run_is(t, f, s.len() - k);
}

/// `s` without the characters `c` at its end.
pub fn trim_end_char(s: &str, c: char) -> (r: String)
    ensures
        r@ == trim_end(s@, is_only(c)),
{
    let v = chars_of(s);
    let mut k: usize = v.len();
    while k > 0 && v[k - 1] == c
        invariant
            k <= v.len(),
            forall|j: int| k <= j < v.len() ==> v@[j] == c,
        decreases k,
    {
        k = k - 1;
    }
    proof {
        lemma_trim_end_is(s@, is_only(c), k as int);
        assert(s@.take(k as int) =~= s@.subrange(0, k as int));
    }
    s.substring_char(0, k).to_owned()
}

/// `s` without the white space at either end.
pub fn trim(s: &str) -> (r: String)
    ensures
        r@ == trimmed(s@),
{
    let v = chars_of(s);
    let mut a: usize = 0;
    while a < v.len() && is_whitespace(v[a])
        invariant
            a <= v.len(),
            forall|j: int| 0 <= j < a ==> whitespace(v@[j]),
        decreases v.len() - a,
    {
        a = a + 1;
    }
    let mut k: usize = v.len();
    while k > a && is_whitespace(v[k - 1])
        invariant
            a <= k <= v.len(),
            forall|j: int| k <= j < v.len() ==> whitespace(v@[j]),
        decreases k,
    {
        k = k - 1;
    }
    proof {
        lemma_run_is(s@, is_space(), a as int);
        let t = s@.skip(a as int);
        assert forall|j: int| k - a <= j < t.len() implies is_space()(#[trigger] t[j]) by {
            assert(t[j] == v@[j + a]);
        }
        lemma_trim_end_is(t, is_space(), k - a);
        assert(t.take(k - a) =~= s@.subrange(a as int, k as int));
    }
    s.substring_char(a, k).to_owned()
}

// ---- Searching ----

/// Whether `key` stands in `s` at position `i`.
pub open spec fn occurs_at(s: Seq<char>, key: Seq<char>, i: int) -> bool {
    0 <= i && i + key.len() <= s.len() && s.subrange(i, i + key.len()) == key
}

/// Whether `key` stands anywhere in `s`.
pub open spec fn has_text(s: Seq<char>, key: Seq<char>) -> bool {
    exists|i: int| occurs_at(s, key, i)
}

/// Whether a text is a path of small letters: not empty, and nothing but those and slashes.
pub open spec fn is_plain_path(s: Seq<char>) -> bool {
    &&& s.len() > 0
    &&& forall|i: int| 0 <= i < s.len() ==> 'a' <= #[trigger] s[i] <= 'z' || s[i] == '/'
}

/// The first position at or after `i` where `key` stands in `s`.
pub open spec fn find_from(s: Seq<char>, key: Seq<char>, i: nat) -> Option<nat>
    decreases s.len() - i,
{
    if i + key.len() > s.len() {
        None
    } else if occurs_at(s, key, i as int) {
        Some(i)
    } else if i < s.len() {
        find_from(s, key, i + 1)
    } else {
        None
    }
}

/// A search that fails means that the text does not occur from there on.
pub proof fn lemma_find_none(s: Seq<char>, key: Seq<char>, i: nat)
    requires
        find_from(s, key, i) is None,
    ensures
        forall|j: int| i <= j ==> !occurs_at(s, key, j),
    decreases s.len() - i,
{
    if i + key.len() <= s.len() && i < s.len() {
        lemma_find_none(s, key, i + 1);
    }
}

/// The position of the first occurrence of `key` in `s`, in characters.
pub fn find(s: &str, key: &str) -> (r: Option<usize>)
    ensures
        match r {
            Some(i) => find_from(s@, key@, 0) == Some(i as nat) && occurs_at(s@, key@, i as int),
            None => find_from(s@, key@, 0) is None,
        },
{
    let v = chars_of(s);
    let k = chars_of(key);
    let mut i: usize = 0;
    loop
        invariant
            i <= v.len(),
            v@ == s@,
            k@ == key@,
            find_from(s@, key@, 0) == find_from(s@, key@, i as nat),
        decreases v.len() - i,
    {
        if v.len() - i < k.len() {
            return None;
        }
        let mut j: usize = 0;
        while j < k.len() && v[i + j] == k[j]
            invariant
                j <= k.len(),
                i + k.len() <= v.len(),
                forall|q: int| 0 <= q < j ==> v@[i + q] == k@[q],
            decreases k.len() - j,
        {
            j = j + 1;
        }
        if j == k.len() {
            assert(s@.subrange(i as int, i + key@.len()) =~= key@);
            return Some(i);
        }
        assert(s@.subrange(i as int, i + key@.len())[j as int] != key@[j as int]);
        if i == v.len() {
            return None;
        }
        i = i + 1;
    }
}

/// Whether `key` stands anywhere in `s`.
pub fn contains_text(s: &str, key: &str) -> (r: bool)
    ensures
        r == has_text(s@, key@),
{
    match find(s, key) {
        Some(_) => true,
        None => {
            proof {
                lemma_find_none(s@, key@, 0);
            }
            false
        },
    }
}

} // verus!
