//! Security contexts of processes.

use crate::lru_model::{
    law_lru_put, law_lru_touch, lemma_behind_is_found, lemma_front_stands, lemma_put_keeps_behind,
    lemma_touch_keeps_behind, lru_lookup, lru_put, lru_touch, lru_wf, stands_behind,
};
use crate::number::{decimal, to_decimal};
use crate::outside::{context_cap, context_entries, context_get, context_new, context_put};
use crate::text::{join, opt_text, split, split_on, trim, trimmed};
use lru::LruCache;
use vstd::prelude::*;

verus! {

/// How many contexts are remembered.
pub const CACHE_MAX: usize = 1000;

/// The type in a security context: the third of its parts, which colons separate.
pub open spec fn type_of(context: Seq<char>) -> Seq<char> {
    let parts = split_on(context, ':');
    if parts.len() >= 3 {
        parts[2]
    } else {
        "unknown_t"@
    }
}

/// The type in a security context; `unknown_t` where there is none.
pub fn extract_type(context: &str) -> (r: String)
    ensures
        r@ == type_of(context@),
{
    let parts = split(context, ':');
    if parts.len() >= 3 {
        assert(split_on(context@, ':')[2] == parts@[2]@);
        parts[2].clone()
    } else {
        "unknown_t".to_owned()
    }
}

/// The context and type of a process, from what its attribute file holds; `None` stands for a
/// file that could not be read.
pub open spec fn context_of(attr: Option<Seq<char>>) -> (Seq<char>, Seq<char>) {
    match attr {
        Some(s) => if trimmed(s).len() > 0 {
            (trimmed(s), type_of(trimmed(s)))
        } else {
            ("unknown_t"@, "unknown_t"@)
        },
        None => ("unknown_t"@, "unknown_t"@),
    }
}

/// The context and type in the text of an attribute file.
pub fn context_from_attr(attr: Option<&str>) -> (r: (String, String))
    ensures
        (r.0@, r.1@) == context_of(opt_text(attr)),
{
    match attr {
        Some(s) => {
            let context = trim(s);
            if context.as_str().is_empty() {
                ("unknown_t".to_owned(), "unknown_t".to_owned())
            } else {
                let short = extract_type(context.as_str());
                (context, short)
            }
        },
        None => ("unknown_t".to_owned(), "unknown_t".to_owned()),
    }
}

/// The file that holds the security context of a process.
pub fn attr_path(tgid: u32) -> (r: String)
    ensures
        r@ == "/proc/"@ + decimal(tgid as nat) + "/attr/current"@,
{
    let number = to_decimal(tgid as u64);
    let mut r = join("/proc/", number.as_str());
    r.append("/attr/current");
    r
}

/// The context and type of a process, and what is remembered after that: the remembered ones, or
/// else those in the attribute file.
pub open spec fn resolved(
    entries: Seq<(u32, (Seq<char>, Seq<char>))>,
    tgid: u32,
    attr: Option<Seq<char>>,
) -> ((Seq<char>, Seq<char>), Seq<(u32, (Seq<char>, Seq<char>))>) {
    match lru_lookup(entries, tgid) {
        Some(v) => (v, lru_touch(entries, tgid)),
        None => (
            context_of(attr),
            lru_put(entries, CACHE_MAX as nat, tgid, context_of(attr)),
        ),
    }
}

/// What is remembered after one process was resolved after the other.
pub open spec fn resolved_each(
    entries: Seq<(u32, (Seq<char>, Seq<char>))>,
    queries: Seq<(u32, Option<Seq<char>>)>,
) -> Seq<(u32, (Seq<char>, Seq<char>))>
    decreases queries.len(),
{
    if queries.len() == 0 {
        entries
    } else {
        resolved_each(resolved(entries, queries[0].0, queries[0].1).1, queries.skip(1))
    }
}

/// Resolving a process keeps the remembered ones in order, and puts that one in front.
proof fn lemma_resolved(
    entries: Seq<(u32, (Seq<char>, Seq<char>))>,
    tgid: u32,
    attr: Option<Seq<char>>,
)
    requires
        lru_wf(entries, CACHE_MAX as nat),
    ensures
        lru_wf(resolved(entries, tgid, attr).1, CACHE_MAX as nat),
        resolved(entries, tgid, attr).1.len() > 0,
        resolved(entries, tgid, attr).1[0] == (tgid, resolved(entries, tgid, attr).0),
{
    law_lru_touch(entries, CACHE_MAX as nat, tgid);
    law_lru_put(entries, CACHE_MAX as nat, tgid, context_of(attr));
}

/// An entry behind fewer other processes than are remembered stays, whatever is resolved of
/// these.
proof fn lemma_stays_behind(
    entries: Seq<(u32, (Seq<char>, Seq<char>))>,
    tgid: u32,
    v: (Seq<char>, Seq<char>),
    others: Set<u32>,
    queries: Seq<(u32, Option<Seq<char>>)>,
)
    requires
        lru_wf(entries, CACHE_MAX as nat),
        stands_behind(entries, tgid, v, others),
        others.finite(),
        others.len() < CACHE_MAX,
        forall|i: int|
            0 <= i < queries.len() ==> (#[trigger] queries[i]).0 == tgid || others.contains(
                queries[i].0,
            ),
    ensures
        lru_wf(resolved_each(entries, queries), CACHE_MAX as nat),
        stands_behind(resolved_each(entries, queries), tgid, v, others),
    decreases queries.len(),
{
    if queries.len() > 0 {
        let (k, attr) = queries[0];
        let after = resolved(entries, k, attr).1;
        lemma_resolved(entries, k, attr);
        if k == tgid {
            lemma_behind_is_found(entries, CACHE_MAX as nat, tgid, v, others);
            lemma_front_stands(after, tgid, v, others);
        } else if lru_lookup(entries, k) is Some {
            lemma_touch_keeps_behind(entries, tgid, v, k, others);
        } else {
            lemma_put_keeps_behind(
                entries,
                CACHE_MAX as nat,
                tgid,
                v,
                k,
                context_of(attr),
                others,
            );
        }
        let rest = queries.skip(1);
        assert forall|i: int| 0 <= i < rest.len() implies (#[trigger] rest[i]).0 == tgid
            || others.contains(rest[i].0) by {
            assert(rest[i] == queries[i + 1]);
        }
        lemma_stays_behind(after, tgid, v, others, rest);
    }
}

/// The context of a process, once resolved, is what it is resolved to again, whatever its
/// attribute file holds by then, while fewer than `CACHE_MAX` other processes were resolved in
/// between. Failures are remembered like contexts.
pub proof fn law_context_is_remembered(
    entries: Seq<(u32, (Seq<char>, Seq<char>))>,
    tgid: u32,
    attr: Option<Seq<char>>,
    others: Set<u32>,
    between: Seq<(u32, Option<Seq<char>>)>,
    later: Option<Seq<char>>,
)
    requires
        lru_wf(entries, CACHE_MAX as nat),
        others.finite(),
        others.len() < CACHE_MAX,
        forall|i: int|
            0 <= i < between.len() ==> (#[trigger] between[i]).0 == tgid || others.contains(
                between[i].0,
            ),
    ensures
        lru_lookup(entries, tgid) is None ==> resolved(entries, tgid, attr).0 == context_of(attr),
        lru_lookup(resolved_each(resolved(entries, tgid, attr).1, between), tgid) == Some(
            resolved(entries, tgid, attr).0,
        ),
        resolved(resolved_each(resolved(entries, tgid, attr).1, between), tgid, later).0
            == resolved(entries, tgid, attr).0,
{
    let v = resolved(entries, tgid, attr).0;
    let first = resolved(entries, tgid, attr).1;
    lemma_resolved(entries, tgid, attr);
    lemma_front_stands(first, tgid, v, others);
    lemma_stays_behind(first, tgid, v, others, between);
    lemma_behind_is_found(resolved_each(first, between), CACHE_MAX as nat, tgid, v, others);
}

/// Security contexts of processes, of which the recently used ones are remembered.
pub struct Resolver {
    cache: LruCache<u32, (String, String)>,
}

impl Resolver {
    /// The remembered contexts and types, the most recently used one first.
    pub closed spec fn entries(&self) -> Seq<(u32, (Seq<char>, Seq<char>))> {
        context_entries(self.cache)
    }

    /// No process is remembered twice, and no more than `CACHE_MAX` of them.
    pub closed spec fn wf(&self) -> bool {
        &&& context_cap(self.cache) == CACHE_MAX
        &&& lru_wf(context_entries(self.cache), CACHE_MAX as nat)
    }

    /// What the validity of a resolver says of what it remembers.
    pub proof fn lemma_wf(&self)
        requires
            self.wf(),
        ensures
            lru_wf(self.entries(), CACHE_MAX as nat),
    {
    }

    /// A resolver that remembers nothing.
    pub fn new() -> (r: Self)
        ensures
            r.wf(),
            r.entries() == Seq::<(u32, (Seq<char>, Seq<char>))>::empty(),
    {
        Resolver { cache: context_new(CACHE_MAX) }
    }

    /// The remembered context and type of a process.
    pub fn lookup(&mut self, tgid: u32) -> (r: Option<(String, String)>)
        requires
            old(self).wf(),
        ensures
            final(self).wf(),
            match r {
                Some(v) => lru_lookup(old(self).entries(), tgid) == Some((v.0@, v.1@)),
                None => lru_lookup(old(self).entries(), tgid) is None,
            },
            final(self).entries() == lru_touch(old(self).entries(), tgid),
    {
        proof {
            law_lru_touch(self.entries(), CACHE_MAX as nat, tgid);
        }
        context_get(&mut self.cache, tgid)
    }

    /// The context and type of a process: the remembered ones, or else those in `attr`, which
    /// are then remembered.
    pub fn resolve(&mut self, tgid: u32, attr: Option<&str>) -> (r: (String, String))
        requires
            old(self).wf(),
        ensures
            final(self).wf(),
            ((r.0@, r.1@), final(self).entries()) == resolved(
                old(self).entries(),
                tgid,
                opt_text(attr),
            ),
            lru_lookup(final(self).entries(), tgid) == Some((r.0@, r.1@)),
    {
        proof {
            law_lru_touch(self.entries(), CACHE_MAX as nat, tgid);
        }
        match self.lookup(tgid) {
            Some(v) => v,
            None => {
                let found = context_from_attr(attr);
                proof {
                    law_lru_put(self.entries(), CACHE_MAX as nat, tgid, (found.0@, found.1@));
                }
                context_put(&mut self.cache, tgid, (found.0.clone(), found.1.clone()));
                found
            },
        }
    }
}

} // verus!
