//! Diagnostics scheduler model: per document URI at most one pending
//! diagnostics task. Scheduling hands out a fresh generation and supersedes
//! the pending predecessor; a task may publish only while its generation is
//! still the pending one, so stale diagnostics never overtake newer ones.

use vstd::prelude::*;

verus! {

/// Pending generations by URI, and the next generation to hand out.
#[derive(Debug)]
pub struct DiagnosticsScheduler {
    pub pending: Vec<(String, u64)>,
    pub next_gen: u64,
}

/// The ghost image of the scheduler.
pub struct SchedModel {
    pub pending: Seq<(String, u64)>,
    pub next_gen: u64,
}

impl View for DiagnosticsScheduler {
    type V = SchedModel;

    open spec fn view(&self) -> SchedModel {
        SchedModel { pending: self.pending@, next_gen: self.next_gen }
    }
}

/// The pending generation of a URI.
pub open spec fn spec_pending_gen(ps: Seq<(String, u64)>, uri: Seq<char>) -> Option<u64>
    decreases ps.len(),
{
    if ps.len() == 0 {
        None
    } else if ps[0].0@ == uri {
        Some(ps[0].1)
    } else {
        spec_pending_gen(ps.drop_first(), uri)
    }
}

pub open spec fn spec_drop_uri(ps: Seq<(String, u64)>, uri: Seq<char>) -> Seq<(String, u64)>
    decreases ps.len(),
{
    if ps.len() == 0 {
        Seq::<(String, u64)>::empty()
    } else {
        let rest = spec_drop_uri(ps.drop_first(), uri);
        if ps[0].0@ == uri {
            rest
        } else {
            seq![ps[0]] + rest
        }
    }
}

/// Scheduling: the URI's pending generation becomes a fresh one; any
/// predecessor is superseded.
pub open spec fn spec_schedule(m: SchedModel, uri: String) -> (SchedModel, u64) {
    (
        SchedModel {
            pending: spec_drop_uri(m.pending, uri@).push((uri, m.next_gen)),
            next_gen: (m.next_gen + 1) as u64,
        },
        m.next_gen,
    )
}

/// A task may publish only while its generation is the pending one for its
/// URI.
pub open spec fn spec_may_publish(m: SchedModel, uri: Seq<char>, gen: u64) -> bool {
    spec_pending_gen(m.pending, uri) == Some(gen)
}

impl DiagnosticsScheduler {
    pub fn new() -> (r: Self)
        ensures
            r@.pending.len() == 0,
            r@.next_gen == 0,
    {
        DiagnosticsScheduler { pending: Vec::new(), next_gen: 0 }
    }

    /// Hand out a generation for a new diagnostics task on `uri`, superseding
    /// any pending one.
    pub fn schedule(&mut self, uri: &String) -> (g: u64)
        requires
            old(self)@.next_gen < u64::MAX,
        ensures
            (final(self)@, g) == spec_schedule(old(self)@, *uri),
    {
        drop_uri_in(&mut self.pending, uri);
        let g = self.next_gen;
        self.pending.push((uri.clone(), g));
        self.next_gen = self.next_gen + 1;
        g
    }

    /// Whether the task of generation `g` for `uri` may still publish.
    pub fn may_publish(&self, uri: &String, g: u64) -> (b: bool)
        ensures
            b == spec_may_publish(self@, uri@, g),
    {
        match find_gen(&self.pending, uri) {
            Some(cur) => cur == g,
            None => false,
        }
    }

    /// A task of generation `g` finished (published or was cancelled): its
    /// registration leaves, unless a newer one superseded it already.
    pub fn complete(&mut self, uri: &String, g: u64)
        ensures
            final(self)@.next_gen == old(self)@.next_gen,
            final(self)@.pending == (if spec_pending_gen(old(self)@.pending, uri@) == Some(g) {
                spec_drop_uri(old(self)@.pending, uri@)
            } else {
                old(self)@.pending
            }),
    {
        match find_gen(&self.pending, uri) {
            Some(cur) => {
                if cur == g {
                    drop_uri_in(&mut self.pending, uri);
                }
            },
            None => (),
        }
    }

    /// The document closed: any pending task is superseded for good.
    pub fn close(&mut self, uri: &String)
        ensures
            final(self)@.next_gen == old(self)@.next_gen,
            final(self)@.pending == spec_drop_uri(old(self)@.pending, uri@),
    {
        drop_uri_in(&mut self.pending, uri);
    }
}

fn find_gen(ps: &Vec<(String, u64)>, uri: &String) -> (r: Option<u64>)
    ensures
        match r {
            Some(g) => spec_pending_gen(ps@, uri@) == Some(g),
            None => spec_pending_gen(ps@, uri@) is None,
        },
{
    let mut i: usize = 0;
    proof {
        assert(ps@.skip(0) =~= ps@);
    }
    while i < ps.len()
        invariant
            i <= ps@.len(),
            spec_pending_gen(ps@, uri@) == spec_pending_gen(ps@.skip(i as int), uri@),
        decreases ps@.len() - i,
    {
        proof {
            assert(ps@.skip(i as int)[0] == ps@[i as int]);
            assert(ps@.skip(i as int).drop_first() =~= ps@.skip(i + 1));
        }
        if ps[i].0 == *uri {
            return Some(ps[i].1);
        }
        i = i + 1;
    }
    None
}

fn drop_uri_in(v: &mut Vec<(String, u64)>, uri: &String)
    ensures
        final(v)@ == spec_drop_uri(old(v)@, uri@),
{
    let mut i: usize = 0;
    proof {
        assert(v@.skip(0) =~= v@);
        assert(v@.subrange(0, 0) + spec_drop_uri(v@.skip(0), uri@) =~= spec_drop_uri(v@, uri@));
    }
    while i < v.len()
        invariant
            i <= v@.len(),
            spec_drop_uri(old(v)@, uri@) == v@.subrange(0, i as int) + spec_drop_uri(
                v@.skip(i as int),
                uri@,
            ),
            forall|k: int| 0 <= k < i ==> (#[trigger] v@[k]).0@ != uri@,
        decreases v@.len() - i,
    {
        proof {
            assert(v@.skip(i as int)[0] == v@[i as int]);
            assert(v@.skip(i as int).drop_first() =~= v@.skip(i + 1));
        }
        if v[i].0 == *uri {
            let ghost before = v@;
            v.remove(i);
            proof {
                assert(v@.subrange(0, i as int) =~= before.subrange(0, i as int));
                assert(v@.skip(i as int) =~= before.skip(i + 1));
            }
        } else {
            proof {
                assert(v@.subrange(0, i + 1) + spec_drop_uri(v@.skip(i + 1), uri@) =~= v@.subrange(
                    0,
                    i as int,
                ) + spec_drop_uri(v@.skip(i as int), uri@));
            }
            i = i + 1;
        }
    }
    proof {
        assert(spec_drop_uri(v@.skip(i as int), uri@) =~= Seq::<(String, u64)>::empty());
        assert(v@.subrange(0, i as int) =~= v@);
        assert(v@.subrange(0, i as int) + spec_drop_uri(v@.skip(i as int), uri@) =~= v@);
    }
}

// ────────────────────────────────────────────────────────────
// Laws of the scheduler
// ────────────────────────────────────────────────────────────

proof fn lemma_drop_uri_gen_none(ps: Seq<(String, u64)>, u: Seq<char>)
    ensures
        spec_pending_gen(spec_drop_uri(ps, u), u) is None,
    decreases ps.len(),
{
    if ps.len() > 0 {
        lemma_drop_uri_gen_none(ps.drop_first(), u);
        if ps[0].0@ != u {
            let rest = spec_drop_uri(ps.drop_first(), u);
            assert((seq![ps[0]] + rest).drop_first() =~= rest);
        }
    }
}

proof fn lemma_gen_push(ps: Seq<(String, u64)>, p: (String, u64), u: Seq<char>)
    ensures
        spec_pending_gen(ps.push(p), u) == (match spec_pending_gen(ps, u) {
            Some(g) => Some(g),
            None => if p.0@ == u {
                Some(p.1)
            } else {
                None
            },
        }),
    decreases ps.len(),
{
    if ps.len() == 0 {
        assert(ps.push(p)[0] == p);
        assert(ps.push(p).drop_first() =~= Seq::<(String, u64)>::empty());
        assert(spec_pending_gen(ps.push(p).drop_first(), u) is None);
    } else {
        assert(ps.push(p)[0] == ps[0]);
        assert(ps.push(p).drop_first() =~= ps.drop_first().push(p));
        lemma_gen_push(ps.drop_first(), p, u);
    }
}

/// Only the latest scheduling ever publishes: after any two schedulings for
/// the same URI, the earlier generation may not publish and the later one
/// may — so of any sequence of edits, at most the last one's diagnostics are
/// delivered.
pub proof fn lemma_latest_scheduling_wins(m: SchedModel, uri: String, uri2: String)
    requires
        uri2@ == uri@,
        m.next_gen < u64::MAX - 1,
    ensures
        ({
            let r1 = spec_schedule(m, uri);
            let r2 = spec_schedule(r1.0, uri2);
            spec_may_publish(r2.0, uri@, r2.1) && !spec_may_publish(r2.0, uri@, r1.1) && r2.1
                != r1.1
        }),
{
    let r1 = spec_schedule(m, uri);
    let r2 = spec_schedule(r1.0, uri2);
    lemma_drop_uri_gen_none(m.pending, uri@);
    lemma_drop_uri_gen_none(r1.0.pending, uri@);
    lemma_gen_push(spec_drop_uri(r1.0.pending, uri@), (uri2, r1.0.next_gen), uri@);
}

} // verus!
