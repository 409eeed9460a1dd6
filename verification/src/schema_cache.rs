//! Schema cache model: a TTL and LRU bounded positive cache, a negative
//! cache with a retry cooldown, and single-flight coalescing of concurrent
//! loads. The cache itself decides; the caller performs the load it is told
//! to start and reports the outcome back with `finish_load_ok` or
//! `finish_load_err`.

use vstd::prelude::*;

verus! {

use crate::config::ServerConfig;
use crate::json::JsonValue;
use crate::json::json_eq;
use crate::json::clone_json;
use crate::navigator::seq_contains_str;
use crate::navigator::strs_view;

/// Seconds a failed URL stays on cooldown.
pub const ERROR_RETRY_SECS: u64 = 60;

/// One cached schema.
#[derive(Debug)]
pub struct CacheEntry {
    pub url: String,
    pub schema: JsonValue,
    pub stored_at: u64,
}

/// The cache: positive entries in recency order (least recently used first),
/// failure times, and the URLs with a load under way.
#[derive(Debug)]
pub struct SchemaCache {
    pub entries: Vec<CacheEntry>,
    pub errors: Vec<(String, u64)>,
    pub in_flight: Vec<String>,
    pub ttl_secs: u64,
    pub capacity: u64,
}

/// What a caller must do after asking for a URL.
#[derive(Debug)]
pub enum FetchDecision {
    /// The schema is cached and fresh; use this copy.
    Cached(JsonValue),
    /// A recent load failed; fail fast without loading.
    Cooldown,
    /// Another caller is already loading this URL; wait for its result.
    InFlight,
    /// No usable entry: this caller performs the one load.
    StartLoad,
}

/// The ghost image of the cache.
pub struct CacheModel {
    pub entries: Seq<CacheEntry>,
    pub errors: Seq<(String, u64)>,
    pub in_flight: Seq<String>,
    pub ttl_secs: u64,
    pub capacity: u64,
}

impl View for SchemaCache {
    type V = CacheModel;

    open spec fn view(&self) -> CacheModel {
        CacheModel {
            entries: self.entries@,
            errors: self.errors@,
            in_flight: self.in_flight@,
            ttl_secs: self.ttl_secs,
            capacity: self.capacity,
        }
    }
}

// ────────────────────────────────────────────────────────────
// Lookups and purges
// ────────────────────────────────────────────────────────────

pub open spec fn spec_lookup_entry(es: Seq<CacheEntry>, url: Seq<char>) -> Option<CacheEntry>
    decreases es.len(),
{
    if es.len() == 0 {
        None
    } else if es[0].url@ == url {
        Some(es[0])
    } else {
        spec_lookup_entry(es.drop_first(), url)
    }
}

pub open spec fn spec_lookup_err(es: Seq<(String, u64)>, url: Seq<char>) -> Option<u64>
    decreases es.len(),
{
    if es.len() == 0 {
        None
    } else if es[0].0@ == url {
        Some(es[0].1)
    } else {
        spec_lookup_err(es.drop_first(), url)
    }
}

pub open spec fn spec_purge_entries(es: Seq<CacheEntry>, url: Seq<char>) -> Seq<CacheEntry>
    decreases es.len(),
{
    if es.len() == 0 {
        Seq::<CacheEntry>::empty()
    } else {
        let rest = spec_purge_entries(es.drop_first(), url);
        if es[0].url@ == url {
            rest
        } else {
            seq![es[0]] + rest
        }
    }
}

pub open spec fn spec_purge_errs(es: Seq<(String, u64)>, url: Seq<char>) -> Seq<(String, u64)>
    decreases es.len(),
{
    if es.len() == 0 {
        Seq::<(String, u64)>::empty()
    } else {
        let rest = spec_purge_errs(es.drop_first(), url);
        if es[0].0@ == url {
            rest
        } else {
            seq![es[0]] + rest
        }
    }
}

pub open spec fn spec_purge_strs(es: Seq<String>, url: Seq<char>) -> Seq<String>
    decreases es.len(),
{
    if es.len() == 0 {
        Seq::<String>::empty()
    } else {
        let rest = spec_purge_strs(es.drop_first(), url);
        if es[0]@ == url {
            rest
        } else {
            seq![es[0]] + rest
        }
    }
}

/// Oldest entries dropped from the front until the capacity holds.
pub open spec fn spec_evict(es: Seq<CacheEntry>, cap: u64) -> Seq<CacheEntry>
    decreases es.len(),
{
    if es.len() <= cap {
        es
    } else {
        spec_evict(es.drop_first(), cap)
    }
}

/// A failure of `url` recorded at `t` blocks at `now`.
pub open spec fn spec_cooldown_active(m: CacheModel, url: Seq<char>, now: u64) -> bool {
    match spec_lookup_err(m.errors, url) {
        Some(t) => now < t + ERROR_RETRY_SECS,
        None => false,
    }
}

/// An entry stored at `t` is fresh at `now`.
pub open spec fn spec_fresh(m: CacheModel, e: CacheEntry, now: u64) -> bool {
    now < e.stored_at + m.ttl_secs
}

// ────────────────────────────────────────────────────────────
// Transitions
// ────────────────────────────────────────────────────────────

/// What `get_or_fetch` decides and how the state moves, given the clock:
/// an active cooldown fails fast; a fresh entry is served (and touched, for
/// recency); a load already under way is joined; otherwise this caller
/// starts the one load.
pub open spec fn spec_begin_get(m: CacheModel, url: String, now: u64) -> (CacheModel, FetchDecision) {
    if spec_cooldown_active(m, url@, now) {
        (m, FetchDecision::Cooldown)
    } else {
        let m1 = CacheModel { errors: spec_purge_errs(m.errors, url@), ..m };
        match spec_lookup_entry(m1.entries, url@) {
            Some(e) => if spec_fresh(m1, e, now) {
                let fi = spec_find_entry_at(m1.entries, url@);
                let m2 = CacheModel { entries: m1.entries.remove(fi).push(e), ..m1 };
                (m2, FetchDecision::Cached(e.schema))
            } else {
                let m2 = CacheModel { entries: spec_purge_entries(m1.entries, url@), ..m1 };
                spec_begin_load(m2, url)
            },
            None => spec_begin_load(m1, url),
        }
    }
}

/// Index of the first entry for a URL (meaningful when one exists).
pub open spec fn spec_find_entry_at(es: Seq<CacheEntry>, url: Seq<char>) -> int
    decreases es.len(),
{
    if es.len() == 0 {
        0
    } else if es[0].url@ == url {
        0
    } else {
        1 + spec_find_entry_at(es.drop_first(), url)
    }
}

pub open spec fn spec_begin_load(m: CacheModel, url: String) -> (CacheModel, FetchDecision) {
    if seq_contains_str(strs_view(m.in_flight), url@) {
        (m, FetchDecision::InFlight)
    } else {
        (CacheModel { in_flight: m.in_flight.push(url), ..m }, FetchDecision::StartLoad)
    }
}

/// A finished load: the URL leaves the in-flight set and its schema is
/// cached with the load time, evicting the least recently used entries
/// beyond the capacity.
pub open spec fn spec_finish_load_ok(m: CacheModel, url: String, schema: JsonValue, now: u64) -> CacheModel {
    let e = CacheEntry { url: url, schema: schema, stored_at: now };
    CacheModel {
        entries: spec_evict(spec_purge_entries(m.entries, url@).push(e), m.capacity),
        in_flight: spec_purge_strs(m.in_flight, url@),
        ..m
    }
}

/// A failed load: the URL leaves the in-flight set and its failure time is
/// recorded for the cooldown.
pub open spec fn spec_finish_load_err(m: CacheModel, url: String, now: u64) -> CacheModel {
    CacheModel {
        errors: spec_purge_errs(m.errors, url@).push((url, now)),
        in_flight: spec_purge_strs(m.in_flight, url@),
        ..m
    }
}

/// Dropping a URL from both caches.
pub open spec fn spec_invalidate(m: CacheModel, url: Seq<char>) -> CacheModel {
    CacheModel {
        entries: spec_purge_entries(m.entries, url),
        errors: spec_purge_errs(m.errors, url),
        ..m
    }
}

/// Whether a decision handed out matches the one the model prescribes: the
/// same verdict, with an equivalent copy of the schema in the cached case.
pub open spec fn decision_matches(a: FetchDecision, b: FetchDecision) -> bool {
    match a {
        FetchDecision::Cached(x) => b matches FetchDecision::Cached(y) && json_eq(
            x,
            spec_decision_schema(b),
        ),
        FetchDecision::Cooldown => b is Cooldown,
        FetchDecision::InFlight => b is InFlight,
        FetchDecision::StartLoad => b is StartLoad,
    }
}

pub open spec fn spec_decision_schema(b: FetchDecision) -> JsonValue {
    match b {
        FetchDecision::Cached(y) => y,
        _ => JsonValue::Null,
    }
}

// ────────────────────────────────────────────────────────────
// Executable cache
// ────────────────────────────────────────────────────────────

fn purge_entries_in(v: &mut Vec<CacheEntry>, url: &String)
    ensures
        final(v)@ == spec_purge_entries(old(v)@, url@),
{
    let mut i: usize = 0;
    proof {
        assert(v@.skip(0) =~= v@);
        assert(v@.subrange(0, 0) + spec_purge_entries(v@.skip(0), url@) =~= spec_purge_entries(v@, url@));
    }
    while i < v.len()
        invariant
            i <= v@.len(),
            spec_purge_entries(old(v)@, url@) == v@.subrange(0, i as int) + spec_purge_entries(
                v@.skip(i as int),
                url@,
            ),
            forall|k: int| 0 <= k < i ==> (#[trigger] v@[k]).url@ != url@,
        decreases v@.len() - i,
    {
        proof {
            assert(v@.skip(i as int)[0] == v@[i as int]);
            assert(v@.skip(i as int).drop_first() =~= v@.skip(i + 1));
        }
        if v[i].url == *url {
            let ghost before = v@;
            v.remove(i);
            proof {
                assert(v@.subrange(0, i as int) =~= before.subrange(0, i as int));
                assert(v@.skip(i as int) =~= before.skip(i + 1));
            }
        } else {
            proof {
                assert(v@.subrange(0, i + 1) + spec_purge_entries(v@.skip(i + 1), url@)
                    =~= v@.subrange(0, i as int) + spec_purge_entries(v@.skip(i as int), url@));
            }
            i = i + 1;
        }
    }
    proof {
        assert(spec_purge_entries(v@.skip(i as int), url@) =~= Seq::<CacheEntry>::empty());
        assert(v@.subrange(0, i as int) =~= v@);
        assert(v@.subrange(0, i as int) + spec_purge_entries(v@.skip(i as int), url@) =~= v@);
    }
}

fn purge_errs_in(v: &mut Vec<(String, u64)>, url: &String)
    ensures
        final(v)@ == spec_purge_errs(old(v)@, url@),
{
    let mut i: usize = 0;
    proof {
        assert(v@.skip(0) =~= v@);
        assert(v@.subrange(0, 0) + spec_purge_errs(v@.skip(0), url@) =~= spec_purge_errs(v@, url@));
    }
    while i < v.len()
        invariant
            i <= v@.len(),
            spec_purge_errs(old(v)@, url@) == v@.subrange(0, i as int) + spec_purge_errs(
                v@.skip(i as int),
                url@,
            ),
            forall|k: int| 0 <= k < i ==> (#[trigger] v@[k]).0@ != url@,
        decreases v@.len() - i,
    {
        proof {
            assert(v@.skip(i as int)[0] == v@[i as int]);
            assert(v@.skip(i as int).drop_first() =~= v@.skip(i + 1));
        }
        if v[i].0 == *url {
            let ghost before = v@;
            v.remove(i);
            proof {
                assert(v@.subrange(0, i as int) =~= before.subrange(0, i as int));
                assert(v@.skip(i as int) =~= before.skip(i + 1));
            }
        } else {
            proof {
                assert(v@.subrange(0, i + 1) + spec_purge_errs(v@.skip(i + 1), url@)
                    =~= v@.subrange(0, i as int) + spec_purge_errs(v@.skip(i as int), url@));
            }
            i = i + 1;
        }
    }
    proof {
        assert(spec_purge_errs(v@.skip(i as int), url@) =~= Seq::<(String, u64)>::empty());
        assert(v@.subrange(0, i as int) =~= v@);
        assert(v@.subrange(0, i as int) + spec_purge_errs(v@.skip(i as int), url@) =~= v@);
    }
}

fn purge_strs_in(v: &mut Vec<String>, url: &String)
    ensures
        final(v)@ == spec_purge_strs(old(v)@, url@),
{
    let mut i: usize = 0;
    proof {
        assert(v@.skip(0) =~= v@);
        assert(v@.subrange(0, 0) + spec_purge_strs(v@.skip(0), url@) =~= spec_purge_strs(v@, url@));
    }
    while i < v.len()
        invariant
            i <= v@.len(),
            spec_purge_strs(old(v)@, url@) == v@.subrange(0, i as int) + spec_purge_strs(
                v@.skip(i as int),
                url@,
            ),
            forall|k: int| 0 <= k < i ==> (#[trigger] v@[k])@ != url@,
        decreases v@.len() - i,
    {
        proof {
            assert(v@.skip(i as int)[0] == v@[i as int]);
            assert(v@.skip(i as int).drop_first() =~= v@.skip(i + 1));
        }
        if v[i] == *url {
            let ghost before = v@;
            v.remove(i);
            proof {
                assert(v@.subrange(0, i as int) =~= before.subrange(0, i as int));
                assert(v@.skip(i as int) =~= before.skip(i + 1));
            }
        } else {
            proof {
                assert(v@.subrange(0, i + 1) + spec_purge_strs(v@.skip(i + 1), url@)
                    =~= v@.subrange(0, i as int) + spec_purge_strs(v@.skip(i as int), url@));
            }
            i = i + 1;
        }
    }
    proof {
        assert(spec_purge_strs(v@.skip(i as int), url@) =~= Seq::<String>::empty());
        assert(v@.subrange(0, i as int) =~= v@);
        assert(v@.subrange(0, i as int) + spec_purge_strs(v@.skip(i as int), url@) =~= v@);
    }
}

fn find_entry(es: &Vec<CacheEntry>, url: &String) -> (r: Option<usize>)
    ensures
        match r {
            Some(i) => i < es@.len() && spec_lookup_entry(es@, url@) == Some(es@[i as int])
                && i as int == spec_find_entry_at(es@, url@),
            None => spec_lookup_entry(es@, url@) is None,
        },
{
    let mut i: usize = 0;
    proof {
        assert(es@.skip(0) =~= es@);
    }
    while i < es.len()
        invariant
            i <= es@.len(),
            spec_lookup_entry(es@, url@) == spec_lookup_entry(es@.skip(i as int), url@),
            spec_find_entry_at(es@, url@) == i + spec_find_entry_at(es@.skip(i as int), url@),
        decreases es@.len() - i,
    {
        proof {
            assert(es@.skip(i as int)[0] == es@[i as int]);
            assert(es@.skip(i as int).drop_first() =~= es@.skip(i + 1));
        }
        if es[i].url == *url {
            return Some(i);
        }
        i = i + 1;
    }
    None
}

fn find_err(es: &Vec<(String, u64)>, url: &String) -> (r: Option<u64>)
    ensures
        match r {
            Some(t) => spec_lookup_err(es@, url@) == Some(t),
            None => spec_lookup_err(es@, url@) is None,
        },
{
    let mut i: usize = 0;
    proof {
        assert(es@.skip(0) =~= es@);
    }
    while i < es.len()
        invariant
            i <= es@.len(),
            spec_lookup_err(es@, url@) == spec_lookup_err(es@.skip(i as int), url@),
        decreases es@.len() - i,
    {
        proof {
            assert(es@.skip(i as int)[0] == es@[i as int]);
            assert(es@.skip(i as int).drop_first() =~= es@.skip(i + 1));
        }
        if es[i].0 == *url {
            return Some(es[i].1);
        }
        i = i + 1;
    }
    None
}

impl SchemaCache {
    /// An empty cache with the configured bounds.
    pub fn new(config: &ServerConfig) -> (r: Self)
        ensures
            r@.entries.len() == 0,
            r@.errors.len() == 0,
            r@.in_flight.len() == 0,
            r@.ttl_secs == config.schema_ttl_secs,
            r@.capacity == config.schema_cache_capacity,
    {
        SchemaCache {
            entries: Vec::new(),
            errors: Vec::new(),
            in_flight: Vec::new(),
            ttl_secs: config.schema_ttl_secs,
            capacity: config.schema_cache_capacity,
        }
    }

    /// Ask for a URL at time `now`: the decision and state move exactly as
    /// the model prescribes.
    pub fn begin_get(&mut self, url: &String, now: u64) -> (r: FetchDecision)
        ensures
            final(self)@ == spec_begin_get(old(self)@, *url, now).0,
            decision_matches(r, spec_begin_get(old(self)@, *url, now).1),
    {
        match find_err(&self.errors, url) {
            Some(t) => {
                if now < t || now - t < ERROR_RETRY_SECS {
                    return FetchDecision::Cooldown;
                }
            },
            None => (),
        }
        purge_errs_in(&mut self.errors, url);
        match find_entry(&self.entries, url) {
            Some(i) => {
                let fresh = now < self.entries[i].stored_at || now - self.entries[i].stored_at
                    < self.ttl_secs;
                if fresh {
                    let e = self.entries.remove(i);
                    let out = crate::json::clone_json(&e.schema);
                    self.entries.push(e);
                    return FetchDecision::Cached(out);
                }
                purge_entries_in(&mut self.entries, url);
            },
            None => (),
        }
        if contains_str_vec(&self.in_flight, url) {
            FetchDecision::InFlight
        } else {
            self.in_flight.push(url.clone());
            FetchDecision::StartLoad
        }
    }

    /// Record a successful load of `url` at `now`.
    pub fn finish_load_ok(&mut self, url: &String, schema: JsonValue, now: u64)
        ensures
            final(self)@ == spec_finish_load_ok(old(self)@, *url, schema, now),
    {
        purge_strs_in(&mut self.in_flight, url);
        purge_entries_in(&mut self.entries, url);
        self.entries.push(CacheEntry { url: url.clone(), schema, stored_at: now });
        while (self.entries.len() as u64) > self.capacity
            invariant
                self.capacity == old(self)@.capacity,
                self.ttl_secs == old(self)@.ttl_secs,
                self.errors@ == old(self)@.errors,
                self.in_flight@ == spec_purge_strs(old(self)@.in_flight, url@),
                spec_evict(self.entries@, self.capacity) == spec_finish_load_ok(
                    old(self)@,
                    *url,
                    schema,
                    now,
                ).entries,
            decreases self.entries@.len(),
        {
            let ghost before = self.entries@;
            self.entries.remove(0);
            proof {
                assert(self.entries@ =~= before.drop_first());
            }
        }
        proof {
            assert(spec_evict(self.entries@, self.capacity) == self.entries@);
        }
    }

    /// Record a failed load of `url` at `now`: the cooldown starts.
    pub fn finish_load_err(&mut self, url: &String, now: u64)
        ensures
            final(self)@ == spec_finish_load_err(old(self)@, *url, now),
    {
        purge_strs_in(&mut self.in_flight, url);
        purge_errs_in(&mut self.errors, url);
        self.errors.push((url.clone(), now));
    }

    /// Drop a URL from the positive and the negative cache.
    pub fn invalidate(&mut self, url: &String)
        ensures
            final(self)@ == spec_invalidate(old(self)@, url@),
    {
        purge_entries_in(&mut self.entries, url);
        purge_errs_in(&mut self.errors, url);
    }
}

fn contains_str_vec(v: &Vec<String>, x: &String) -> (b: bool)
    ensures
        b == seq_contains_str(strs_view(v@), x@),
{
    let mut i: usize = 0;
    while i < v.len()
        invariant
            i <= v@.len(),
            forall|k: int| 0 <= k < i ==> strs_view(v@)[k] != x@,
        decreases v@.len() - i,
    {
        proof {
            assert(strs_view(v@)[i as int] == v@[i as int]@);
        }
        if v[i] == *x {
            return true;
        }
        i = i + 1;
    }
    false
}

// ────────────────────────────────────────────────────────────
// Laws of the cache
// ────────────────────────────────────────────────────────────

/// After purging a URL, looking it up finds nothing.
pub proof fn lemma_purge_errs_lookup_none(es: Seq<(String, u64)>, u: Seq<char>)
    ensures
        spec_lookup_err(spec_purge_errs(es, u), u) is None,
    decreases es.len(),
{
    if es.len() > 0 {
        lemma_purge_errs_lookup_none(es.drop_first(), u);
        if es[0].0@ != u {
            let rest = spec_purge_errs(es.drop_first(), u);
            assert((seq![es[0]] + rest).drop_first() =~= rest);
        }
    }
}

pub proof fn lemma_purge_entries_lookup_none(es: Seq<CacheEntry>, u: Seq<char>)
    ensures
        spec_lookup_entry(spec_purge_entries(es, u), u) is None,
    decreases es.len(),
{
    if es.len() > 0 {
        lemma_purge_entries_lookup_none(es.drop_first(), u);
        if es[0].url@ != u {
            let rest = spec_purge_entries(es.drop_first(), u);
            assert((seq![es[0]] + rest).drop_first() =~= rest);
        }
    }
}

/// Purging a URL that is not recorded changes nothing.
pub proof fn lemma_purge_errs_identity(es: Seq<(String, u64)>, u: Seq<char>)
    requires
        spec_lookup_err(es, u) is None,
    ensures
        spec_purge_errs(es, u) =~= es,
    decreases es.len(),
{
    if es.len() > 0 {
        lemma_purge_errs_identity(es.drop_first(), u);
        assert(seq![es[0]] + es.drop_first() =~= es);
    }
}

pub proof fn lemma_purge_entries_identity(es: Seq<CacheEntry>, u: Seq<char>)
    requires
        spec_lookup_entry(es, u) is None,
    ensures
        spec_purge_entries(es, u) =~= es,
    decreases es.len(),
{
    if es.len() > 0 {
        lemma_purge_entries_identity(es.drop_first(), u);
        assert(seq![es[0]] + es.drop_first() =~= es);
    }
}

/// Looking an error up after recording one: the fresh record is found when
/// no earlier one stands.
pub proof fn lemma_lookup_err_push(es: Seq<(String, u64)>, p: (String, u64), u: Seq<char>)
    ensures
        spec_lookup_err(es.push(p), u) == (match spec_lookup_err(es, u) {
            Some(t) => Some(t),
            None => if p.0@ == u {
                Some(p.1)
            } else {
                None
            },
        }),
    decreases es.len(),
{
    if es.len() == 0 {
        assert(es.push(p)[0] == p);
        assert(es.push(p).drop_first() =~= Seq::<(String, u64)>::empty());
        assert(spec_lookup_err(es.push(p).drop_first(), u) is None);
    } else {
        assert(es.push(p)[0] == es[0]);
        assert(es.push(p).drop_first() =~= es.drop_first().push(p));
        lemma_lookup_err_push(es.drop_first(), p, u);
    }
}

/// Only the latest load runs (single flight): once a caller has been told to
/// start the load for a URL, every further call for that URL, at any time
/// before the load finishes, is told to wait for it, and the cache does not
/// move. So for any number of concurrent callers, exactly one load runs.
pub proof fn lemma_single_flight(m: CacheModel, url: String, url2: String, now: u64, now2: u64)
    requires
        url2@ == url@,
        spec_begin_get(m, url, now).1 is StartLoad,
    ensures
        spec_begin_get(spec_begin_get(m, url, now).0, url2, now2).1 is InFlight,
        spec_begin_get(spec_begin_get(m, url, now).0, url2, now2).0 == spec_begin_get(
            m,
            url,
            now,
        ).0,
{
    let m1 = spec_begin_get(m, url, now).0;
    lemma_purge_errs_lookup_none(m.errors, url@);
    lemma_purge_entries_lookup_none(m.entries, url@);
    assert(spec_lookup_err(m1.errors, url2@) is None);
    lemma_purge_errs_identity(m1.errors, url2@);
    assert(spec_lookup_entry(m1.entries, url2@) is None) by {
        if spec_lookup_entry(m.entries, url@) is Some {
        } else {
            lemma_purge_entries_identity(m.entries, url@);
        }
    }
    assert(seq_contains_str(strs_view(m1.in_flight), url2@)) by {
        let k = m1.in_flight.len() - 1;
        assert(strs_view(m1.in_flight)[k] == url@);
    }
}

/// A failed load blocks retries (negative cache): after a load of a URL
/// fails, every call within the cooldown window gets the cooldown verdict at
/// once, without a load starting, and the cache does not move.
pub proof fn lemma_cooldown_fails_fast(
    m: CacheModel,
    url: String,
    url2: String,
    tfail: u64,
    now: u64,
)
    requires
        url2@ == url@,
        now < tfail + ERROR_RETRY_SECS,
    ensures
        spec_begin_get(spec_finish_load_err(m, url, tfail), url2, now).1 is Cooldown,
        spec_begin_get(spec_finish_load_err(m, url, tfail), url2, now).0 == spec_finish_load_err(
            m,
            url,
            tfail,
        ),
{
    let m1 = spec_finish_load_err(m, url, tfail);
    lemma_purge_errs_lookup_none(m.errors, url@);
    lemma_lookup_err_push(spec_purge_errs(m.errors, url@), (url, tfail), url@);
    assert(spec_lookup_err(m1.errors, url2@) == Some(tfail));
}

/// After purging a URL from the in-flight list it is no longer in flight.
pub proof fn lemma_purge_strs_not_contains(es: Seq<String>, u: Seq<char>)
    ensures
        !seq_contains_str(strs_view(spec_purge_strs(es, u)), u),
    decreases es.len(),
{
    if es.len() > 0 {
        lemma_purge_strs_not_contains(es.drop_first(), u);
        if es[0]@ != u {
            let rest = spec_purge_strs(es.drop_first(), u);
            let whole = seq![es[0]] + rest;
            assert forall|i: int| 0 <= i < whole.len() implies strs_view(whole)[i] != u by {
                if i > 0 {
                    assert(whole[i] == rest[i - 1]);
                    assert(strs_view(rest)[i - 1] != u);
                }
            }
        }
    }
}

/// After the cooldown has expired, the next call clears the failure record
/// and retries: with nothing cached it starts the load anew.
pub proof fn lemma_cooldown_expires(m: CacheModel, url: String, url2: String, tfail: u64, now: u64)
    requires
        url2@ == url@,
        now >= tfail + ERROR_RETRY_SECS,
        spec_lookup_entry(m.entries, url@) is None,
        !seq_contains_str(strs_view(m.in_flight), url@),
    ensures
        spec_begin_get(spec_finish_load_err(m, url, tfail), url2, now).1 is StartLoad,
{
    let m1 = spec_finish_load_err(m, url, tfail);
    lemma_purge_errs_lookup_none(m.errors, url@);
    lemma_lookup_err_push(spec_purge_errs(m.errors, url@), (url, tfail), url@);
    assert(spec_lookup_err(m1.errors, url2@) == Some(tfail));
    assert(!spec_cooldown_active(m1, url2@, now));
    lemma_purge_strs_not_contains(m.in_flight, url@);
}

} // verus!
