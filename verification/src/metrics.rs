//! The metric handle cache: maps a composite key (metric kind, logical
//! name, service identifier, route identifier) to the opaque numeric handle
//! the host returned when the metric was first registered. The cache only
//! grows, and at most one registration is made per distinct key: a hit is
//! served from the cache, a miss hands the caller the exact string to
//! register under, and the registration's outcome is stored once known. A
//! failed registration collapses to the sentinel handle `0`, the no-op
//! metric: metric failures never block header transformation.

use vstd::prelude::*;
use vstd::string::StringExecFns;

verus! {

/// The kind of a metric: a monotone counter or a latency histogram.
#[derive(Clone, Copy, PartialEq, Eq, Structural, Debug)]
pub enum MetricKind {
    Counter,
    Histogram,
}

/// The mathematical value of a metric key:
/// `(kind, name, service identifier, route identifier)`.
pub type MetricKeyView = (MetricKind, Seq<char>, Seq<char>, Seq<char>);

/// The composite key a metric handle is cached under.
pub struct MetricKey {
    pub kind: MetricKind,
    pub name: String,
    pub service_id: String,
    pub route_id: String,
}

impl View for MetricKey {
    type V = MetricKeyView;

    open spec fn view(&self) -> MetricKeyView {
        (self.kind, self.name@, self.service_id@, self.route_id@)
    }
}

impl MetricKey {
    /// The key of the counter `name`, scoped by the two dimension tags.
    pub fn counter(name: &String, service_id: &String, route_id: &String) -> (k: MetricKey)
        ensures
            k@ == (MetricKind::Counter, name@, service_id@, route_id@),
    {
        MetricKey {
            kind: MetricKind::Counter,
            name: name.clone(),
            service_id: service_id.clone(),
            route_id: route_id.clone(),
        }
    }

    /// The key of the histogram `name`, scoped by the two dimension tags.
    pub fn histogram(name: &String, service_id: &String, route_id: &String) -> (k: MetricKey)
        ensures
            k@ == (MetricKind::Histogram, name@, service_id@, route_id@),
    {
        MetricKey {
            kind: MetricKind::Histogram,
            name: name.clone(),
            service_id: service_id.clone(),
            route_id: route_id.clone(),
        }
    }

    /// The string the metric is registered under on a cache miss:
    /// the name and the two dimension tags joined by fixed separators.
    pub fn registration_key(&self) -> (r: String)
        ensures
            r@ == self.name@ + "_s_id="@ + self.service_id@ + "_r_id="@ + self.route_id@,
    {
        let mut s = String::new();
        s.append(self.name.as_str());
        s.append("_s_id=");
        s.append(self.service_id.as_str());
        s.append("_r_id=");
        s.append(self.route_id.as_str());
        proof {
            assert(s@ =~= self.name@ + "_s_id="@ + self.service_id@ + "_r_id="@
                + self.route_id@);
        }
        s
    }

    /// Whether two keys name the same metric dimension tuple.
    pub fn same_key(&self, other: &MetricKey) -> (r: bool)
        ensures
            r == (self@ == other@),
    {
        self.kind == other.kind && self.name == other.name && self.service_id == other.service_id
            && self.route_id == other.route_id
    }
}

/// The mapping a cache's entry list stands for: later entries win, though
/// a well-formed cache never holds two entries for one key.
pub open spec fn cache_map(s: Seq<(MetricKey, u32)>) -> Map<MetricKeyView, u32>
    decreases s.len(),
{
    if s.len() == 0 {
        Map::empty()
    } else {
        cache_map(s.drop_last()).insert(s.last().0@, s.last().1)
    }
}

/// A key is in the mapping exactly when some entry carries it.
proof fn lemma_cache_map_contains(s: Seq<(MetricKey, u32)>, k: MetricKeyView)
    ensures
        cache_map(s).contains_key(k) <==> exists|i: int| 0 <= i < s.len() && s[i].0@ == k,
    decreases s.len(),
{
    if s.len() == 0 {
    } else {
        lemma_cache_map_contains(s.drop_last(), k);
        assert(forall|i: int| 0 <= i < s.drop_last().len() ==> s.drop_last()[i] == s[i]);
        if s.last().0@ == k {
            assert(s[s.len() - 1].0@ == k);
        } else {
            if cache_map(s).contains_key(k) {
                let i = choose|i: int| 0 <= i < s.drop_last().len() && s.drop_last()[i].0@ == k;
                assert(s[i].0@ == k);
            }
            if exists|i: int| 0 <= i < s.len() && s[i].0@ == k {
                let i = choose|i: int| 0 <= i < s.len() && s[i].0@ == k;
                assert(i < s.len() - 1);
                assert(s.drop_last()[i].0@ == k);
            }
        }
    }
}

/// With no two entries sharing a key, the mapping sends each entry's key to
/// that entry's handle.
proof fn lemma_cache_map_value(s: Seq<(MetricKey, u32)>, i: int)
    requires
        0 <= i < s.len(),
        forall|p: int, q: int| 0 <= p < q < s.len() ==> s[p].0@ != s[q].0@,
    ensures
        cache_map(s)[s[i].0@] == s[i].1,
    decreases s.len(),
{
    assert(forall|j: int| 0 <= j < s.drop_last().len() ==> s.drop_last()[j] == s[j]);
    if i == s.len() - 1 {
    } else {
        lemma_cache_map_value(s.drop_last(), i);
        assert(s[i].0@ != s[s.len() - 1].0@);
    }
}

/// The process-wide metric handle cache. It is created empty at process
/// start, only grows, and holds at most one entry per distinct key.
pub struct Metrics {
    entries: Vec<(MetricKey, u32)>,
}

impl View for Metrics {
    type V = Map<MetricKeyView, u32>;

    closed spec fn view(&self) -> Map<MetricKeyView, u32> {
        cache_map(self.entries@)
    }
}

impl Metrics {
    /// No two entries share a key, so each lookup has one answer and at
    /// most one registration is ever made per key.
    pub closed spec fn wf(&self) -> bool {
        forall|p: int, q: int|
            0 <= p < q < self.entries@.len() ==> self.entries@[p].0@ != self.entries@[q].0@
    }

    /// The empty cache.
    pub fn new() -> (r: Metrics)
        ensures
            r@ == Map::<MetricKeyView, u32>::empty(),
            r.wf(),
    {
        let r = Metrics { entries: Vec::new() };
        proof {
            assert(r.entries@.len() == 0);
        }
        r
    }

    /// Looks the key up: the cached handle when the key was registered
    /// before, and nothing otherwise — in that case the caller registers
    /// the metric with the host and stores the outcome.
    pub fn lookup(&self, key: &MetricKey) -> (r: Option<u32>)
        requires
            self.wf(),
        ensures
            match r {
                Some(h) => self@.contains_key(key@) && self@[key@] == h,
                None => !self@.contains_key(key@),
            },
    {
        let n = self.entries.len();
        let mut i: usize = 0;
        while i < n
            invariant
                i <= n,
                n == self.entries@.len(),
                self.wf(),
                forall|j: int| 0 <= j < i ==> self.entries@[j].0@ != key@,
            decreases n - i,
        {
            if self.entries[i].0.same_key(key) {
                proof {
                    lemma_cache_map_value(self.entries@, i as int);
                    lemma_cache_map_contains(self.entries@, key@);
                    assert(self.entries@[i as int].0@ == key@);
                }
                return Some(self.entries[i].1);
            }
            i += 1;
        }
        proof {
            lemma_cache_map_contains(self.entries@, key@);
        }
        None
    }

    /// Stores the outcome of the single registration made for a key not in
    /// the cache. A successful registration's handle is cached and
    /// returned; a declined one collapses to the sentinel handle `0`, the
    /// no-op metric, and is not cached, so the transformation proceeds
    /// unaffected either way.
    pub fn store_registration(&mut self, key: MetricKey, outcome: Option<u32>) -> (h: u32)
        requires
            old(self).wf(),
            !old(self)@.contains_key(key@),
        ensures
            final(self).wf(),
            match outcome {
                Some(handle) => h == handle && final(self)@ == old(self)@.insert(key@, handle),
                None => h == 0 && final(self)@ == old(self)@,
            },
    {
        match outcome {
            Some(handle) => {
                proof {
                    lemma_cache_map_contains(self.entries@, key@);
                }
                let ghost orig = self.entries@;
                self.entries.push((key, handle));
                proof {
                    assert(self.entries@.drop_last() =~= orig);
                    assert(forall|j: int| 0 <= j < orig.len() ==> orig[j].0@ != self.entries@[
                        orig.len() as int].0@);
                }
                handle
            },
            None => 0,
        }
    }
}

/// Resolving the same key a second time is served from the cache: once a
/// successful registration for a key is stored, the cache maps that key to
/// the stored handle, and no other key's entry is created, dropped or
/// changed — so distinct keys never collapse into one cache entry.
pub proof fn lemma_second_resolve_is_cached(
    m: Map<MetricKeyView, u32>,
    k: MetricKeyView,
    h: u32,
    other: MetricKeyView,
)
    requires
        other != k,
    ensures
        m.insert(k, h).contains_key(k),
        m.insert(k, h)[k] == h,
        m.insert(k, h).contains_key(other) == m.contains_key(other),
        m.contains_key(other) ==> m.insert(k, h)[other] == m[other],
{
}

} // verus!
