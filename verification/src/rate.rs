//! Per-source token buckets.
//!
//! A table holds at most one bucket per source. Stale buckets are pruned once
//! there are more than [`PRUNE_ABOVE`], and at the hard cap the stalest bucket
//! makes room for that of a new source, so that a flood from forged sources
//! cannot grow the table.
use crate::net::PeerAddr;
use crate::time::{at_least, elapsed, not_before, Duration, Instant};
use vstd::prelude::*;

verus! {

/// Tables up to this size are not pruned.
pub const PRUNE_ABOVE: usize = 32;

/// The bucket of one source.
#[derive(Debug, Clone, Copy)]
pub struct Bucket {
    pub addr: PeerAddr,
    pub tokens: u32,
    pub last_refill: Instant,
}

/// Parameters of a table.
#[derive(Debug, Clone, Copy)]
pub struct BucketLimits {
    /// Tokens of a full bucket.
    pub burst: u32,
    /// Time after which a bucket is full again.
    pub window: Duration,
    /// Most buckets.
    pub cap: usize,
}

/// A bucket that was refilled less than a window ago.
pub open spec fn is_fresh(now: Instant, window: Duration) -> spec_fn(Bucket) -> bool {
    |b: Bucket| elapsed(now, b.last_refill) < window.nanos()
}

/// No source has two buckets.
pub open spec fn distinct(s: Seq<Bucket>) -> bool {
    forall|i: int, j: int| 0 <= i < j < s.len() ==> #[trigger] s[i].addr != #[trigger] s[j].addr
}

/// Whether a source has a bucket.
pub open spec fn has_bucket(s: Seq<Bucket>, addr: PeerAddr) -> bool {
    exists|i: int| 0 <= i < s.len() && #[trigger] s[i].addr == addr
}

/// Index of the first bucket of a source; the length if it has none.
pub open spec fn slot(s: Seq<Bucket>, addr: PeerAddr) -> int
    decreases s.len(),
{
    if s.len() == 0 {
        0
    } else {
        let k = slot(s.drop_last(), addr);
        if k < s.len() - 1 || s.last().addr == addr {
            k
        } else {
            s.len() as int
        }
    }
}

/// Index of the first bucket that was refilled earliest.
pub open spec fn stalest(s: Seq<Bucket>) -> int
    decreases s.len(),
{
    if s.len() <= 1 {
        0
    } else {
        let k = stalest(s.drop_last());
        if s.last().last_refill.nanos() < s[k].last_refill.nanos() {
            s.len() - 1
        } else {
            k
        }
    }
}

/// The table without stale buckets, if it is large.
pub open spec fn pruned(s: Seq<Bucket>, now: Instant, window: Duration) -> Seq<Bucket> {
    if s.len() > PRUNE_ABOVE {
        s.filter(is_fresh(now, window))
    } else {
        s
    }
}

/// The table with room for a bucket of `addr`: at the cap, a source that has no
/// bucket yet takes the place of the stalest one.
pub open spec fn with_room(s: Seq<Bucket>, addr: PeerAddr, cap: usize) -> Seq<Bucket> {
    if s.len() >= cap && s.len() > 0 && !has_bucket(s, addr) {
        s.remove(stalest(s))
    } else {
        s
    }
}

/// Making room for a bucket of `addr` at `now` evicts the bucket of `other`.
pub open spec fn evicts(
    s: Seq<Bucket>,
    addr: PeerAddr,
    other: PeerAddr,
    now: Instant,
    l: BucketLimits,
) -> bool {
    let p = pruned(s, now, l.window);
    &&& p.len() >= l.cap
    &&& p.len() > 0
    &&& !has_bucket(p, addr)
    &&& p[stalest(p)].addr == other
}

/// The table with a bucket for `addr`, a full one if it had none.
pub open spec fn with_bucket(s: Seq<Bucket>, addr: PeerAddr, now: Instant, burst: u32) -> Seq<
    Bucket,
> {
    if has_bucket(s, addr) {
        s
    } else {
        s.push(Bucket { addr, tokens: burst, last_refill: now })
    }
}

/// The table with the bucket of `addr` full again, if its window is over.
pub open spec fn refilled(s: Seq<Bucket>, addr: PeerAddr, now: Instant, l: BucketLimits) -> Seq<
    Bucket,
> {
    let k = slot(s, addr);
    if elapsed(now, s[k].last_refill) >= l.window.nanos() {
        s.update(k, Bucket { addr, tokens: l.burst, last_refill: now })
    } else {
        s
    }
}

/// The table once the bucket of `addr` is ready for use at `now`.
pub open spec fn touched(s: Seq<Bucket>, addr: PeerAddr, now: Instant, l: BucketLimits) -> Seq<
    Bucket,
> {
    refilled(
        with_bucket(with_room(pruned(s, now, l.window), addr, l.cap), addr, now, l.burst),
        addr,
        now,
        l,
    )
}

/// Tokens that `addr` has at `now`.
pub open spec fn tokens_at(s: Seq<Bucket>, addr: PeerAddr, now: Instant, l: BucketLimits) -> u32 {
    let t = touched(s, addr, now, l);
    t[slot(t, addr)].tokens
}

/// The table with one token of `addr` less; unchanged if it has none.
pub open spec fn spent(s: Seq<Bucket>, addr: PeerAddr) -> Seq<Bucket> {
    let k = slot(s, addr);
    if has_bucket(s, addr) && s[k].tokens > 0 {
        s.update(k, Bucket { tokens: (s[k].tokens - 1) as u32, ..s[k] })
    } else {
        s
    }
}

proof fn lemma_slot(s: Seq<Bucket>, addr: PeerAddr)
    ensures
        0 <= slot(s, addr) <= s.len(),
        slot(s, addr) < s.len() ==> s[slot(s, addr)].addr == addr,
        forall|j: int| 0 <= j < slot(s, addr) ==> #[trigger] s[j].addr != addr,
        has_bucket(s, addr) <==> slot(s, addr) < s.len(),
    decreases s.len(),
{
    if s.len() > 0 {
        let t = s.drop_last();
        lemma_slot(t, addr);
        assert(forall|j: int| 0 <= j < t.len() ==> t[j] == s[j]);
        let k = slot(s, addr);
        assert(forall|j: int| 0 <= j < k && j < t.len() ==> #[trigger] s[j].addr != addr) by {
            assert forall|j: int| 0 <= j < k && j < t.len() implies #[trigger] s[j].addr != addr by {
                assert(t[j].addr != addr);
            }
        }
        if k < s.len() {
            assert(s[k].addr == addr);
        }
    }
}

proof fn lemma_stalest(s: Seq<Bucket>)
    requires
        s.len() > 0,
    ensures
        0 <= stalest(s) < s.len(),
        forall|j: int|
            0 <= j < s.len() ==> s[stalest(s)].last_refill.nanos()
                <= #[trigger] s[j].last_refill.nanos(),
    decreases s.len(),
{
    if s.len() > 1 {
        let t = s.drop_last();
        lemma_stalest(t);
        assert forall|j: int| 0 <= j < s.len() implies s[stalest(s)].last_refill.nanos()
            <= #[trigger] s[j].last_refill.nanos() by {
            if j < t.len() {
                assert(t[j] == s[j]);
            }
        }
    }
}

proof fn lemma_filter_distinct(s: Seq<Bucket>, p: spec_fn(Bucket) -> bool)
    requires
        distinct(s),
    ensures
        distinct(s.filter(p)),
        s.filter(p).len() <= s.len(),
        forall|i: int|
            0 <= i < s.filter(p).len() ==> has_bucket(s, #[trigger] s.filter(p)[i].addr),
    decreases s.len(),
{
    reveal(Seq::filter);
    if s.len() > 0 {
        let t = s.drop_last();
        lemma_filter_distinct(t, p);
        let f = t.filter(p);
        let g = s.filter(p);
        assert forall|i: int| 0 <= i < f.len() implies has_bucket(s, #[trigger] f[i].addr)
            && f[i].addr != s.last().addr by {
            let k = choose|k: int| 0 <= k < t.len() && #[trigger] t[k].addr == f[i].addr;
            assert(s[k].addr == f[i].addr);
            assert(s[k].addr != s[s.len() - 1].addr);
        }
        if p(s.last()) {
            assert(g == f.push(s.last()));
            assert(s[s.len() - 1].addr == s.last().addr);
            assert forall|i: int, j: int| 0 <= i < j < g.len() implies #[trigger] g[i].addr
                != #[trigger] g[j].addr by {
                if j < f.len() {
                    assert(f[i].addr != f[j].addr);
                } else {
                    assert(f[i].addr != s.last().addr);
                }
            }
        } else {
            assert(g == f);
        }
    }
}

/// Pruning and making room keep buckets as they are.
proof fn lemma_room(s: Seq<Bucket>, addr: PeerAddr, now: Instant, l: BucketLimits)
    requires
        distinct(s),
    ensures
        distinct(with_room(pruned(s, now, l.window), addr, l.cap)),
        with_room(pruned(s, now, l.window), addr, l.cap).len() <= s.len(),
        forall|x: Bucket| #[trigger]
            with_room(pruned(s, now, l.window), addr, l.cap).contains(x) ==> s.contains(x),
{
    let a = pruned(s, now, l.window);
    let f = is_fresh(now, l.window);
    lemma_filter_distinct(s, f);
    let b = with_room(a, addr, l.cap);
    if a.len() > 0 {
        lemma_stalest(a);
    }
    let k = stalest(a);
    let cut = a.len() >= l.cap && a.len() > 0 && !has_bucket(a, addr);
    assert forall|i: int, j: int| 0 <= i < j < b.len() implies #[trigger] b[i].addr
        != #[trigger] b[j].addr by {
        let i2 = if cut && i >= k {
            i + 1
        } else {
            i
        };
        let j2 = if cut && j >= k {
            j + 1
        } else {
            j
        };
        assert(a[i2].addr != a[j2].addr);
    }
    assert forall|x: Bucket| #[trigger] b.contains(x) implies s.contains(x) by {
        let i = choose|i: int| 0 <= i < b.len() && b[i] == x;
        let i2 = if cut && i >= k {
            i + 1
        } else {
            i
        };
        assert(a[i2] == x);
        assert(a.contains(x));
        if s.len() > PRUNE_ABOVE {
            s.lemma_filter_contains_rev(f, x);
        }
    }
}

/// A bucket whose window runs stays, unless it is evicted to make room.
proof fn lemma_kept(s: Seq<Bucket>, k: int, addr: PeerAddr, now: Instant, l: BucketLimits)
    requires
        distinct(s),
        0 <= k < s.len(),
        elapsed(now, s[k].last_refill) < l.window.nanos(),
        !evicts(s, addr, s[k].addr, now, l),
    ensures
        with_room(pruned(s, now, l.window), addr, l.cap).contains(s[k]),
{
    let a = pruned(s, now, l.window);
    let f = is_fresh(now, l.window);
    assert(f(s[k]));
    s.lemma_filter_contains(f, k);
    assert(a.contains(s[k]));
    let j = choose|j: int| 0 <= j < a.len() && a[j] == s[k];
    let b = with_room(a, addr, l.cap);
    if a.len() >= l.cap && !has_bucket(a, addr) {
        lemma_stalest(a);
        let m = stalest(a);
        assert(j != m);
        let i = if j > m {
            j - 1
        } else {
            j
        };
        assert(b[i] == s[k]);
    } else {
        assert(b[j] == s[k]);
    }
}

/// A source has no other bucket than the one in its slot.
proof fn lemma_slot_of(s: Seq<Bucket>, x: Bucket)
    requires
        distinct(s),
        s.contains(x),
    ensures
        has_bucket(s, x.addr),
        s[slot(s, x.addr)] == x,
{
    let i = choose|i: int| 0 <= i < s.len() && s[i] == x;
    assert(s[i].addr == x.addr);
    lemma_slot(s, x.addr);
    let k = slot(s, x.addr);
    if i != k {
        assert(s[k].addr == x.addr);
    }
}

proof fn lemma_touched(s: Seq<Bucket>, addr: PeerAddr, now: Instant, l: BucketLimits)
    requires
        distinct(s),
    ensures
        distinct(touched(s, addr, now, l)),
        has_bucket(touched(s, addr, now, l), addr),
        s.len() <= l.cap && l.cap >= 1 ==> touched(s, addr, now, l).len() <= l.cap,
        touched(s, addr, now, l).len() <= s.len() + 1,
{
    lemma_room(s, addr, now, l);
    let b = with_room(pruned(s, now, l.window), addr, l.cap);
    let c = with_bucket(b, addr, now, l.burst);
    lemma_slot(b, addr);
    if !has_bucket(b, addr) {
        assert(c[b.len() as int].addr == addr);
        assert(distinct(c)) by {
            assert forall|i: int, j: int| 0 <= i < j < c.len() implies #[trigger] c[i].addr
                != #[trigger] c[j].addr by {
                if j < b.len() {
                    assert(b[i].addr != b[j].addr);
                } else {
                    assert(b[i].addr != addr);
                }
            }
        }
    }
    lemma_slot(c, addr);
    let d = touched(s, addr, now, l);
    let k = slot(c, addr);
    assert(d[k].addr == addr);
    assert(forall|i: int| 0 <= i < d.len() ==> d[i].addr == c[i].addr);
    assert(distinct(d)) by {
        assert forall|i: int, j: int| 0 <= i < j < d.len() implies #[trigger] d[i].addr
            != #[trigger] d[j].addr by {
            assert(c[i].addr != c[j].addr);
        }
    }
    lemma_filter_distinct(s, is_fresh(now, l.window));
    if pruned(s, now, l.window).len() > 0 {
        lemma_stalest(pruned(s, now, l.window));
    }
}

/// A table never outgrows its cap, and no source ever has two buckets.
pub proof fn table_stays_capped(s: Seq<Bucket>, addr: PeerAddr, now: Instant, l: BucketLimits)
    requires
        distinct(s),
        1 <= l.cap,
        s.len() <= l.cap,
    ensures
        touched(s, addr, now, l).len() <= l.cap,
        spent(touched(s, addr, now, l), addr).len() <= l.cap,
        distinct(touched(s, addr, now, l)),
        distinct(spent(touched(s, addr, now, l), addr)),
{
    lemma_touched(s, addr, now, l);
    let t = touched(s, addr, now, l);
    lemma_slot(t, addr);
    let u = spent(t, addr);
    assert(forall|i: int| 0 <= i < u.len() ==> u[i].addr == t[i].addr);
    assert forall|i: int, j: int| 0 <= i < j < u.len() implies #[trigger] u[i].addr
        != #[trigger] u[j].addr by {
        assert(t[i].addr != t[j].addr);
    }
}

/// A source without tokens stays without tokens while its window runs, also in
/// a full table, and has a full bucket again once the window is over.
pub proof fn exhausted_source_waits_for_its_window(
    s: Seq<Bucket>,
    addr: PeerAddr,
    now: Instant,
    l: BucketLimits,
)
    requires
        distinct(s),
        has_bucket(s, addr),
        s[slot(s, addr)].tokens == 0,
    ensures
        elapsed(now, s[slot(s, addr)].last_refill) < l.window.nanos() ==> tokens_at(
            s,
            addr,
            now,
            l,
        ) == 0,
        elapsed(now, s[slot(s, addr)].last_refill) >= l.window.nanos() ==> tokens_at(
            s,
            addr,
            now,
            l,
        ) == l.burst,
{
    lemma_slot(s, addr);
    lemma_room(s, addr, now, l);
    lemma_touched(s, addr, now, l);
    let k = slot(s, addr);
    let b = with_room(pruned(s, now, l.window), addr, l.cap);
    let c = with_bucket(b, addr, now, l.burst);
    let t = touched(s, addr, now, l);
    lemma_slot(b, addr);
    lemma_slot(c, addr);
    lemma_same_slot(c, t, addr);
    if elapsed(now, s[k].last_refill) < l.window.nanos() {
        let p = pruned(s, now, l.window);
        s.lemma_filter_contains(is_fresh(now, l.window), k);
        assert(p.contains(s[k]));
        let m = choose|m: int| 0 <= m < p.len() && p[m] == s[k];
        assert(p[m].addr == addr);
        lemma_kept(s, k, addr, now, l);
        lemma_slot_of(b, s[k]);
    }
    if has_bucket(b, addr) {
        let x = b[slot(b, addr)];
        assert(b.contains(x));
        lemma_slot_of(s, x);
    }
}

/// Budgets are independent: using the bucket of one source never alters the
/// bucket of another one. That bucket can only go, when its window is over or
/// when a source without a bucket takes its place in a full table.
pub proof fn sources_are_independent(
    s: Seq<Bucket>,
    addr: PeerAddr,
    other: PeerAddr,
    now: Instant,
    l: BucketLimits,
)
    requires
        distinct(s),
        addr != other,
        has_bucket(s, other),
    ensures
        ({
            let t = spent(touched(s, addr, now, l), addr);
            if has_bucket(t, other) {
                t[slot(t, other)] == s[slot(s, other)]
            } else {
                elapsed(now, s[slot(s, other)].last_refill) >= l.window.nanos() || evicts(
                    s,
                    addr,
                    other,
                    now,
                    l,
                )
            }
        }),
{
    lemma_slot(s, other);
    lemma_room(s, addr, now, l);
    lemma_touched(s, addr, now, l);
    table_stays_distinct(s, addr, now, l);
    let k = slot(s, other);
    let b = with_room(pruned(s, now, l.window), addr, l.cap);
    let c = with_bucket(b, addr, now, l.burst);
    lemma_slot(c, addr);
    let u = touched(s, addr, now, l);
    lemma_slot(u, addr);
    let t = spent(u, addr);
    lemma_slot(t, other);
    if has_bucket(t, other) {
        let m = slot(t, other);
        assert(t[m] == u[m] && u[m] == c[m] && c[m] == b[m]);
        assert(b.contains(b[m]));
        lemma_slot_of(s, b[m]);
    } else if elapsed(now, s[k].last_refill) < l.window.nanos() && !evicts(
        s,
        addr,
        other,
        now,
        l,
    ) {
        lemma_kept(s, k, addr, now, l);
        let m = choose|m: int| 0 <= m < b.len() && b[m] == s[k];
        assert(c[m] == b[m] && u[m] == c[m] && t[m] == u[m]);
        assert(t[m].addr == other);
    }
}

/// Spending a token keeps every source and its place.
pub proof fn spending_keeps_sources(s: Seq<Bucket>, addr: PeerAddr)
    requires
        distinct(s),
    ensures
        distinct(spent(s, addr)),
        spent(s, addr).len() == s.len(),
        forall|i: int| 0 <= i < s.len() ==> (#[trigger] spent(s, addr)[i]).addr == s[i].addr,
{
    lemma_slot(s, addr);
    let u = spent(s, addr);
    assert forall|i: int, j: int| 0 <= i < j < u.len() implies #[trigger] u[i].addr
        != #[trigger] u[j].addr by {
        assert(s[i].addr != s[j].addr);
    }
}

proof fn table_stays_distinct(s: Seq<Bucket>, addr: PeerAddr, now: Instant, l: BucketLimits)
    requires
        distinct(s),
    ensures
        distinct(spent(touched(s, addr, now, l), addr)),
{
    lemma_touched(s, addr, now, l);
    let t = touched(s, addr, now, l);
    lemma_slot(t, addr);
    let u = spent(t, addr);
    assert(forall|i: int| 0 <= i < u.len() ==> u[i].addr == t[i].addr);
    assert forall|i: int, j: int| 0 <= i < j < u.len() implies #[trigger] u[i].addr
        != #[trigger] u[j].addr by {
        assert(t[i].addr != t[j].addr);
    }
}

/// The slot of a source depends on the addresses alone.
proof fn lemma_same_slot(s: Seq<Bucket>, t: Seq<Bucket>, addr: PeerAddr)
    requires
        s.len() == t.len(),
        forall|i: int| 0 <= i < s.len() ==> #[trigger] s[i].addr == t[i].addr,
    ensures
        slot(s, addr) == slot(t, addr),
        has_bucket(s, addr) == has_bucket(t, addr),
{
    lemma_slot(s, addr);
    lemma_slot(t, addr);
    let (a, b) = (slot(s, addr), slot(t, addr));
    if a < b {
        assert(s[a].addr == t[a].addr);
    } else if b < a {
        assert(s[b].addr == t[b].addr);
    }
}

/// A table of buckets.
#[derive(Debug)]
pub struct BucketTable {
    buckets: Vec<Bucket>,
}

impl View for BucketTable {
    type V = Seq<Bucket>;

    closed spec fn view(&self) -> Seq<Bucket> {
        self.buckets@
    }
}

impl BucketTable {
    pub fn new() -> (r: Self)
        ensures
            r@ == Seq::<Bucket>::empty(),
    {
        BucketTable { buckets: Vec::new() }
    }

    pub fn len(&self) -> (r: usize)
        ensures
            r == self@.len(),
    {
        self.buckets.len()
    }

    fn prune(&mut self, now: Instant, window: Duration)
        ensures
            final(self)@ == pruned(old(self)@, now, window),
    {
        let n: usize = self.buckets.len();
        if n <= PRUNE_ABOVE {
            return;
        }
        let ghost all = self.buckets@;
        let ghost p = is_fresh(now, window);
        let mut k: usize = 0;
        let mut i: usize = 0;
        assert(all.subrange(0, 0).filter(p) =~= Seq::empty()) by {
            reveal(Seq::filter);
        }
        assert(self.buckets@ =~= all.subrange(0, 0).filter(p) + all.subrange(0, n as int));
        while k < n
            invariant
                k <= n,
                n == all.len(),
                p == is_fresh(now, window),
                i == all.subrange(0, k as int).filter(p).len(),
                self.buckets@ == all.subrange(0, k as int).filter(p) + all.subrange(
                    k as int,
                    n as int,
                ),
            decreases n - k,
        {
            let ghost kept = all.subrange(0, k as int).filter(p);
            let ghost rest = all.subrange(k as int, n as int);
            assert(self.buckets@[i as int] == rest[0]);
            let b: Bucket = self.buckets[i];
            let fresh: bool = !at_least(now.duration_since(b.last_refill), window);
            proof {
                assert(all.subrange(0, k + 1).drop_last() =~= all.subrange(0, k as int));
                reveal(Seq::filter);
                assert(all.subrange(k + 1, n as int) =~= rest.subrange(1, rest.len() as int));
            }
            if fresh {
                i += 1;
                proof {
                    assert(self.buckets@ =~= kept.push(b) + all.subrange(k + 1, n as int));
                }
            } else {
                self.buckets.remove(i);
                proof {
                    assert(self.buckets@ =~= kept + all.subrange(k + 1, n as int));
                }
            }
            k += 1;
        }
        assert(all.subrange(0, n as int) =~= all);
        assert(self.buckets@ =~= all.filter(p));
    }

    fn make_room(&mut self, addr: PeerAddr, cap: usize)
        ensures
            final(self)@ == with_room(old(self)@, addr, cap),
    {
        let n: usize = self.buckets.len();
        if n < cap || n == 0 || self.find(addr) < n {
            return;
        }
        let mut best: usize = 0;
        let mut i: usize = 1;
        proof {
            assert(self@.subrange(0, 1).len() == 1);
        }
        while i < n
            invariant
                1 <= i <= n,
                n == self@.len(),
                best < i,
                best == stalest(self@.subrange(0, i as int)),
            decreases n - i,
        {
            let ghost t = self@.subrange(0, i + 1);
            proof {
                assert(t.drop_last() =~= self@.subrange(0, i as int));
                assert(t.last() == self@[i as int]);
                assert(t[best as int] == self@[best as int]);
            }
            if !not_before(self.buckets[i].last_refill, self.buckets[best].last_refill) {
                best = i;
            }
            i += 1;
        }
        assert(self@.subrange(0, n as int) =~= self@);
        self.buckets.remove(best);
    }

    /// Index of the bucket of a source, the length if it has none.
    fn find(&self, addr: PeerAddr) -> (r: usize)
        ensures
            r == slot(self@, addr),
            r <= self@.len(),
            has_bucket(self@, addr) <==> r < self@.len(),
            r < self@.len() ==> self@[r as int].addr == addr,
    {
        proof {
            lemma_slot(self@, addr);
        }
        let mut i: usize = 0;
        while i < self.buckets.len()
            invariant
                i <= self@.len(),
                forall|j: int| 0 <= j < i ==> #[trigger] self@[j].addr != addr,
            decreases self@.len() - i,
        {
            if self.buckets[i].addr == addr {
                proof {
                    lemma_slot(self@, addr);
                    assert(self@[i as int].addr == addr);
                }
                return i;
            }
            i += 1;
        }
        proof {
            lemma_slot(self@, addr);
        }
        i
    }

    /// Makes the bucket of `addr` ready for use and gives its index.
    fn touch(&mut self, addr: PeerAddr, now: Instant, l: &BucketLimits) -> (r: usize)
        requires
            distinct(old(self)@),
        ensures
            final(self)@ == touched(old(self)@, addr, now, *l),
            distinct(final(self)@),
            r == slot(final(self)@, addr),
            r < final(self)@.len(),
            final(self)@[r as int].addr == addr,
    {
        proof {
            lemma_touched(self@, addr, now, *l);
            lemma_slot(touched(self@, addr, now, *l), addr);
        }
        self.prune(now, l.window);
        self.make_room(addr, l.cap);
        let mut k: usize = self.find(addr);
        if k == self.buckets.len() {
            self.buckets.push(Bucket { addr, tokens: l.burst, last_refill: now });
            proof {
                lemma_slot(self@, addr);
                assert(self@[k as int].addr == addr);
                let s = slot(self@, addr);
                if s < k {
                    assert(self@[s].addr == addr);
                }
            }
        }
        assert(k == slot(self@, addr));
        let ghost c = self@;
        if at_least(now.duration_since(self.buckets[k].last_refill), l.window) {
            self.buckets[k] = Bucket { addr, tokens: l.burst, last_refill: now };
        }
        proof {
            lemma_same_slot(c, self@, addr);
        }
        k
    }

    /// Takes one token of `addr`, if it has one.
    pub fn take(&mut self, addr: PeerAddr, now: Instant, l: &BucketLimits) -> (r: bool)
        requires
            distinct(old(self)@),
        ensures
            distinct(final(self)@),
            final(self)@ == spent(touched(old(self)@, addr, now, *l), addr),
            r == (tokens_at(old(self)@, addr, now, *l) > 0),
    {
        proof {
            table_stays_distinct(self@, addr, now, *l);
        }
        let k: usize = self.touch(addr, now, l);
        proof {
            lemma_slot(self@, addr);
        }
        let b: Bucket = self.buckets[k];
        if b.tokens == 0 {
            return false;
        }
        self.buckets[k] = Bucket { addr: b.addr, tokens: b.tokens - 1, last_refill: b.last_refill };
        true
    }

    /// Whether `addr` has a token; none is taken.
    pub fn peek(&mut self, addr: PeerAddr, now: Instant, l: &BucketLimits) -> (r: bool)
        requires
            distinct(old(self)@),
        ensures
            distinct(final(self)@),
            final(self)@ == touched(old(self)@, addr, now, *l),
            r == (tokens_at(old(self)@, addr, now, *l) > 0),
    {
        let k: usize = self.touch(addr, now, l);
        self.buckets[k].tokens > 0
    }

    /// Takes one token of `addr`, if it has a bucket with one.
    pub fn consume(&mut self, addr: PeerAddr)
        requires
            distinct(old(self)@),
        ensures
            distinct(final(self)@),
            final(self)@ == spent(old(self)@, addr),
    {
        let k: usize = self.find(addr);
        if k < self.buckets.len() {
            let b: Bucket = self.buckets[k];
            if b.tokens > 0 {
                let ghost before = self@;
                self.buckets[k] = Bucket {
                    addr: b.addr,
                    tokens: b.tokens - 1,
                    last_refill: b.last_refill,
                };
                proof {
                    assert(forall|i: int| 0 <= i < self@.len() ==> self@[i].addr == before[i].addr);
                    assert forall|i: int, j: int| 0 <= i < j < self@.len() implies #[trigger] self@[i].addr
                        != #[trigger] self@[j].addr by {
                        assert(before[i].addr != before[j].addr);
                    }
                }
            }
        }
    }
}

/// Whatever a source has left, its bucket is full again from the end of its window
/// on, and a new window begins; until then it holds what it held.
pub proof fn window_decides_the_tokens(s: Seq<Bucket>, k: int, now: Instant, l: BucketLimits)
    requires
        distinct(s),
        0 <= k < s.len(),
    ensures
        ({
            let b = s[k];
            if elapsed(now, b.last_refill) >= l.window.nanos() {
                &&& tokens_at(s, b.addr, now, l) == l.burst
                &&& touched(s, b.addr, now, l).contains(
                    Bucket { addr: b.addr, tokens: l.burst, last_refill: now },
                )
            } else {
                &&& tokens_at(s, b.addr, now, l) == b.tokens
                &&& touched(s, b.addr, now, l).contains(b)
            }
        }),
{
    let addr = s[k].addr;
    lemma_room(s, addr, now, l);
    lemma_touched(s, addr, now, l);
    let b = with_room(pruned(s, now, l.window), addr, l.cap);
    let c = with_bucket(b, addr, now, l.burst);
    let t = touched(s, addr, now, l);
    lemma_slot(b, addr);
    lemma_slot(c, addr);
    lemma_slot(t, addr);
    lemma_same_slot(c, t, addr);
    assert(s.contains(s[k]));
    lemma_slot_of(s, s[k]);
    if elapsed(now, s[k].last_refill) < l.window.nanos() {
        let p = pruned(s, now, l.window);
        s.lemma_filter_contains(is_fresh(now, l.window), k);
        assert(p.contains(s[k]));
        let m = choose|m: int| 0 <= m < p.len() && p[m] == s[k];
        assert(p[m].addr == addr);
        lemma_kept(s, k, addr, now, l);
        lemma_slot_of(b, s[k]);
    }
    if has_bucket(b, addr) {
        let x = b[slot(b, addr)];
        assert(b.contains(x));
        lemma_slot_of(s, x);
    } else {
        assert(c[b.len() as int].addr == addr);
    }
    assert(t.contains(t[slot(t, addr)]));
}

/// A source that has no bucket gets a full one, whose window begins now.
pub proof fn new_source_has_a_full_bucket(
    s: Seq<Bucket>,
    addr: PeerAddr,
    now: Instant,
    l: BucketLimits,
)
    requires
        distinct(s),
        forall|i: int| 0 <= i < s.len() ==> #[trigger] s[i].addr != addr,
    ensures
        tokens_at(s, addr, now, l) == l.burst,
        touched(s, addr, now, l).contains(Bucket { addr, tokens: l.burst, last_refill: now }),
{
    lemma_room(s, addr, now, l);
    lemma_touched(s, addr, now, l);
    let b = with_room(pruned(s, now, l.window), addr, l.cap);
    let c = with_bucket(b, addr, now, l.burst);
    let t = touched(s, addr, now, l);
    lemma_slot(b, addr);
    lemma_slot(c, addr);
    lemma_slot(t, addr);
    lemma_same_slot(c, t, addr);
    if has_bucket(b, addr) {
        let x = b[slot(b, addr)];
        assert(b.contains(x));
        let i = choose|i: int| 0 <= i < s.len() && s[i] == x;
        assert(s[i].addr == addr);
    }
    assert(c[b.len() as int].addr == addr);
    assert(t.contains(t[slot(t, addr)]));
}

/// Spending takes exactly one token of the source, none below zero, and neither
/// moves its window nor touches another source.
pub proof fn spending_takes_one_token(s: Seq<Bucket>, k: int)
    requires
        distinct(s),
        0 <= k < s.len(),
    ensures
        ({
            let u = spent(s, s[k].addr);
            &&& u.len() == s.len()
            &&& u[k].addr == s[k].addr
            &&& u[k].last_refill == s[k].last_refill
            &&& s[k].tokens > 0 ==> u[k].tokens + 1 == s[k].tokens
            &&& s[k].tokens == 0 ==> u[k].tokens == 0
            &&& forall|i: int| 0 <= i < s.len() && i != k ==> #[trigger] u[i] == s[i]
        }),
{
    assert(s.contains(s[k]));
    lemma_slot_of(s, s[k]);
    lemma_slot(s, s[k].addr);
    let m = slot(s, s[k].addr);
    if m != k {
        assert(s[m].addr == s[k].addr);
    }
}

/// Spending of a source that has no bucket changes nothing.
pub proof fn spending_needs_a_bucket(s: Seq<Bucket>, addr: PeerAddr)
    requires
        forall|i: int| 0 <= i < s.len() ==> #[trigger] s[i].addr != addr,
    ensures
        spent(s, addr) == s,
{
}

proof fn lemma_filter_all(s: Seq<Bucket>, p: spec_fn(Bucket) -> bool)
    requires
        forall|i: int| 0 <= i < s.len() ==> p(#[trigger] s[i]),
    ensures
        s.filter(p) == s,
    decreases s.len(),
{
    reveal(Seq::filter);
    if s.len() > 0 {
        let t = s.drop_last();
        assert forall|i: int| 0 <= i < t.len() implies p(#[trigger] t[i]) by {
            assert(t[i] == s[i]);
        }
        lemma_filter_all(t, p);
        assert(p(s[s.len() - 1]));
        assert(t.push(s.last()) =~= s);
    } else {
        assert(s.filter(p) =~= s);
    }
}

/// A new source joins a table that has room, and takes the place of the bucket
/// with the earliest refill in one that has none; no other bucket is touched.
pub proof fn new_source_displaces_the_stalest_only(
    s: Seq<Bucket>,
    addr: PeerAddr,
    now: Instant,
    l: BucketLimits,
)
    requires
        distinct(s),
        s.len() > 0,
        forall|i: int| 0 <= i < s.len() ==> #[trigger] s[i].addr != addr,
        s.len() <= 32 || forall|i: int|
            0 <= i < s.len() ==> elapsed(now, (#[trigger] s[i]).last_refill) < l.window.nanos(),
    ensures
        ({
            let full = Bucket { addr, tokens: l.burst, last_refill: now };
            let t = touched(s, addr, now, l);
            if s.len() < l.cap {
                t == s.push(full)
            } else {
                exists|k: int|
                    #![trigger s.remove(k)]
                    0 <= k < s.len() && t == s.remove(k).push(full) && forall|i: int|
                        0 <= i < s.len() ==> s[k].last_refill.nanos()
                            <= (#[trigger] s[i]).last_refill.nanos()
            }
        }),
{
    if s.len() > 32 {
        lemma_filter_all(s, is_fresh(now, l.window));
    }
    assert(pruned(s, now, l.window) == s);
    lemma_room(s, addr, now, l);
    lemma_touched(s, addr, now, l);
    lemma_stalest(s);
    let full = Bucket { addr, tokens: l.burst, last_refill: now };
    let b = with_room(s, addr, l.cap);
    if has_bucket(b, addr) {
        let i = choose|i: int| 0 <= i < b.len() && #[trigger] b[i].addr == addr;
        assert(b.contains(b[i]));
        let j = choose|j: int| 0 <= j < s.len() && s[j] == b[i];
        assert(s[j].addr == addr);
    }
    let c = with_bucket(b, addr, now, l.burst);
    lemma_slot(c, addr);
    assert(c[b.len() as int].addr == addr);
    let k = slot(c, addr);
    if k < b.len() {
        assert(b[k].addr == addr);
    }
    assert(touched(s, addr, now, l) =~= b.push(full));
    if s.len() >= l.cap {
        assert(b == s.remove(stalest(s)));
    }
}

/// Up to 32 buckets are kept however stale they are; beyond that, exactly the
/// stale ones go.
pub proof fn only_large_tables_are_pruned(s: Seq<Bucket>, now: Instant, window: Duration, k: int)
    requires
        0 <= k < s.len(),
    ensures
        s.len() <= 32 ==> pruned(s, now, window) == s,
        s.len() > 32 && elapsed(now, s[k].last_refill) < window.nanos() ==> pruned(
            s,
            now,
            window,
        ).contains(s[k]),
        s.len() > 32 && elapsed(now, s[k].last_refill) >= window.nanos() ==> !pruned(
            s,
            now,
            window,
        ).contains(s[k]),
{
    let p = is_fresh(now, window);
    let f = s.filter(p);
    if s.len() > 32 {
        if p(s[k]) {
            s.lemma_filter_contains(p, k);
        } else if f.contains(s[k]) {
            let j = choose|j: int| 0 <= j < f.len() && f[j] == s[k];
            s.lemma_filter_pred(p, j);
        }
    }
}

/// Once a source was looked at, it has a bucket, with the tokens that it has now.
pub proof fn touching_gives_a_bucket(
    s: Seq<Bucket>,
    addr: PeerAddr,
    now: Instant,
    l: BucketLimits,
)
    requires
        distinct(s),
    ensures
        ({
            let t = touched(s, addr, now, l);
            &&& distinct(t)
            &&& 0 <= slot(t, addr) < t.len()
            &&& t[slot(t, addr)].addr == addr
            &&& t[slot(t, addr)].tokens == tokens_at(s, addr, now, l)
        }),
{
    lemma_touched(s, addr, now, l);
    lemma_slot(touched(s, addr, now, l), addr);
}

} // verus!
