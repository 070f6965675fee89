use vstd::prelude::*;
use crate::keys::lex_lt;

verus! {

/// Whether `a` sorts strictly before `b`, byte by byte.
pub fn key_less(a: &[u8], b: &[u8]) -> (r: bool)
    ensures
        r == lex_lt(a@, b@),
{
    let mut i: usize = 0;
    proof {
        assert(a@.skip(0) =~= a@);
        assert(b@.skip(0) =~= b@);
    }
    while i < a.len() && i < b.len()
        invariant
            i <= a@.len(),
            i <= b@.len(),
            lex_lt(a@, b@) == lex_lt(a@.skip(i as int), b@.skip(i as int)),
        decreases a@.len() - i,
    {
        if a[i] != b[i] {
            return a[i] < b[i];
        }
        assert(a@.skip(i as int).drop_first() =~= a@.skip(i + 1));
        assert(b@.skip(i as int).drop_first() =~= b@.skip(i + 1));
        i += 1;
    }
    i < b.len()
}

/// The decisions of a range scan, apart from reading the store: which entries to
/// hand to the visitor, and when to stop. Entries are offered in ascending key order
/// from the first key at or above the lower bound.
pub struct ScanControl {
    pub upper: Vec<u8>,
    pub limit: u64,
    pub count: u64,
    pub done: bool,
}

impl ScanControl {
    pub open spec fn wf(&self) -> bool {
        &&& self.count <= self.limit
        &&& (self.count == self.limit ==> self.done)
    }

    /// A scan below `upper` that visits at most `limit` entries. With a limit of zero
    /// it is over before it reads anything.
    pub fn new(upper: Vec<u8>, limit: u64) -> (r: ScanControl)
        ensures
            r.wf(),
            r.upper == upper,
            r.limit == limit,
            r.count == 0,
            r.done == (limit == 0),
    {
        ScanControl { upper, limit, count: 0, done: limit == 0 }
    }

    /// Whether the scan is over: no further entry is read or visited.
    pub fn is_done(&self) -> (r: bool)
        ensures
            r == self.done,
    {
        self.done
    }

    /// Offers the next entry's key: true when it is to be visited, false when it lies
    /// at or above the upper bound, which ends the scan.
    pub fn offer(&mut self, key: &[u8]) -> (r: bool)
        requires
            old(self).wf(),
            !old(self).done,
        ensures
            final(self).wf(),
            r == lex_lt(key@, old(self).upper@),
            final(self).upper == old(self).upper,
            final(self).limit == old(self).limit,
            final(self).count == old(self).count,
            final(self).done == !r,
    {
        let r = key_less(key, &self.upper);
        if !r {
            self.done = true;
        }
        r
    }

    /// Records that an admitted entry was visited and whether the visitor asked to go
    /// on. The scan ends when it did not, or when the limit is reached.
    pub fn record(&mut self, go_on: bool)
        requires
            old(self).wf(),
            !old(self).done,
        ensures
            final(self).wf(),
            final(self).upper == old(self).upper,
            final(self).limit == old(self).limit,
            final(self).count == old(self).count + 1,
            final(self).done == (!go_on || final(self).count == final(self).limit),
    {
        self.count = self.count + 1;
        self.done = !go_on || self.count == self.limit;
    }
}

/// The index of the first of `keys` from `i` on that is not below `lower`, or the
/// length of `keys` where there is none.
pub open spec fn first_not_below(keys: Seq<Seq<u8>>, lower: Seq<u8>, i: int) -> int
    decreases keys.len() - i,
{
    if i >= keys.len() {
        keys.len() as int
    } else if !lex_lt(keys[i], lower) {
        i
    } else {
        first_not_below(keys, lower, i + 1)
    }
}

/// An ordered store held in memory: entries in strictly ascending key order.
pub struct MemStore {
    pub entries: Vec<(Vec<u8>, Vec<u8>)>,
}

impl View for MemStore {
    type V = Seq<(Seq<u8>, Seq<u8>)>;

    open spec fn view(&self) -> Seq<(Seq<u8>, Seq<u8>)> {
        self.entries@.map_values(|e: (Vec<u8>, Vec<u8>)| (e.0@, e.1@))
    }
}

/// The keys of a store's entries, in order.
pub open spec fn keys_of(s: Seq<(Seq<u8>, Seq<u8>)>) -> Seq<Seq<u8>> {
    s.map_values(|e: (Seq<u8>, Seq<u8>)| e.0)
}

/// Entries in strictly ascending key order.
pub open spec fn sorted(s: Seq<(Seq<u8>, Seq<u8>)>) -> bool {
    forall|i: int| 0 <= i < s.len() - 1 ==> lex_lt(#[trigger] s[i].0, s[i + 1].0)
}

proof fn lemma_lex_irreflexive(a: Seq<u8>)
    ensures
        !lex_lt(a, a),
    decreases a.len(),
{
    if a.len() > 0 {
        lemma_lex_irreflexive(a.drop_first());
    }
}

proof fn lemma_lex_total(a: Seq<u8>, b: Seq<u8>)
    requires
        a != b,
        !lex_lt(a, b),
    ensures
        lex_lt(b, a),
    decreases a.len(),
{
    if a.len() > 0 && b.len() > 0 && a[0] == b[0] {
        if a.drop_first() == b.drop_first() {
            assert(a =~= seq![a[0]] + a.drop_first());
            assert(b =~= seq![b[0]] + b.drop_first());
        }
        lemma_lex_total(a.drop_first(), b.drop_first());
    } else if a.len() == 0 && b.len() == 0 {
        assert(a =~= b);
    }
}

proof fn lemma_lex_equal(a: Seq<u8>, b: Seq<u8>)
    requires
        !lex_lt(a, b),
        !lex_lt(b, a),
    ensures
        a == b,
{
    if a != b {
        lemma_lex_total(a, b);
    }
}

/// Whether `a` and `b` hold the same bytes.
pub fn key_equal(a: &[u8], b: &[u8]) -> (r: bool)
    ensures
        r == (a@ == b@),
{
    proof {
        lemma_lex_irreflexive(a@);
    }
    let r = !key_less(a, b) && !key_less(b, a);
    proof {
        if r {
            lemma_lex_equal(a@, b@);
        }
    }
    r
}

impl MemStore {
    /// An empty store.
    pub fn new() -> (r: MemStore)
        ensures
            r@ == Seq::<(Seq<u8>, Seq<u8>)>::empty(),
    {
        let r = MemStore { entries: Vec::new() };
        assert(r@ =~= Seq::<(Seq<u8>, Seq<u8>)>::empty());
        r
    }

    /// Stores `value` under `key`, in place of the value held there before, if any.
    pub fn put(&mut self, key: Vec<u8>, value: Vec<u8>)
        requires
            sorted(old(self)@),
        ensures
            sorted(final(self)@),
            exists|p: int|
                0 <= p <= old(self)@.len() && ((p < old(self)@.len() && old(self)@[p].0 == key@
                    && final(self)@ == old(self)@.update(p, (key@, value@))) || ((forall|j: int|
                    0 <= j < old(self)@.len() ==> old(self)@[j].0 != key@) && final(self)@
                    == old(self)@.insert(p, (key@, value@)))),
    {
        let ghost old_view = self@;
        let mut p: usize = 0;
        while p < self.entries.len() && key_less(self.entries[p].0.as_slice(), key.as_slice())
            invariant
                p <= self.entries@.len(),
                self@ == old_view,
                sorted(old_view),
                forall|j: int| 0 <= j < p ==> lex_lt(#[trigger] old_view[j].0, key@),
            decreases self.entries@.len() - p,
        {
            p += 1;
        }
        proof {
            lemma_lex_irreflexive(key@);
        }
        if p < self.entries.len() && key_equal(self.entries[p].0.as_slice(), key.as_slice()) {
            let ghost kv = (key@, value@);
            self.entries.set(p, (key, value));
            proof {
                assert(self@ =~= old_view.update(p as int, kv));
                assert forall|i: int| 0 <= i < self@.len() implies #[trigger] self@[i].0
                    == old_view[i].0 by {}
                assert(sorted(self@));
            }
        } else {
            let ghost kv = (key@, value@);
            proof {
                if p < old_view.len() {
                    lemma_lex_total(old_view[p as int].0, key@);
                }
                assert forall|j: int| 0 <= j < old_view.len() implies old_view[j].0 != key@ by {
                    if j >= p {
                        lemma_sorted_above(old_view, p as int, j, key@);
                    }
                }
            }
            self.entries.insert(p, (key, value));
            proof {
                assert(self@ =~= old_view.insert(p as int, kv));
                assert forall|i: int| 0 <= i < self@.len() - 1 implies lex_lt(
                    #[trigger] self@[i].0,
                    self@[i + 1].0,
                ) by {
                    if i + 1 < p {
                        assert(self@[i] == old_view[i] && self@[i + 1] == old_view[i + 1]);
                    } else if i + 1 == p {
                        assert(self@[i] == old_view[i]);
                    } else if i == p {
                        assert(self@[i + 1] == old_view[i]);
                    } else {
                        assert(self@[i] == old_view[i - 1] && self@[i + 1] == old_view[i]);
                    }
                }
            }
        }
    }

    /// The value stored under `key`, if any.
    pub fn get(&self, key: &[u8]) -> (r: Option<Vec<u8>>)
        ensures
            r matches Some(v) ==> exists|i: int| 0 <= i < self@.len() && self@[i] == (key@, v@),
            r is None ==> forall|i: int| 0 <= i < self@.len() ==> self@[i].0 != key@,
    {
        let mut i: usize = 0;
        while i < self.entries.len()
            invariant
                i <= self@.len(),
                self@.len() == self.entries@.len(),
                forall|j: int| 0 <= j < i ==> self@[j].0 != key@,
            decreases self.entries@.len() - i,
        {
            if key_equal(self.entries[i].0.as_slice(), key) {
                let v = self.entries[i].1.clone();
                assert(self@[i as int] == (key@, v@));
                return Some(v);
            }
            i += 1;
        }
        None
    }

    /// Visits, in ascending key order, the entries from the first key at or above
    /// `lower` on, handing each key and value to `visit`. Stops before the first key
    /// at or above `upper`, after `limit` visits, after a visit that returns false, or
    /// at the end of the store, whichever comes first, and returns how many entries
    /// were visited. With a limit of zero it visits nothing.
    pub fn scan<F: Fn(&Vec<u8>, &Vec<u8>) -> bool>(
        &self,
        lower: &[u8],
        upper: Vec<u8>,
        limit: u64,
        visit: F,
    ) -> (n: u64)
        requires
            forall|k: &Vec<u8>, v: &Vec<u8>| #[trigger] visit.requires((k, v)),
        ensures
            ({
                let s = first_not_below(keys_of(self@), lower@, 0);
                &&& n <= limit
                &&& s + n <= self@.len()
                &&& forall|j: int| s <= j < s + n ==> lex_lt(#[trigger] self@[j].0, upper@)
                &&& forall|j: int|
                    s <= j < s + n - 1 ==> visit.ensures(
                        (&self.entries@[j].0, &self.entries@[j].1),
                        true,
                    )
                &&& n == limit || s + n == self@.len() || !lex_lt(self@[s + n].0, upper@) || (n
                    > 0 && visit.ensures(
                    (&self.entries@[s + n - 1].0, &self.entries@[s + n - 1].1),
                    false,
                ))
            }),
    {
        let ghost keys = keys_of(self@);
        let ghost up = upper@;
        let mut ctl = ScanControl::new(upper, limit);
        let mut i: usize = 0;
        if ctl.is_done() {
            proof {
                lemma_first_not_below_bound(keys, lower@, 0);
            }
            return 0;
        }
        while i < self.entries.len() && key_less(self.entries[i].0.as_slice(), lower)
            invariant
                i <= self@.len(),
                self@.len() == self.entries@.len(),
                keys == keys_of(self@),
                first_not_below(keys, lower@, 0) == first_not_below(keys, lower@, i as int),
            decreases self.entries@.len() - i,
        {
            i += 1;
        }
        let ghost s = i as int;
        assert(first_not_below(keys, lower@, s) == s);
        while i < self.entries.len() && !ctl.is_done()
            invariant
                ctl.wf(),
                ctl.upper@ == up,
                ctl.limit == limit,
                self@.len() == self.entries@.len(),
                s <= i <= self@.len(),
                ctl.count == i - s,
                forall|j: int| s <= j < i ==> lex_lt(#[trigger] self@[j].0, up),
                forall|j: int|
                    s <= j < i - 1 ==> visit.ensures(
                        (&self.entries@[j].0, &self.entries@[j].1),
                        true,
                    ),
                forall|k: &Vec<u8>, v: &Vec<u8>| #[trigger] visit.requires((k, v)),
                i > s && !ctl.done ==> visit.ensures(
                    (&self.entries@[i - 1].0, &self.entries@[i - 1].1),
                    true,
                ),
                ctl.done ==> (ctl.count == limit || (i < self@.len() && !lex_lt(self@[i as int].0, up))
                    || (i > s && visit.ensures(
                    (&self.entries@[i - 1].0, &self.entries@[i - 1].1),
                    false,
                ))),
            decreases (self@.len() - i) * 2 + (if ctl.done { 0int } else { 1int }),
        {
            let e = &self.entries[i];
            if ctl.offer(e.0.as_slice()) {
                let go = visit(&e.0, &e.1);
                ctl.record(go);
                i += 1;
            }
        }
        ctl.count
    }
}

proof fn lemma_first_not_below_bound(keys: Seq<Seq<u8>>, lower: Seq<u8>, i: int)
    requires
        0 <= i <= keys.len(),
    ensures
        i <= first_not_below(keys, lower, i) <= keys.len(),
    decreases keys.len() - i,
{
    if i < keys.len() && lex_lt(keys[i], lower) {
        lemma_first_not_below_bound(keys, lower, i + 1);
    }
}

proof fn lemma_lex_transitive(a: Seq<u8>, b: Seq<u8>, c: Seq<u8>)
    requires
        lex_lt(a, b),
        lex_lt(b, c),
    ensures
        lex_lt(a, c),
    decreases a.len(),
{
    if a.len() > 0 && a[0] == b[0] && b[0] == c[0] {
        lemma_lex_transitive(a.drop_first(), b.drop_first(), c.drop_first());
    }
}

proof fn lemma_sorted_above(s: Seq<(Seq<u8>, Seq<u8>)>, p: int, j: int, key: Seq<u8>)
    requires
        sorted(s),
        0 <= p <= j < s.len(),
        lex_lt(key, s[p].0),
    ensures
        lex_lt(key, s[j].0),
    decreases j - p,
{
    if j > p {
        lemma_sorted_above(s, p, j - 1, key);
        lemma_lex_transitive(key, s[j - 1].0, s[j].0);
    }
}

} // verus!
