//! A time-to-live keyed set of recently seen alert identities.
//!
//! The cache answers whether an identity digest has been admitted
//! recently: a first occurrence, or one whose earlier entry has expired,
//! is admitted and stamped with a new expiry; a repeat within the window
//! is suppressed. A periodic purge drops every expired entry.

use vstd::prelude::*;

verus! {

/// True iff `now` should be admitted against the entries `m`: the key is
/// absent, or its entry has expired.
pub open spec fn spec_admitted(m: Map<Seq<u8>, u64>, k: Seq<u8>, now: u64) -> bool {
    !m.contains_key(k) || now > m[k]
}

/// The entries after an admission decision: an admitted key is stamped
/// with expiry `now + ttl`; a suppressed one leaves the entries untouched.
pub open spec fn spec_admit(m: Map<Seq<u8>, u64>, k: Seq<u8>, now: u64, ttl: u64) -> Map<
    Seq<u8>,
    u64,
> {
    if spec_admitted(m, k, now) {
        m.insert(k, (now + ttl) as u64)
    } else {
        m
    }
}

/// The entries after a purge at `now`: exactly those whose expiry has not
/// yet passed, each keeping its expiry.
pub open spec fn spec_purge(m: Map<Seq<u8>, u64>, now: u64) -> Map<Seq<u8>, u64> {
    Map::new(|k: Seq<u8>| m.contains_key(k) && m[k] > now, |k: Seq<u8>| m[k])
}

/// The mapping induced by a list of keyed expiries: the last entry for a
/// key wins.
pub open spec fn entry_map(s: Seq<([u8; 32], u64)>) -> Map<Seq<u8>, u64>
    decreases s.len(),
{
    if s.len() == 0 {
        Map::empty()
    } else {
        entry_map(s.drop_last()).insert(s.last().0@, s.last().1)
    }
}

/// True iff no two entries of the list share a key.
pub open spec fn distinct_keys(s: Seq<([u8; 32], u64)>) -> bool {
    forall|i: int, j: int| 0 <= i < j < s.len() ==> s[i].0@ != s[j].0@
}

/// On a list with distinct keys, the induced mapping holds exactly the
/// listed keys, each bound to its listed expiry.
proof fn lemma_entry_map_characterizes(s: Seq<([u8; 32], u64)>)
    requires
        distinct_keys(s),
    ensures
        forall|k: Seq<u8>|
            #[trigger] entry_map(s).contains_key(k) <==> (exists|i: int|
                0 <= i < s.len() && #[trigger] s[i].0@ == k),
        forall|i: int|
            0 <= i < s.len() ==> entry_map(s).contains_key(#[trigger] s[i].0@) && entry_map(
                s,
            )[s[i].0@] == s[i].1,
    decreases s.len(),
{
    if s.len() > 0 {
        let s0 = s.drop_last();
        lemma_entry_map_characterizes(s0);
        assert(entry_map(s) == entry_map(s0).insert(s.last().0@, s.last().1));
        assert forall|k: Seq<u8>| #[trigger]
            entry_map(s).contains_key(k) implies (exists|i: int|
            0 <= i < s.len() && #[trigger] s[i].0@ == k) by {
            if k == s.last().0@ {
                assert(0 <= s.len() - 1 < s.len() && s[s.len() - 1].0@ == k);
            } else {
                assert(entry_map(s0).contains_key(k));
                let i = choose|i: int| 0 <= i < s0.len() && #[trigger] s0[i].0@ == k;
                assert(s0[i] == s[i]);
                assert(0 <= i < s.len() && s[i].0@ == k);
            }
        }
        assert forall|k: Seq<u8>| (exists|i: int|
            0 <= i < s.len() && #[trigger] s[i].0@ == k) implies #[trigger] entry_map(
            s,
        ).contains_key(k) by {
            let i = choose|i: int| 0 <= i < s.len() && #[trigger] s[i].0@ == k;
            if i < s.len() - 1 {
                assert(s0[i].0@ == k);
            }
        }
        assert forall|i: int| 0 <= i < s.len() implies entry_map(s).contains_key(
            #[trigger] s[i].0@,
        ) && entry_map(s)[s[i].0@] == s[i].1 by {
            if i < s.len() - 1 {
                assert(s0[i].0@ == s[i].0@ && s0[i].1 == s[i].1);
                assert(s[i].0@ != s.last().0@);
            }
        }
    }
}

/// True iff the two digests hold the same bytes.
fn digest_eq(a: &[u8; 32], b: &[u8; 32]) -> (r: bool)
    ensures
        r == (a@ == b@),
{
    let mut i: usize = 0;
    while i < 32
        invariant
            i <= 32,
            forall|j: int| 0 <= j < i ==> a@[j] == b@[j],
        decreases 32 - i,
    {
        if a[i] != b[i] {
            return false;
        }
        i = i + 1;
    }
    proof {
        assert(a@ =~= b@);
    }
    true
}

/// The deduplication cache: one live entry per identity digest, holding
/// the time its suppression window expires.
pub struct DedupCache {
    entries: Vec<([u8; 32], u64)>,
}

impl View for DedupCache {
    type V = Map<Seq<u8>, u64>;

    closed spec fn view(&self) -> Map<Seq<u8>, u64> {
        entry_map(self.entries@)
    }
}

impl DedupCache {
    /// Each identity digest occurs at most once among the entries.
    pub closed spec fn wf(self) -> bool {
        distinct_keys(self.entries@)
    }

    /// An empty cache.
    pub fn new() -> (r: DedupCache)
        ensures
            r.wf(),
            r@ == Map::<Seq<u8>, u64>::empty(),
    {
        DedupCache { entries: Vec::new() }
    }

    /// The position of `key` among the entries, if it is there.
    fn find(&self, key: &[u8; 32]) -> (r: Option<usize>)
        ensures
            match r {
                Some(i) => i < self.entries@.len() && self.entries@[i as int].0@ == key@,
                None => forall|i: int|
                    0 <= i < self.entries@.len() ==> (#[trigger] self.entries@[i].0@) != key@,
            },
    {
        let mut i: usize = 0;
        while i < self.entries.len()
            invariant
                i <= self.entries@.len(),
                forall|j: int| 0 <= j < i ==> (#[trigger] self.entries@[j].0@) != key@,
            decreases self.entries@.len() - i,
        {
            if digest_eq(&self.entries[i].0, key) {
                return Some(i);
            }
            i = i + 1;
        }
        None
    }

    /// Decides whether the occurrence of `key` at `now` proceeds to
    /// delivery: a first or expired occurrence is admitted and stamped
    /// with expiry `now + ttl`; a repeat within the window is suppressed
    /// and the entry is left untouched.
    pub fn try_admit(&mut self, key: &[u8; 32], now: u64, ttl: u64) -> (r: bool)
        requires
            old(self).wf(),
            now + ttl <= u64::MAX,
        ensures
            final(self).wf(),
            r == spec_admitted(old(self)@, key@, now),
            final(self)@ == spec_admit(old(self)@, key@, now, ttl),
    {
        let ghost s = self.entries@;
        proof {
            lemma_entry_map_characterizes(s);
        }
        match self.find(key) {
            Some(i) => {
                if now > self.entries[i].1 {
                    self.entries.set(i, (*key, now + ttl));
                    proof {
                        self.lemma_set_is_insert(s, i as int, key@, (now + ttl) as u64);
                    }
                    true
                } else {
                    false
                }
            },
            None => {
                self.entries.push((*key, now + ttl));
                proof {
                    assert(self.entries@.drop_last() =~= s);
                }
                true
            },
        }
    }

    /// Replacing the entry at `i` by one with the same key turns the
    /// induced mapping into an insert over the old one.
    proof fn lemma_set_is_insert(self, s: Seq<([u8; 32], u64)>, i: int, k: Seq<u8>, v: u64)
        requires
            distinct_keys(s),
            0 <= i < s.len(),
            s[i].0@ == k,
            self.entries@.len() == s.len(),
            forall|j: int| 0 <= j < s.len() && j != i ==> self.entries@[j] == s[j],
            self.entries@[i].0@ == k,
            self.entries@[i].1 == v,
        ensures
            self.wf(),
            self@ == entry_map(s).insert(k, v),
    {
        let t = self.entries@;
        assert forall|p: int, q: int| 0 <= p < q < t.len() implies t[p].0@ != t[q].0@ by {
            assert(s[p].0@ != s[q].0@);
        }
        lemma_entry_map_characterizes(s);
        lemma_entry_map_characterizes(t);
        assert forall|x: Seq<u8>|
            entry_map(t).contains_key(x) <==> entry_map(s).insert(k, v).contains_key(x) by {
            if entry_map(t).contains_key(x) {
                let j = choose|j: int| 0 <= j < t.len() && #[trigger] t[j].0@ == x;
                assert(s[j].0@ == x || x == k);
            }
            if entry_map(s).insert(k, v).contains_key(x) {
                if x == k {
                    assert(t[i].0@ == x);
                } else {
                    let j = choose|j: int| 0 <= j < s.len() && #[trigger] s[j].0@ == x;
                    assert(t[j].0@ == x);
                }
            }
        }
        assert forall|x: Seq<u8>| entry_map(t).contains_key(x) implies entry_map(t)[x] == entry_map(
            s,
        ).insert(k, v)[x] by {
            let j = choose|j: int| 0 <= j < t.len() && #[trigger] t[j].0@ == x;
            if x == k {
                assert(t[i].0@ == k && t[i].1 == v);
                assert(j == i);
            } else {
                assert(j != i);
                assert(s[j].0@ == x && s[j].1 == t[j].1);
            }
        }
        assert(entry_map(t) =~= entry_map(s).insert(k, v));
    }

    /// Removes exactly the entries whose expiry has passed at `now` and
    /// leaves all others unchanged.
    #[verifier::rlimit(30)]
    pub fn purge(&mut self, now: u64)
        requires
            old(self).wf(),
        ensures
            final(self).wf(),
            final(self)@ == spec_purge(old(self)@, now),
    {
        let ghost s = self.entries@;
        let mut kept: Vec<([u8; 32], u64)> = Vec::new();
        let mut i: usize = 0;
        while i < self.entries.len()
            invariant
                i <= self.entries@.len(),
                self.entries@ == s,
                distinct_keys(s),
                distinct_keys(kept@),
                entry_map(kept@) == spec_purge(entry_map(s.take(i as int)), now),
            decreases self.entries@.len() - i,
        {
            let entry = self.entries[i];
            let ghost prev = kept@;
            let ghost m = entry_map(s.take(i as int));
            let ghost k = entry.0@;
            proof {
                assert(distinct_keys(s.take(i as int)));
                lemma_entry_map_characterizes(s.take(i as int));
                assert(!m.contains_key(k)) by {
                    if m.contains_key(k) {
                        let q = choose|q: int|
                            0 <= q < s.take(i as int).len() && #[trigger] s.take(i as int)[q].0@
                                == k;
                        assert(s[q].0@ == s[i as int].0@);
                    }
                }
                assert(s.take(i as int + 1).drop_last() =~= s.take(i as int));
                assert(entry_map(s.take(i as int + 1)) == m.insert(k, entry.1));
            }
            if entry.1 > now {
                kept.push(entry);
                proof {
                    assert(kept@.drop_last() =~= prev);
                    assert(entry_map(kept@) == entry_map(prev).insert(k, entry.1));
                    assert(!entry_map(prev).contains_key(k));
                    lemma_entry_map_characterizes(prev);
                    assert forall|p: int, q: int| 0 <= p < q < kept@.len() implies kept@[p].0@
                        != kept@[q].0@ by {
                        if q == kept@.len() - 1 {
                            assert(entry_map(prev).contains_key(prev[p].0@));
                        }
                    }
                    assert(entry_map(kept@) =~= spec_purge(entry_map(s.take(i as int + 1)), now));
                }
            } else {
                proof {
                    assert(entry_map(kept@) =~= spec_purge(entry_map(s.take(i as int + 1)), now));
                }
            }
            i = i + 1;
        }
        proof {
            assert(s.take(s.len() as int) =~= s);
        }
        self.entries = kept;
    }

}

} // verus!
