//! The deduplication and classification laws of the pipeline.

use vstd::prelude::*;
use crate::cache::{spec_admit, spec_admitted, spec_purge};
use crate::visitor::{coerce, identity_of, input_flag, input_map, FieldValue};

verus! {

/// The admission decisions for a run of occurrences of one identity `k`
/// at the times listed, against the entries `m`, each admission stamping
/// a fresh window of `ttl`.
pub open spec fn admission_run(m: Map<Seq<u8>, u64>, k: Seq<u8>, times: Seq<u64>, ttl: u64) -> Seq<
    bool,
>
    decreases times.len(),
{
    if times.len() == 0 {
        Seq::empty()
    } else {
        seq![spec_admitted(m, k, times.first())].add(
            admission_run(spec_admit(m, k, times.first(), ttl), k, times.drop_first(), ttl),
        )
    }
}

/// Of a run of occurrences of one identity whose first is admitted and
/// whose later times all fall within the window stamped by the first,
/// exactly the first is admitted; every later one is suppressed.
pub proof fn lemma_first_only_within_window(
    m: Map<Seq<u8>, u64>,
    k: Seq<u8>,
    times: Seq<u64>,
    ttl: u64,
)
    requires
        times.len() > 0,
        spec_admitted(m, k, times.first()),
        times.first() as int + ttl as int <= u64::MAX as int,
        forall|i: int| 0 < i < times.len() ==> #[trigger] times[i] <= times.first() + ttl,
    ensures
        admission_run(m, k, times, ttl).len() == times.len(),
        admission_run(m, k, times, ttl).first(),
        forall|i: int| 0 < i < times.len() ==> !(#[trigger] admission_run(m, k, times, ttl)[i]),
{
    let m1 = spec_admit(m, k, times.first(), ttl);
    assert(m1[k] == (times.first() + ttl) as u64);
    lemma_all_suppressed(m1, k, times.drop_first(), ttl);
    assert forall|i: int| 0 < i < times.len() implies !(#[trigger] admission_run(
        m,
        k,
        times,
        ttl,
    )[i]) by {
        assert(times.drop_first()[i - 1] == times[i]);
        assert(!admission_run(m1, k, times.drop_first(), ttl)[i - 1]);
    }
}

/// Of a run of occurrences of one identity that all fall within a live
/// window, every one is suppressed and the entry never moves.
proof fn lemma_all_suppressed(m: Map<Seq<u8>, u64>, k: Seq<u8>, times: Seq<u64>, ttl: u64)
    requires
        m.contains_key(k),
        forall|i: int| 0 <= i < times.len() ==> #[trigger] times[i] <= m[k],
    ensures
        admission_run(m, k, times, ttl).len() == times.len(),
        forall|i: int| 0 <= i < times.len() ==> !(#[trigger] admission_run(m, k, times, ttl)[i]),
    decreases times.len(),
{
    if times.len() > 0 {
        assert(times[0] <= m[k]);
        assert(!spec_admitted(m, k, times.first()));
        assert(spec_admit(m, k, times.first(), ttl) == m);
        lemma_all_suppressed(m, k, times.drop_first(), ttl);
        assert forall|i: int| 0 <= i < times.len() implies !(#[trigger] admission_run(
            m,
            k,
            times,
            ttl,
        )[i]) by {
            if i > 0 {
                assert(times.drop_first()[i - 1] == times[i]);
                assert(!admission_run(m, k, times.drop_first(), ttl)[i - 1]);
            }
        }
    }
}

/// An identity admitted at `t0` and quiet since is admitted again at any
/// `t1` after its window has elapsed.
pub proof fn lemma_readmitted_after_expiry(
    m: Map<Seq<u8>, u64>,
    k: Seq<u8>,
    t0: u64,
    t1: u64,
    ttl: u64,
)
    requires
        spec_admitted(m, k, t0),
        t0 as int + ttl as int <= u64::MAX as int,
        t1 as int > t0 as int + ttl as int,
    ensures
        spec_admitted(spec_admit(m, k, t0, ttl), k, t1),
{
}

/// A purge removes exactly the entries whose expiry has passed and
/// leaves every other entry unchanged.
pub proof fn lemma_purge_exact(m: Map<Seq<u8>, u64>, now: u64)
    ensures
        forall|k: Seq<u8>|
            #![trigger m.contains_key(k)]
            m.contains_key(k) && m[k] > now ==> spec_purge(m, now).contains_key(k) && spec_purge(
                m,
                now,
            )[k] == m[k],
        forall|k: Seq<u8>|
            #![trigger m.contains_key(k)]
            m.contains_key(k) && m[k] <= now ==> !spec_purge(m, now).contains_key(k),
        forall|k: Seq<u8>|
            #[trigger] spec_purge(m, now).contains_key(k) ==> m.contains_key(k),
{
}

/// Two records with the same explicit `dedup_key` field share one
/// deduplication identity whatever their messages; two with different
/// explicit `dedup_key` fields have distinct identities whatever their
/// messages.
pub proof fn lemma_identity_by_dedup_key(
    m1: Map<Seq<char>, Seq<char>>,
    m2: Map<Seq<char>, Seq<char>>,
)
    requires
        m1.contains_key("dedup_key"@),
        m2.contains_key("dedup_key"@),
    ensures
        m1["dedup_key"@] == m2["dedup_key"@] ==> identity_of(m1) == identity_of(m2),
        m1["dedup_key"@] != m2["dedup_key"@] ==> identity_of(m1) != identity_of(m2),
{
}

/// True iff no two entries of the field list share a name.
pub open spec fn distinct_input_names(s: Seq<(String, FieldValue)>) -> bool {
    forall|i: int, j: int| 0 <= i < j < s.len() ==> s[i].0@ != s[j].0@
}

/// On a field list with distinct names, the extracted mapping holds
/// exactly the listed names, each bound to its coerced value, and the
/// alert flag is set exactly by a boolean `alert` field that is true.
proof fn lemma_input_characterizes(s: Seq<(String, FieldValue)>)
    requires
        distinct_input_names(s),
    ensures
        forall|k: Seq<char>|
            #[trigger] input_map(s).contains_key(k) <==> (exists|i: int|
                0 <= i < s.len() && #[trigger] s[i].0@ == k),
        forall|i: int|
            0 <= i < s.len() ==> input_map(s).contains_key(#[trigger] s[i].0@) && input_map(
                s,
            )[s[i].0@] == coerce(s[i].1),
        input_flag(s) <==> (exists|i: int|
            0 <= i < s.len() && #[trigger] s[i].0@ == "alert"@ && s[i].1 == FieldValue::Bool(
                true,
            )),
    decreases s.len(),
{
    if s.len() > 0 {
        let s0 = s.drop_last();
        lemma_input_characterizes(s0);
        assert(input_map(s) == input_map(s0).insert(s.last().0@, coerce(s.last().1)));
        assert forall|k: Seq<char>| #[trigger]
            input_map(s).contains_key(k) implies (exists|i: int|
            0 <= i < s.len() && #[trigger] s[i].0@ == k) by {
            if k == s.last().0@ {
                assert(0 <= s.len() - 1 < s.len() && s[s.len() - 1].0@ == k);
            } else {
                assert(input_map(s0).contains_key(k));
                let i = choose|i: int| 0 <= i < s0.len() && #[trigger] s0[i].0@ == k;
                assert(s0[i] == s[i]);
                assert(0 <= i < s.len() && s[i].0@ == k);
            }
        }
        assert forall|k: Seq<char>| (exists|i: int|
            0 <= i < s.len() && #[trigger] s[i].0@ == k) implies #[trigger] input_map(
            s,
        ).contains_key(k) by {
            let i = choose|i: int| 0 <= i < s.len() && #[trigger] s[i].0@ == k;
            if i < s.len() - 1 {
                assert(s0[i].0@ == k);
            }
        }
        assert forall|i: int| 0 <= i < s.len() implies input_map(s).contains_key(
            #[trigger] s[i].0@,
        ) && input_map(s)[s[i].0@] == coerce(s[i].1) by {
            if i < s.len() - 1 {
                assert(s0[i].0@ == s[i].0@ && s0[i].1 == s[i].1);
                assert(s[i].0@ != s.last().0@);
            }
        }
        if s.last().0@ == "alert"@ && s.last().1 is Bool {
            assert(input_flag(s) == s.last().1->Bool_0);
            if input_flag(s) {
                assert(s[s.len() - 1].0@ == "alert"@ && s[s.len() - 1].1 == FieldValue::Bool(
                    true,
                ));
            } else {
                assert forall|i: int|
                    0 <= i < s.len() && #[trigger] s[i].0@ == "alert"@ implies s[i].1
                    != FieldValue::Bool(true) by {
                    assert(i == s.len() - 1);
                }
            }
        } else {
            assert(input_flag(s) == input_flag(s0));
            if input_flag(s0) {
                let i = choose|i: int|
                    0 <= i < s0.len() && #[trigger] s0[i].0@ == "alert"@ && s0[i].1
                        == FieldValue::Bool(true);
                assert(s[i].0@ == "alert"@ && s[i].1 == FieldValue::Bool(true));
            } else if exists|i: int|
                0 <= i < s.len() && #[trigger] s[i].0@ == "alert"@ && s[i].1 == FieldValue::Bool(
                    true,
                ) {
                let i = choose|i: int|
                    0 <= i < s.len() && #[trigger] s[i].0@ == "alert"@ && s[i].1
                        == FieldValue::Bool(true);
                assert(i < s.len() - 1);
                assert(s0[i].0@ == "alert"@ && s0[i].1 == FieldValue::Bool(true));
            }
        }
    }
}

/// An element of a sequence is an element of any sequence with the same
/// multiset of elements.
proof fn lemma_contains_transfer(
    s1: Seq<(String, FieldValue)>,
    s2: Seq<(String, FieldValue)>,
    x: (String, FieldValue),
)
    requires
        s1.to_multiset() == s2.to_multiset(),
        s1.contains(x),
    ensures
        s2.contains(x),
{
    broadcast use vstd::seq_lib::group_to_multiset_ensures;

    assert(s1.to_multiset().count(x) > 0);
}

/// Field extraction is order-independent: on field lists with distinct
/// names, a permutation of the list leaves the extracted mapping and the
/// alert flag unchanged.
pub proof fn lemma_extraction_order_independent(
    s1: Seq<(String, FieldValue)>,
    s2: Seq<(String, FieldValue)>,
)
    requires
        distinct_input_names(s1),
        s1.to_multiset() == s2.to_multiset(),
    ensures
        input_map(s1) == input_map(s2),
        input_flag(s1) == input_flag(s2),
    decreases s1.len(),
{
    broadcast use vstd::seq_lib::group_to_multiset_ensures;

    assert(s1.no_duplicates());
    s1.lemma_multiset_has_no_duplicates();
    s2.lemma_multiset_has_no_duplicates_conv();
    assert(s2.no_duplicates());
    assert forall|i: int, j: int| 0 <= i < j < s2.len() implies s2[i].0@ != s2[j].0@ by {
        if s2[i].0@ == s2[j].0@ {
            assert(s2.contains(s2[i]) && s2.contains(s2[j]));
            lemma_contains_transfer(s2, s1, s2[i]);
            lemma_contains_transfer(s2, s1, s2[j]);
            let p = choose|p: int| 0 <= p < s1.len() && s1[p] == s2[i];
            let q = choose|q: int| 0 <= q < s1.len() && s1[q] == s2[j];
            assert(s1[p].0@ == s1[q].0@);
            assert(p == q);
        }
    }
    lemma_input_characterizes(s1);
    lemma_input_characterizes(s2);
    assert forall|k: Seq<char>|
        input_map(s1).contains_key(k) <==> input_map(s2).contains_key(k) by {
        if input_map(s1).contains_key(k) {
            let i = choose|i: int| 0 <= i < s1.len() && #[trigger] s1[i].0@ == k;
            assert(s1.contains(s1[i]));
            lemma_contains_transfer(s1, s2, s1[i]);
            let j = choose|j: int| 0 <= j < s2.len() && s2[j] == s1[i];
            assert(s2[j].0@ == k);
        }
        if input_map(s2).contains_key(k) {
            let i = choose|i: int| 0 <= i < s2.len() && #[trigger] s2[i].0@ == k;
            assert(s2.contains(s2[i]));
            lemma_contains_transfer(s2, s1, s2[i]);
            let j = choose|j: int| 0 <= j < s1.len() && s1[j] == s2[i];
            assert(s1[j].0@ == k);
        }
    }
    assert forall|k: Seq<char>| input_map(s1).contains_key(k) implies input_map(s1)[k]
        == input_map(s2)[k] by {
        let i = choose|i: int| 0 <= i < s1.len() && #[trigger] s1[i].0@ == k;
        assert(s1.contains(s1[i]));
        lemma_contains_transfer(s1, s2, s1[i]);
        let j = choose|j: int| 0 <= j < s2.len() && s2[j] == s1[i];
        assert(input_map(s1)[k] == coerce(s1[i].1));
        assert(input_map(s2)[k] == coerce(s2[j].1));
    }
    assert(input_map(s1) =~= input_map(s2));
    if input_flag(s1) {
        let i = choose|i: int|
            0 <= i < s1.len() && #[trigger] s1[i].0@ == "alert"@ && s1[i].1 == FieldValue::Bool(
                true,
            );
        assert(s1.contains(s1[i]));
        lemma_contains_transfer(s1, s2, s1[i]);
        let j = choose|j: int| 0 <= j < s2.len() && s2[j] == s1[i];
        assert(s2[j].0@ == "alert"@ && s2[j].1 == FieldValue::Bool(true));
    }
    if input_flag(s2) {
        let i = choose|i: int|
            0 <= i < s2.len() && #[trigger] s2[i].0@ == "alert"@ && s2[i].1 == FieldValue::Bool(
                true,
            );
        assert(s2.contains(s2[i]));
        lemma_contains_transfer(s2, s1, s2[i]);
        let j = choose|j: int| 0 <= j < s1.len() && s1[j] == s2[i];
        assert(s1[j].0@ == "alert"@ && s1[j].1 == FieldValue::Bool(true));
    }
}

} // verus!
