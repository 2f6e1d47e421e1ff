use vstd::prelude::*;

use itertools::Itertools;

use crate::equivalence::{compare_messages, equivalent};
use crate::record::MessageRecord;

verus! {

/// The channels in which `s` holds a duplicate of `n`.
pub open spec fn duplicate_channels(s: Seq<MessageRecord>, n: MessageRecord) -> Set<u64> {
    Set::new(|c: u64| exists|i: int| 0 <= i < s.len() && equivalent(s[i], n) && s[i].channel == c)
}

/// The duplicate count of `n`: one for each channel that holds a duplicate.
pub open spec fn duplicate_count(s: Seq<MessageRecord>, n: MessageRecord) -> nat {
    duplicate_channels(s, n).len()
}

/// The keys (second components) of a sequence of pairs.
pub open spec fn keys(p: Seq<(usize, u64)>) -> Seq<u64> {
    p.map_values(|x: (usize, u64)| x.1)
}

/// The pairs of `p` whose key has not been seen before them, in order.
pub open spec fn first_per_key(p: Seq<(usize, u64)>) -> Seq<(usize, u64)>
    decreases p.len(),
{
    if p.len() == 0 {
        p
    } else {
        let r = first_per_key(p.drop_last());
        if keys(r).contains(p.last().1) {
            r
        } else {
            r.push(p.last())
        }
    }
}

/// Relies on itertools' `Itertools::unique_by`, which yields each item whose
/// key was not produced by an earlier item, in the order of the input.
#[verifier::external_body]
fn unique_by_key(pairs: &Vec<(usize, u64)>) -> (r: Vec<(usize, u64)>)
    ensures
        r@ == first_per_key(pairs@),
{
    pairs.iter().copied().unique_by(|p| p.1).collect()
}

/// Over pairs ordered by their first component, `first_per_key` keeps pairs
/// of `p`, one per key, each the earliest of its key.
pub proof fn lemma_first_per_key(p: Seq<(usize, u64)>)
    requires
        forall|i: int, j: int| 0 <= i < j < p.len() ==> p[i].0 < p[j].0,
    ensures
        forall|k: int| 0 <= k < first_per_key(p).len() ==> p.contains(#[trigger] first_per_key(p)[k]),
        forall|k1: int, k2: int|
            0 <= k1 < first_per_key(p).len() && 0 <= k2 < first_per_key(p).len() && k1 != k2
                ==> #[trigger] first_per_key(p)[k1].1 != #[trigger] first_per_key(p)[k2].1,
        forall|i: int|
            0 <= i < p.len() ==> exists|k: int|
                0 <= k < first_per_key(p).len() && #[trigger] first_per_key(p)[k].1 == #[trigger] p[i].1
                    && first_per_key(p)[k].0 <= p[i].0,
    decreases p.len(),
{
    if p.len() > 0 {
        let q = p.drop_last();
        let x = p.last();
        lemma_first_per_key(q);
        let r = first_per_key(q);
        assert forall|k: int| 0 <= k < r.len() implies p.contains(#[trigger] r[k]) by {
            let j = choose|j: int| 0 <= j < q.len() && q[j] == r[k];
            assert(p[j] == r[k]);
        }
        if keys(r).contains(x.1) {
            let k = choose|k: int| 0 <= k < keys(r).len() && keys(r)[k] == x.1;
            assert(r[k].1 == x.1);
            let j = choose|j: int| 0 <= j < q.len() && q[j] == r[k];
            assert(p[j] == r[k]);
            assert(first_per_key(p) == r);
            assert forall|i: int| 0 <= i < p.len() implies exists|k: int|
                0 <= k < r.len() && #[trigger] r[k].1 == #[trigger] p[i].1 && r[k].0 <= p[i].0 by {
                if i < q.len() {
                    assert(q[i] == p[i]);
                } else {
                    assert(p[j].0 < p[p.len() - 1].0);
                    assert(r[k].1 == p[i].1 && r[k].0 <= p[i].0);
                }
            }
        } else {
            let r2 = r.push(x);
            assert(first_per_key(p) == r2);
            assert forall|k: int| 0 <= k < r2.len() implies p.contains(#[trigger] r2[k]) by {
                if k < r.len() {
                    assert(r2[k] == r[k]);
                } else {
                    assert(p[p.len() - 1] == x);
                }
            }
            assert forall|k1: int, k2: int|
                0 <= k1 < r2.len() && 0 <= k2 < r2.len() && k1 != k2 implies #[trigger] r2[k1].1
                != #[trigger] r2[k2].1 by {
                if k1 == r.len() {
                    assert(keys(r)[k2] == r[k2].1);
                } else if k2 == r.len() {
                    assert(keys(r)[k1] == r[k1].1);
                }
            }
            assert forall|i: int| 0 <= i < p.len() implies exists|k: int|
                0 <= k < r2.len() && #[trigger] r2[k].1 == #[trigger] p[i].1 && r2[k].0 <= p[i].0 by {
                if i < q.len() {
                    assert(q[i] == p[i]);
                    let k = choose|k: int| 0 <= k < r.len() && #[trigger] r[k].1 == #[trigger] q[i].1 && r[k].0 <= q[i].0;
                    assert(r2[k] == r[k]);
                } else {
                    assert(r2[r.len() as int] == p[i]);
                }
            }
        }
    }
}

/// The positions in `records` of the duplicates of `new` that count: in each
/// channel holding a duplicate, the earliest one, in order of position.
pub open spec fn counted_positions(s: Seq<MessageRecord>, n: MessageRecord, r: Seq<usize>) -> bool {
    &&& forall|k: int| 0 <= k < r.len() ==> #[trigger] r[k] < s.len() && equivalent(s[r[k] as int], n)
    &&& forall|k1: int, k2: int|
        0 <= k1 < k2 < r.len() ==> #[trigger] r[k1] < #[trigger] r[k2] && s[r[k1] as int].channel
            != s[r[k2] as int].channel
    &&& forall|i: int|
        0 <= i < s.len() && equivalent(s[i], n) ==> exists|k: int|
            0 <= k < r.len() && s[#[trigger] r[k] as int].channel == #[trigger] s[i].channel
                && r[k] <= i
}

/// The pairs (position, channel) of the duplicates of `n` in `s`, in order.
pub open spec fn matching_pairs(s: Seq<MessageRecord>, n: MessageRecord, p: Seq<(usize, u64)>, upto: int) -> bool {
    &&& forall|k: int|
        0 <= k < p.len() ==> #[trigger] p[k].0 < upto && equivalent(s[p[k].0 as int], n) && p[k].1
            == s[p[k].0 as int].channel
    &&& forall|a: int, b: int| 0 <= a < b < p.len() ==> p[a].0 < p[b].0
    &&& forall|q: int|
        0 <= q < upto && equivalent(s[q], n) ==> exists|k: int| 0 <= k < p.len() && #[trigger] p[k].0 == q
}

fn collect_matches(records: &Vec<MessageRecord>, new: &MessageRecord) -> (p: Vec<(usize, u64)>)
    ensures
        matching_pairs(records@, *new, p@, records@.len() as int),
{
    let ghost s = records@;
    let mut pairs: Vec<(usize, u64)> = Vec::new();
    let mut i: usize = 0;
    while i < records.len()
        invariant
            i <= s.len(),
            s == records@,
            matching_pairs(s, *new, pairs@, i as int),
        decreases s.len() - i,
    {
        let ghost before = pairs@;
        let is_dup = compare_messages(&records[i], new);
        if is_dup {
            pairs.push((i, records[i].channel));
        }
        proof {
            assert forall|k: int| 0 <= k < before.len() implies pairs@[k] == before[k] by {}
            assert forall|q: int|
                0 <= q < i + 1 && equivalent(s[q], *new) implies exists|k: int|
                0 <= k < pairs@.len() && #[trigger] pairs@[k].0 == q by {
                if q < i {
                    let k = choose|k: int| 0 <= k < before.len() && #[trigger] before[k].0 == q;
                    assert(pairs@[k].0 == q);
                } else {
                    assert(pairs@[pairs@.len() - 1].0 == q);
                }
            }
        }
        i = i + 1;
    }
    pairs
}

/// What the pairs kept by `first_per_key` say of the window.
proof fn lemma_counted(s: Seq<MessageRecord>, n: MessageRecord, p: Seq<(usize, u64)>, out: Seq<usize>)
    requires
        matching_pairs(s, n, p, s.len() as int),
        out.len() == first_per_key(p).len(),
        forall|q: int| 0 <= q < out.len() ==> out[q] == first_per_key(p)[q].0,
    ensures
        counted_positions(s, n, out),
        out.len() == duplicate_count(s, n),
{
    let f = first_per_key(p);
    lemma_first_per_key(p);
    assert forall|q: int| 0 <= q < f.len() implies #[trigger] f[q].0 < s.len() && equivalent(
        s[f[q].0 as int],
        n,
    ) && f[q].1 == s[f[q].0 as int].channel by {
        assert(p.contains(f[q]));
        let j = choose|j: int| 0 <= j < p.len() && p[j] == f[q];
        assert(p[j].0 < s.len());
    }
    assert forall|a: int, b: int| 0 <= a < b < out.len() implies #[trigger] out[a] < #[trigger] out[b]
        && s[out[a] as int].channel != s[out[b] as int].channel by {
        lemma_first_per_key_ordered(p, a, b);
        assert(f[a].1 != f[b].1);
    }
    assert forall|q: int| 0 <= q < s.len() && equivalent(s[q], n) implies exists|k: int|
        0 <= k < out.len() && s[#[trigger] out[k] as int].channel == #[trigger] s[q].channel
            && out[k] <= q by {
        let j = choose|j: int| 0 <= j < p.len() && #[trigger] p[j].0 == q;
        let k = choose|k: int|
            0 <= k < f.len() && #[trigger] f[k].1 == #[trigger] p[j].1 && f[k].0 <= p[j].0;
        assert(out[k] == f[k].0);
    }
    let chans = keys(f);
    assert(chans.no_duplicates()) by {
        assert forall|a: int, b: int|
            0 <= a < chans.len() && 0 <= b < chans.len() && a != b implies chans[a] != chans[b] by {
            assert(f[a].1 != f[b].1);
        }
    }
    chans.unique_seq_to_set();
    assert(chans.to_set() =~= duplicate_channels(s, n)) by {
        assert forall|c: u64| duplicate_channels(s, n).contains(c) implies chans.to_set().contains(c) by {
            let q = choose|q: int| 0 <= q < s.len() && equivalent(s[q], n) && s[q].channel == c;
            let j = choose|j: int| 0 <= j < p.len() && #[trigger] p[j].0 == q;
            let k = choose|k: int|
                0 <= k < f.len() && #[trigger] f[k].1 == #[trigger] p[j].1 && f[k].0 <= p[j].0;
            assert(chans[k] == c);
        }
        assert forall|c: u64| chans.to_set().contains(c) implies duplicate_channels(s, n).contains(c) by {
            let k = choose|k: int| 0 <= k < chans.len() && chans[k] == c;
            assert(f[k].1 == c);
        }
    }
}

/// Finds the duplicates of `new` in `records` that count toward the
/// threshold: at most one per channel, the earliest there.
pub fn duplicate_positions(records: &Vec<MessageRecord>, new: &MessageRecord) -> (r: Vec<usize>)
    ensures
        counted_positions(records@, *new, r@),
        r@.len() == duplicate_count(records@, *new),
{
    let pairs = collect_matches(records, new);
    let firsts = unique_by_key(&pairs);
    let mut out: Vec<usize> = Vec::new();
    let mut k: usize = 0;
    while k < firsts.len()
        invariant
            k <= firsts@.len(),
            out@.len() == k,
            forall|q: int| 0 <= q < k ==> out@[q] == firsts@[q].0,
        decreases firsts@.len() - k,
    {
        out.push(firsts[k].0);
        k = k + 1;
    }
    proof {
        lemma_counted(records@, *new, pairs@, out@);
    }
    out
}

/// Positions kept by `first_per_key` appear in increasing order when the
/// input is ordered.
proof fn lemma_first_per_key_ordered(p: Seq<(usize, u64)>, a: int, b: int)
    requires
        forall|i: int, j: int| 0 <= i < j < p.len() ==> p[i].0 < p[j].0,
        0 <= a < b < first_per_key(p).len(),
    ensures
        first_per_key(p)[a].0 < first_per_key(p)[b].0,
    decreases p.len(),
{
    let q = p.drop_last();
    let r = first_per_key(q);
    lemma_first_per_key(q);
    if keys(r).contains(p.last().1) {
        lemma_first_per_key_ordered(q, a, b);
    } else if b < r.len() {
        lemma_first_per_key_ordered(q, a, b);
    } else {
        assert(p.contains(r[a]) || q.contains(r[a]));
        let j = choose|j: int| 0 <= j < q.len() && q[j] == r[a];
        assert(p[j] == q[j]);
    }
}

/// Repeating a message in a channel that already holds a duplicate of it
/// does not raise its count.
pub proof fn lemma_same_channel_counts_once(s: Seq<MessageRecord>, n: MessageRecord, m: MessageRecord)
    requires
        exists|i: int| 0 <= i < s.len() && equivalent(s[i], n) && s[i].channel == m.channel,
    ensures
        duplicate_count(s.push(m), n) == duplicate_count(s, n),
{
    let t = s.push(m);
    assert(duplicate_channels(t, n) =~= duplicate_channels(s, n)) by {
        assert forall|c: u64| duplicate_channels(t, n).contains(c) implies duplicate_channels(s, n).contains(c) by {
            let q = choose|q: int| 0 <= q < t.len() && equivalent(t[q], n) && t[q].channel == c;
            if q == s.len() {
                let i = choose|i: int| 0 <= i < s.len() && equivalent(s[i], n) && s[i].channel == m.channel;
                assert(s[i].channel == c);
            } else {
                assert(s[q] == t[q]);
            }
        }
        assert forall|c: u64| duplicate_channels(s, n).contains(c) implies duplicate_channels(t, n).contains(c) by {
            let q = choose|q: int| 0 <= q < s.len() && equivalent(s[q], n) && s[q].channel == c;
            assert(s[q] == t[q]);
        }
    }
}

/// The count of a window whose records are all duplicates of `n`, each in
/// its own channel, is the number of records.
pub proof fn lemma_count_of_distinct_channels(s: Seq<MessageRecord>, n: MessageRecord)
    requires
        forall|i: int| 0 <= i < s.len() ==> equivalent(#[trigger] s[i], n),
        forall|i: int, j: int| 0 <= i < j < s.len() ==> s[i].channel != s[j].channel,
    ensures
        duplicate_count(s, n) == s.len(),
{
    let chans = s.map_values(|m: MessageRecord| m.channel);
    assert(chans.no_duplicates()) by {
        assert forall|i: int, j: int| 0 <= i < chans.len() && 0 <= j < chans.len() && i != j implies chans[i] != chans[j] by {
            if i < j {
                assert(s[i].channel != s[j].channel);
            } else {
                assert(s[j].channel != s[i].channel);
            }
        }
    }
    chans.unique_seq_to_set();
    assert(chans.to_set() =~= duplicate_channels(s, n)) by {
        assert forall|c: u64| chans.to_set().contains(c) implies duplicate_channels(s, n).contains(c) by {
            let i = choose|i: int| 0 <= i < chans.len() && chans[i] == c;
            assert(equivalent(s[i], n));
        }
        assert forall|c: u64| duplicate_channels(s, n).contains(c) implies chans.to_set().contains(c) by {
            let i = choose|i: int| 0 <= i < s.len() && equivalent(s[i], n) && s[i].channel == c;
            assert(chans[i] == c);
        }
    }
}

/// The count never exceeds the length of a sequence that holds every record
/// of the window.
pub proof fn lemma_count_bounded_by(s: Seq<MessageRecord>, n: MessageRecord, pool: Seq<MessageRecord>)
    requires
        forall|i: int| 0 <= i < s.len() ==> pool.contains(#[trigger] s[i]),
    ensures
        duplicate_count(s, n) <= pool.len(),
{
    let chans = pool.map_values(|m: MessageRecord| m.channel);
    chans.lemma_cardinality_of_set();
    assert(duplicate_channels(s, n).subset_of(chans.to_set())) by {
        assert forall|c: u64| duplicate_channels(s, n).contains(c) implies chans.to_set().contains(c) by {
            let i = choose|i: int| 0 <= i < s.len() && equivalent(s[i], n) && s[i].channel == c;
            assert(pool.contains(s[i]));
            let j = choose|j: int| 0 <= j < pool.len() && pool[j] == s[i];
            assert(chans[j] == c);
        }
    }
    vstd::set_lib::lemma_len_subset(duplicate_channels(s, n), chans.to_set());
}

/// Position `i` holds the earliest duplicate of `n` in its channel.
pub open spec fn first_in_channel(s: Seq<MessageRecord>, n: MessageRecord, i: int) -> bool {
    0 <= i < s.len() && equivalent(s[i], n) && forall|j: int|
        0 <= j < i && equivalent(s[j], n) ==> s[j].channel != s[i].channel
}

proof fn lemma_counted_members(s: Seq<MessageRecord>, n: MessageRecord, r: Seq<usize>)
    requires
        counted_positions(s, n, r),
    ensures
        forall|x: usize| #[trigger] r.contains(x) <==> first_in_channel(s, n, x as int),
{
    assert forall|x: usize| #[trigger] r.contains(x) <==> first_in_channel(s, n, x as int) by {
        let i = x as int;
        if r.contains(x) {
            let k = choose|k: int| 0 <= k < r.len() && r[k] == x;
            assert(r[k] < s.len() && equivalent(s[r[k] as int], n));
            assert forall|j: int| 0 <= j < i && equivalent(s[j], n) implies s[j].channel != s[i].channel by {
                let k2 = choose|k2: int|
                    0 <= k2 < r.len() && s[#[trigger] r[k2] as int].channel == #[trigger] s[j].channel && r[k2] <= j;
                if s[j].channel == s[i].channel {
                    if k2 < k {
                        assert(s[r[k2] as int].channel != s[r[k] as int].channel);
                    } else if k < k2 {
                        assert(r[k] < r[k2]);
                    }
                }
            }
        }
        if first_in_channel(s, n, i) {
            let k = choose|k: int|
                0 <= k < r.len() && s[#[trigger] r[k] as int].channel == #[trigger] s[i].channel && r[k] <= i;
            assert(r[k] < s.len() && equivalent(s[r[k] as int], n));
            assert(r[k] == x);
        }
    }
}

proof fn lemma_increasing_same_members(a: Seq<usize>, b: Seq<usize>)
    requires
        forall|i: int, j: int| 0 <= i < j < a.len() ==> a[i] < a[j],
        forall|i: int, j: int| 0 <= i < j < b.len() ==> b[i] < b[j],
        forall|x: usize| a.contains(x) <==> b.contains(x),
    ensures
        a == b,
    decreases a.len() + b.len(),
{
    if a.len() == 0 || b.len() == 0 {
        if a.len() > 0 {
            assert(a.contains(a[0]));
        }
        if b.len() > 0 {
            assert(b.contains(b[0]));
        }
        assert(a =~= b);
    } else {
        let x = a.last();
        let y = b.last();
        assert(a.contains(x));
        assert(b.contains(y));
        let j = choose|j: int| 0 <= j < b.len() && b[j] == x;
        let i = choose|i: int| 0 <= i < a.len() && a[i] == y;
        assert(x <= y) by {
            if j < b.len() - 1 {
                assert(b[j] < b[b.len() - 1]);
            }
        }
        assert(y <= x) by {
            if i < a.len() - 1 {
                assert(a[i] < a[a.len() - 1]);
            }
        }
        let a2 = a.drop_last();
        let b2 = b.drop_last();
        assert forall|z: usize| a2.contains(z) <==> b2.contains(z) by {
            if a2.contains(z) {
                let p = choose|p: int| 0 <= p < a2.len() && a2[p] == z;
                assert(a[p] < a[a.len() - 1]);
                assert(a.contains(z));
                let q = choose|q: int| 0 <= q < b.len() && b[q] == z;
                assert(q != b.len() - 1);
                assert(b2[q] == z);
            }
            if b2.contains(z) {
                let q = choose|q: int| 0 <= q < b2.len() && b2[q] == z;
                assert(b[q] < b[b.len() - 1]);
                assert(b.contains(z));
                let p = choose|p: int| 0 <= p < a.len() && a[p] == z;
                assert(p != a.len() - 1);
                assert(a2[p] == z);
            }
        }
        lemma_increasing_same_members(a2, b2);
        assert(a =~= a2.push(x));
        assert(b =~= b2.push(y));
    }
}

/// The counted duplicates are determined by the window: two sequences of
/// positions that both meet `counted_positions` are the same.
pub proof fn lemma_counted_positions_unique(s: Seq<MessageRecord>, n: MessageRecord, r1: Seq<usize>, r2: Seq<usize>)
    requires
        counted_positions(s, n, r1),
        counted_positions(s, n, r2),
    ensures
        r1 == r2,
{
    lemma_counted_members(s, n, r1);
    lemma_counted_members(s, n, r2);
    assert forall|x: usize| r1.contains(x) <==> r2.contains(x) by {
        assert(r1.contains(x) <==> first_in_channel(s, n, x as int));
        assert(r2.contains(x) <==> first_in_channel(s, n, x as int));
    }
    assert forall|i: int, j: int| 0 <= i < j < r1.len() implies r1[i] < r1[j] by {
        assert(r1[i] < r1[j]);
    }
    assert forall|i: int, j: int| 0 <= i < j < r2.len() implies r2[i] < r2[j] by {
        assert(r2[i] < r2[j]);
    }
    lemma_increasing_same_members(r1, r2);
}

} // verus!
