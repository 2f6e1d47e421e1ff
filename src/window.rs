use vstd::prelude::*;

use crate::record::MessageRecord;

verus! {

/// A record that arrived at `stamp` has reached the retention `retention`
/// at time `now`. A record stamped after `now` has no age yet.
pub open spec fn expired(stamp: u64, now: u64, retention: u64) -> bool {
    now as int - stamp as int >= retention as int
}

/// The records of `s` that are still young at `now`, in their order.
pub open spec fn retained(s: Seq<MessageRecord>, now: u64, retention: u64) -> Seq<MessageRecord>
    decreases s.len(),
{
    if s.len() == 0 {
        s
    } else {
        let rest = retained(s.drop_last(), now, retention);
        if expired(s.last().timestamp, now, retention) {
            rest
        } else {
            rest.push(s.last())
        }
    }
}

/// Eviction is exact: after it, a record is present if and only if it was
/// present before and has not reached the retention; a record exactly
/// `retention` old is gone, as is every older one.
pub proof fn lemma_retained_members(s: Seq<MessageRecord>, now: u64, retention: u64)
    ensures
        retained(s, now, retention).len() <= s.len(),
        forall|m: MessageRecord| #[trigger]
            retained(s, now, retention).contains(m) <==> (s.contains(m) && !expired(
                m.timestamp,
                now,
                retention,
            )),
    decreases s.len(),
{
    if s.len() > 0 {
        let t = s.drop_last();
        lemma_retained_members(t, now, retention);
        assert(s =~= t.push(s.last()));
        assert forall|m: MessageRecord| s.contains(m) <==> (t.contains(m) || m == s.last()) by {
            if s.contains(m) {
                let k = choose|k: int| 0 <= k < s.len() && s[k] == m;
                if k < t.len() {
                    assert(t[k] == m);
                }
            }
            if t.contains(m) {
                let k = choose|k: int| 0 <= k < t.len() && t[k] == m;
                assert(s[k] == m);
            }
            if m == s.last() {
                assert(s[s.len() - 1] == m);
            }
        }
        let r = retained(t, now, retention);
        assert forall|m: MessageRecord| #[trigger] r.push(s.last()).contains(m) <==> (r.contains(m)
            || m == s.last()) by {
            if r.push(s.last()).contains(m) {
                let k = choose|k: int| 0 <= k < r.len() + 1 && r.push(s.last())[k] == m;
                if k < r.len() {
                    assert(r[k] == m);
                }
            }
            if r.contains(m) {
                let k = choose|k: int| 0 <= k < r.len() && r[k] == m;
                assert(r.push(s.last())[k] == m);
            }
            if m == s.last() {
                assert(r.push(s.last())[r.len() as int] == m);
            }
        }
    }
}

/// The sliding window of recent messages. Records are kept in order of
/// arrival, oldest first; `retention` is in milliseconds.
pub struct Window {
    records: Vec<MessageRecord>,
    retention: u64,
}

impl Window {
    pub closed spec fn spec_records(&self) -> Seq<MessageRecord> {
        self.records@
    }

    pub closed spec fn spec_retention(&self) -> u64 {
        self.retention
    }

    /// An empty window that keeps records for `retention` milliseconds.
    pub fn new(retention: u64) -> (w: Window)
        ensures
            w.spec_records() == Seq::<MessageRecord>::empty(),
            w.spec_retention() == retention,
    {
        Window { records: Vec::new(), retention }
    }

    pub fn retention(&self) -> (r: u64)
        ensures
            r == self.spec_retention(),
    {
        self.retention
    }

    /// The records now held, oldest first, for inspection.
    pub fn snapshot(&self) -> (r: &Vec<MessageRecord>)
        ensures
            r@ == self.spec_records(),
    {
        &self.records
    }

    /// Removes, in one pass, every record that has reached the retention at
    /// `now`; the others keep their order.
    pub fn evict_expired(&mut self, now: u64)
        ensures
            final(self).spec_records() == retained(old(self).spec_records(), now, old(self).spec_retention()),
            final(self).spec_retention() == old(self).spec_retention(),
    {
        let ghost orig = self.records@;
        let n: usize = self.records.len();
        let mut i: usize = 0;
        let mut j: usize = 0;
        while i < self.records.len()
            invariant
                orig.len() == n,
                j <= orig.len(),
                i <= self.records@.len(),
                self.records@ == retained(orig.take(j as int), now, self.retention) + orig.skip(
                    j as int,
                ),
                i == retained(orig.take(j as int), now, self.retention).len(),
                self.retention == old(self).retention,
                self.records@.len() + j == i + orig.len(),
                orig == old(self).records@,
            decreases self.records@.len() - i,
        {
            let ghost kept = retained(orig.take(j as int), now, self.retention);
            proof {
                assert(orig.take(j as int + 1).drop_last() =~= orig.take(j as int));
                assert(self.records@[i as int] == orig[j as int]);
            }
            let stamp = self.records[i].timestamp;
            if now >= stamp && now - stamp >= self.retention {
                self.records.remove(i);
                proof {
                    assert(self.records@ =~= kept + orig.skip(j as int + 1));
                }
            } else {
                proof {
                    assert(self.records@ =~= kept.push(orig[j as int]) + orig.skip(j as int + 1));
                }
                i = i + 1;
            }
            j = j + 1;
        }
        proof {
            assert(orig.take(j as int) =~= orig);
            assert(self.records@ =~= retained(orig, now, self.retention));
        }
    }

    /// Adds a record as the newest.
    pub fn insert(&mut self, record: MessageRecord)
        ensures
            final(self).spec_records() == old(self).spec_records().push(record),
            final(self).spec_retention() == old(self).spec_retention(),
    {
        self.records.push(record);
    }

    /// Evicts what has expired at the record's arrival, then adds the record.
    pub fn ingest(&mut self, record: MessageRecord)
        ensures
            final(self).spec_records() == retained(
                old(self).spec_records(),
                record.timestamp,
                old(self).spec_retention(),
            ).push(record),
            final(self).spec_retention() == old(self).spec_retention(),
    {
        self.evict_expired(record.timestamp);
        self.insert(record);
    }
}

} // verus!
