//! The ordering stage of the concurrent pipeline: decoded records arrive tagged with
//! their sequence index, in any order, and leave in index order.
use crate::prim::Name;
use vstd::prelude::*;

verus! {

/// Holds records that arrived early until every record before them has been written.
pub struct ReorderBuffer {
    next_index: usize,
    pending: Vec<(usize, Name)>,
    received: Ghost<Map<int, Seq<char>>>,
    written: Ghost<Seq<Seq<char>>>,
}

/// Pending entries that agree with what was received, each index once.
pub open spec fn pending_ok(pending: Seq<(usize, Name)>, received: Map<int, Seq<char>>, next: int) -> bool {
    &&& forall|k: int|
        0 <= k < pending.len() ==> {
            &&& next <= (#[trigger] pending[k]).0 < usize::MAX
            &&& received.contains_key(pending[k].0 as int)
            &&& received[pending[k].0 as int] == pending[k].1@
        }
    &&& forall|k: int, l: int|
        0 <= k < l < pending.len() ==> (#[trigger] pending[k]).0 != (#[trigger] pending[l]).0
    &&& forall|i: int|
        received.contains_key(i) && i >= next ==> exists|k: int|
            0 <= k < pending.len() && (#[trigger] pending[k]).0 == i
    &&& forall|i: int| 0 <= i < next ==> #[trigger] received.contains_key(i)
}

/// Where the entry for `target` stands among the pending entries.
fn find_pending(pending: &Vec<(usize, Name)>, target: usize) -> (r: Option<usize>)
    ensures
        r matches Some(k) ==> k < pending@.len() && pending@[k as int].0 == target,
        r is None ==> forall|m: int| 0 <= m < pending@.len() ==> (#[trigger] pending@[m]).0 != target,
{
    let mut k: usize = 0;
    while k < pending.len()
        invariant
            k <= pending@.len(),
            forall|m: int| 0 <= m < k ==> (#[trigger] pending@[m]).0 != target,
        decreases pending.len() - k,
    {
        if pending[k].0 == target {
            return Some(k);
        }
        k = k + 1;
    }
    None
}

impl ReorderBuffer {
    /// The index of the next record to write.
    pub closed spec fn next(&self) -> nat {
        self.next_index as nat
    }

    /// Every record received so far, by index.
    pub closed spec fn received(&self) -> Map<int, Seq<char>> {
        self.received@
    }

    /// Every record written so far, in the order written.
    pub closed spec fn written(&self) -> Seq<Seq<char>> {
        self.written@
    }

    pub closed spec fn wf(&self) -> bool {
        &&& pending_ok(self.pending@, self.received@, self.next_index as int)
        &&& !self.received@.contains_key(self.next_index as int)
        &&& self.written@ == Seq::new(self.next_index as nat, |i: int| self.received@[i])
    }

    pub fn new() -> (r: ReorderBuffer)
        ensures
            r.wf(),
            r.next() == 0,
            r.received() == Map::<int, Seq<char>>::empty(),
            r.written() == Seq::<Seq<char>>::empty(),
    {
        let r = ReorderBuffer {
            next_index: 0,
            pending: Vec::new(),
            received: Ghost(Map::empty()),
            written: Ghost(Seq::empty()),
        };
        assert(r.written@ =~= Seq::new(0, |i: int| r.received@[i]));
        r
    }

    /// How many records wait for an earlier one.
    pub fn pending_len(&self) -> (r: usize)
        requires
            self.wf(),
        ensures
            r == self.received().dom().filter(|i: int| i >= self.next()).len(),
    {
        proof {
            self.lemma_pending_count();
        }
        self.pending.len()
    }

    proof fn lemma_pending_count(&self)
        requires
            self.wf(),
        ensures
            self.pending@.len() == self.received@.dom().filter(|i: int| i >= self.next_index).len(),
    {
        let idx = self.pending@.map_values(|e: (usize, Name)| e.0 as int);
        let f = self.received@.dom().filter(|i: int| i >= self.next_index);
        assert(idx.to_set() =~= f) by {
            assert forall|i: int| f.contains(i) implies idx.to_set().contains(i) by {
                let k = choose|k: int| 0 <= k < self.pending@.len() && (#[trigger] self.pending@[k]).0 == i;
                assert(idx[k] == i);
            }
            assert forall|i: int| idx.to_set().contains(i) implies f.contains(i) by {
                let k = choose|k: int| 0 <= k < idx.len() && idx[k] == i;
                assert(self.pending@[k].0 == i);
            }
        }
        assert(idx.no_duplicates()) by {
            assert forall|k: int, l: int| 0 <= k < idx.len() && 0 <= l < idx.len() && k != l implies idx[k]
                != idx[l] by {
                if k < l {
                    assert(self.pending@[k].0 != self.pending@[l].0);
                } else {
                    assert(self.pending@[l].0 != self.pending@[k].0);
                }
            }
        }
        idx.unique_seq_to_set();
    }

    /// Takes the record `index`, and hands back, in order, the records that can now be
    /// written: `index` and those after it that were waiting, as far as none is missing.
    pub fn push(&mut self, index: usize, line: Name) -> (out: Vec<Name>)
        requires
            old(self).wf(),
            index < usize::MAX,
            !old(self).received().contains_key(index as int),
        ensures
            final(self).wf(),
            final(self).received() == old(self).received().insert(index as int, line@),
            old(self).next() <= final(self).next(),
            out@.len() == final(self).next() - old(self).next(),
            forall|j: int|
                0 <= j < out@.len() ==> (#[trigger] out@[j])@ == final(self).received()[old(self).next() + j],
            final(self).written() == old(self).written() + out@.map_values(|l: Name| l@),
    {
        let ghost old_next = self.next_index as int;
        let ghost old_written = self.written@;
        let ghost line_view = line@;
        self.received = Ghost(self.received@.insert(index as int, line@));
        self.pending.push((index, line));
        let mut out: Vec<Name> = Vec::new();
        assert(out@.map_values(|l: Name| l@) =~= Seq::<Seq<char>>::empty());
        assert(old_written + out@.map_values(|l: Name| l@) =~= old_written);
        assert(pending_ok(self.pending@, self.received@, self.next_index as int)) by {
            let p = self.pending@;
            let op = old(self).pending@;
            assert(p.len() == op.len() + 1);
            assert forall|m: int| 0 <= m < op.len() implies (#[trigger] op[m]).0 != index by {
                assert(old(self).received@.contains_key(op[m].0 as int));
            }
            if index < self.next_index {
                assert(old(self).received@.contains_key(index as int));
            }
            assert forall|k: int| 0 <= k < p.len() implies {
                &&& self.next_index <= (#[trigger] p[k]).0 < usize::MAX
                &&& self.received@.contains_key(p[k].0 as int)
                &&& self.received@[p[k].0 as int] == p[k].1@
            } by {
                if k < op.len() {
                    assert(p[k] == op[k]);
                }
            }
            assert forall|a: int, b: int| 0 <= a < b < p.len() implies (#[trigger] p[a]).0 != (#[trigger] p[b]).0 by {
                assert(p[a] == op[a]);
                if b < op.len() {
                    assert(p[b] == op[b]);
                }
            }
            assert forall|i: int| self.received@.contains_key(i) && i >= self.next_index implies exists|k: int|
                0 <= k < p.len() && (#[trigger] p[k]).0 == i by {
                if i == index {
                    assert(p[p.len() - 1].0 == i);
                } else {
                    assert(old(self).received@.contains_key(i));
                    let k = choose|k: int| 0 <= k < op.len() && (#[trigger] op[k]).0 == i;
                    assert(p[k] == op[k]);
                }
            }
        }
        assert(index >= self.next_index) by {
            if index < self.next_index {
                assert(old(self).received@.contains_key(index as int));
            }
        }
        assert(self.written@ =~= Seq::new(self.next_index as nat, |i: int| self.received@[i]));
        loop
            invariant
                pending_ok(self.pending@, self.received@, self.next_index as int),
                self.received@ == old(self).received@.insert(index as int, line_view),
                old_next <= self.next_index,
                old_next == old(self).next_index,
                old_written == old(self).written@,
                old_written == Seq::new(old_next as nat, |i: int| old(self).received@[i]),
                self.written@ == Seq::new(self.next_index as nat, |i: int| self.received@[i]),
                out@.len() == self.next_index - old_next,
                forall|j: int| 0 <= j < out@.len() ==> (#[trigger] out@[j])@ == self.received@[old_next + j],
                self.written@ == old_written + out@.map_values(|l: Name| l@),
            ensures
                pending_ok(self.pending@, self.received@, self.next_index as int),
                !self.received@.contains_key(self.next_index as int),
                self.received@ == old(self).received@.insert(index as int, line_view),
                old_next <= self.next_index,
                self.written@ == Seq::new(self.next_index as nat, |i: int| self.received@[i]),
                out@.len() == self.next_index - old_next,
                forall|j: int| 0 <= j < out@.len() ==> (#[trigger] out@[j])@ == self.received@[old_next + j],
                self.written@ == old_written + out@.map_values(|l: Name| l@),
            decreases self.pending@.len(),
        {
            let k = match find_pending(&self.pending, self.next_index) {
                Some(k) => k,
                None => {
                    break;
                },
            };
            let ghost p = self.pending@;
            let ghost n = self.next_index as int;
            let (_, l) = self.pending.remove(k);
            let ghost lv = l@;
            out.push(l);
            self.written = Ghost(self.written@.push(lv));
            self.next_index = self.next_index + 1;
            proof {
                let q = self.pending@;
                assert(q =~= p.remove(k as int));
                assert forall|m: int| 0 <= m < q.len() implies (#[trigger] q[m]).0 != n by {
                    if m < k {
                        assert(q[m] == p[m]);
                        assert(p[m].0 != p[k as int].0);
                    } else {
                        assert(q[m] == p[m + 1]);
                        assert(p[k as int].0 != p[m + 1].0);
                    }
                }
                assert forall|i: int| self.received@.contains_key(i) && i >= self.next_index implies exists|m: int|
                    0 <= m < q.len() && (#[trigger] q[m]).0 == i by {
                    let m = choose|m: int| 0 <= m < p.len() && (#[trigger] p[m]).0 == i;
                    if m < k {
                        assert(q[m].0 == i);
                    } else {
                        assert(m != k);
                        assert(q[m - 1].0 == i);
                    }
                }
                assert forall|a: int, b: int| 0 <= a < b < q.len() implies (#[trigger] q[a]).0 != (#[trigger] q[b]).0 by {
                    let a2 = if a < k { a } else { a + 1 };
                    let b2 = if b < k { b } else { b + 1 };
                    assert(q[a] == p[a2] && q[b] == p[b2]);
                }
                assert(self.written@ =~= Seq::new(self.next_index as nat, |i: int| self.received@[i]));
                assert(out@.map_values(|l: Name| l@) =~= out@.drop_last().map_values(|l: Name| l@).push(lv));
                assert(self.written@ =~= old_written + out@.map_values(|l: Name| l@));
            }
        }
        proof {
            assert(!self.received@.contains_key(self.next_index as int)) by {
                if self.received@.contains_key(self.next_index as int) {
                    let m = choose|m: int| 0 <= m < self.pending@.len() && (#[trigger] self.pending@[m]).0 == self.next_index as int;
                }
            }
        }
        out
    }
}

/// Order is kept whatever the order of arrival: once every record up to `n` has arrived,
/// the first `n` records written are those records in index order.
pub proof fn lemma_order_preserved(buf: ReorderBuffer, n: nat)
    requires
        buf.wf(),
        forall|i: int| 0 <= i < n ==> #[trigger] buf.received().contains_key(i),
    ensures
        n <= buf.next(),
        buf.written().subrange(0, n as int) == Seq::new(n, |i: int| buf.received()[i]),
{
    if buf.next() < n {
        assert(buf.received().contains_key(buf.next() as int));
    }
    assert(buf.written().subrange(0, n as int) =~= Seq::new(n, |i: int| buf.received()[i]));
}

} // verus!
