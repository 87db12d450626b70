use vstd::prelude::*;

use crate::parse::NL;
use crate::text::{append_bytes, views};

verus! {

/// The batch under construction: walked items are buffered here and handed
/// out as full batches of exactly the configured size; whatever is left at
/// the end of the walk goes out as one final, smaller batch.
pub struct Batcher {
    pub items: Vec<Vec<u8>>,
    pub bound: usize,
}

impl Batcher {
    /// The buffer stays strictly under the bound: reaching it flushes at
    /// once.
    pub open spec fn wf(self) -> bool {
        1 <= self.bound && self.items@.len() < self.bound
    }

    pub fn new(bound: usize) -> (b: Batcher)
        requires
            1 <= bound,
        ensures
            b.wf(),
            b.bound == bound,
            b.items@.len() == 0,
    {
        Batcher { items: Vec::new(), bound }
    }

    /// Adds one item. When the buffer thereby reaches the bound, the full
    /// batch comes back — always exactly `bound` items, the buffered ones
    /// first and `item` last — and the buffer is cleared.
    pub fn push(&mut self, item: Vec<u8>) -> (flushed: Option<Vec<Vec<u8>>>)
        requires
            old(self).wf(),
        ensures
            final(self).wf(),
            final(self).bound == old(self).bound,
            match flushed {
                Option::Some(batch) => old(self).items@.len() + 1 == old(self).bound && views(
                    batch@,
                ) == views(old(self).items@).push(item@) && batch@.len() == old(self).bound
                    && final(self).items@.len() == 0,
                Option::None => old(self).items@.len() + 1 < old(self).bound && views(
                    final(self).items@,
                ) == views(old(self).items@).push(item@),
            },
    {
        let ghost it = item@;
        let ghost items0 = self.items@;
        self.items.push(item);
        proof {
            assert(views(self.items@) =~= views(items0).push(it));
        }
        if self.items.len() == self.bound {
            let mut batch: Vec<Vec<u8>> = Vec::new();
            core::mem::swap(&mut batch, &mut self.items);
            Option::Some(batch)
        } else {
            Option::None
        }
    }

    /// Ends the run: the last, partial batch comes back — between one item
    /// and one less than the bound — or nothing when the walk ended on a
    /// flush.
    pub fn finish(self) -> (last: Option<Vec<Vec<u8>>>)
        requires
            self.wf(),
        ensures
            match last {
                Option::Some(batch) => self.items@.len() > 0 && views(batch@) == views(
                    self.items@,
                ) && 1 <= batch@.len() < self.bound,
                Option::None => self.items@.len() == 0,
            },
    {
        if self.items.len() == 0 {
            Option::None
        } else {
            Option::Some(self.items)
        }
    }
}

/// The batches that a run over `items` flushes, in order: full batches of
/// exactly `bound` items as long as items remain, then whatever is left.
pub open spec fn batches_of(items: Seq<Seq<u8>>, bound: nat) -> Seq<Seq<Seq<u8>>>
    decreases items.len(),
        when 1 <= bound
{
    if items.len() == 0 {
        Seq::empty()
    } else if items.len() <= bound {
        seq![items]
    } else {
        seq![items.take(bound as int)] + batches_of(items.skip(bound as int), bound)
    }
}

/// Every flushed batch except possibly the last holds exactly `bound`
/// items, the last holds between one and `bound`, in order the batches
/// hold exactly the items of the run, and the run flushes once per begun
/// `bound` of items.
pub proof fn lemma_batches_of(items: Seq<Seq<u8>>, bound: nat)
    requires
        1 <= bound,
    ensures
        forall|i: int|
            0 <= i < batches_of(items, bound).len() - 1 ==> (#[trigger] batches_of(items, bound)[i]).len()
                == bound,
        forall|i: int|
            0 <= i < batches_of(items, bound).len() ==> 1 <= (#[trigger] batches_of(items, bound)[i]).len()
                <= bound,
        batches_of(items, bound).flatten() == items,
        batches_of(items, bound).len() == (items.len() + bound - 1) / (bound as int),
    decreases items.len(),
{
    let bs = batches_of(items, bound);
    if items.len() == 0 {
        assert(bs.flatten() =~= items);
        vstd::arithmetic::div_mod::lemma_basic_div(items.len() + bound - 1, bound as int);
    } else if items.len() <= bound {
        vstd::arithmetic::div_mod::lemma_basic_div(items.len() - 1, bound as int);
        vstd::arithmetic::div_mod::lemma_div_plus_one(items.len() - 1, bound as int);
        assert(bs.drop_first() =~= Seq::<Seq<Seq<u8>>>::empty());
        assert(bs.drop_first().flatten() =~= Seq::<Seq<u8>>::empty());
        assert(bs.flatten() =~= items);
    } else {
        let head = items.take(bound as int);
        let tail = items.skip(bound as int);
        lemma_batches_of(tail, bound);
        vstd::arithmetic::div_mod::lemma_div_plus_one(items.len() - 1, bound as int);
        let rest = batches_of(tail, bound);
        assert(bs.first() == head);
        assert(bs.drop_first() =~= rest);
        assert(bs.flatten() == head + rest.flatten());
        assert(head + tail =~= items);
        assert forall|i: int| 0 <= i < bs.len() - 1 implies (#[trigger] bs[i]).len() == bound by {
            if i > 0 {
                assert(bs[i] == rest[i - 1]);
            }
        }
        assert forall|i: int| 0 <= i < bs.len() implies 1 <= (#[trigger] bs[i]).len() <= bound by {
            if i > 0 {
                assert(bs[i] == rest[i - 1]);
            }
        }
    }
}

/// The list-file payload of a batch, read from item `i` on: each item path
/// raw, each followed by one line break, nothing quoted or escaped.
pub open spec fn payload_from(items: Seq<Seq<u8>>, i: int) -> Seq<u8>
    decreases items.len() - i,
        when 0 <= i
{
    if i >= items.len() {
        Seq::empty()
    } else {
        items[i] + seq![NL] + payload_from(items, i + 1)
    }
}

/// Writes the batch's item paths as the transfer executable's list file
/// expects them: one raw path per line, each line newline-terminated.
pub fn list_file_payload(items: &Vec<Vec<u8>>) -> (v: Vec<u8>)
    ensures
        v@ == payload_from(views(items@), 0),
{
    let ghost vs = views(items@);
    let mut v: Vec<u8> = Vec::new();
    let mut i: usize = 0;
    proof {
        assert(v@ + payload_from(vs, 0) =~= payload_from(vs, 0));
    }
    while i < items.len()
        invariant
            i <= items@.len(),
            vs == views(items@),
            payload_from(vs, 0) == v@ + payload_from(vs, i as int),
        decreases items@.len() - i,
    {
        let ghost v0 = v@;
        append_bytes(&mut v, &items[i]);
        v.push(NL);
        proof {
            assert(v@ =~= v0 + vs[i as int] + seq![NL]);
            assert(v0 + (vs[i as int] + seq![NL] + payload_from(vs, i + 1)) =~= v@ + payload_from(
                vs,
                i + 1,
            ));
        }
        i = i + 1;
    }
    proof {
        assert(v@ + Seq::<u8>::empty() =~= v@);
    }
    v
}

} // verus!
