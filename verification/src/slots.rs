//! Outer output slots: which output mapping fills which slot, and whether
//! the slots are exactly `0, 1, .., K - 1`.

use crate::mapping::OutputMapping;
use vstd::prelude::*;

verus! {

/// One use of an outer output slot: by the output mapping at `index`, either
/// for its accumulated output (`scan`) or for its last value.
#[derive(Debug, Clone, Copy, PartialEq, Eq, Structural)]
pub struct SlotUse {
    pub slot: usize,
    pub index: usize,
    pub scan: bool,
}

/// The slots one output mapping uses: that of its accumulated output, then
/// that of its last value.
pub open spec fn uses_of<F: Clone>(m: OutputMapping<F>, index: usize) -> Seq<SlotUse> {
    let first = match m.scan {
        Some(info) => seq![SlotUse { slot: info.slot, index, scan: true }],
        None => Seq::<SlotUse>::empty(),
    };
    let second = match m.last_value_slot {
        Some(slot) => seq![SlotUse { slot, index, scan: false }],
        None => Seq::<SlotUse>::empty(),
    };
    first + second
}

/// The slots all output mappings use, in the order of the mappings.
pub open spec fn slot_uses<F: Clone>(om: Seq<OutputMapping<F>>) -> Seq<SlotUse>
    decreases om.len(),
{
    if om.len() == 0 {
        Seq::<SlotUse>::empty()
    } else {
        slot_uses(om.drop_last()) + uses_of(om.last(), (om.len() - 1) as usize)
    }
}

/// The used slots are exactly `0, 1, .., K - 1` for the number `K` of uses:
/// none is out of range, none is used twice, none is left out.
pub open spec fn dense(uses: Seq<SlotUse>) -> bool {
    &&& forall|k: int| 0 <= k < uses.len() ==> (#[trigger] uses[k]).slot < uses.len()
    &&& forall|k1: int, k2: int|
        0 <= k1 < uses.len() && 0 <= k2 < uses.len() && k1 != k2 ==> (#[trigger] uses[k1]).slot
            != (#[trigger] uses[k2]).slot
    &&& forall|s: int| 0 <= s < uses.len() ==> #[trigger] filled(uses, s)
}

/// Some use fills slot `s`.
pub open spec fn filled(uses: Seq<SlotUse>, s: int) -> bool {
    exists|k: int| filled_by(uses, s, k)
}

/// Use `k` fills slot `s`.
pub open spec fn filled_by(uses: Seq<SlotUse>, s: int, k: int) -> bool {
    0 <= k < uses.len() && uses[k].slot == s
}

/// `order` names, for every slot, the use that fills it.
pub open spec fn orders(order: Seq<usize>, uses: Seq<SlotUse>) -> bool {
    &&& order.len() == uses.len()
    &&& forall|s: int| 0 <= s < order.len() ==> filled_by(uses, s, #[trigger] order[s] as int)
}

/// Every use of a mapping list names a mapping of the list, and is a use of
/// that mapping.
pub proof fn lemma_uses_in_range<F: Clone>(om: Seq<OutputMapping<F>>)
    requires
        om.len() <= usize::MAX,
    ensures
        forall|k: int|
            0 <= k < slot_uses(om).len() ==> {
                let u = #[trigger] slot_uses(om)[k];
                &&& u.index < om.len()
                &&& u.scan ==> (om[u.index as int].scan matches Some(info) && info.slot == u.slot)
                &&& !u.scan ==> om[u.index as int].last_value_slot == Some(u.slot)
            },
    decreases om.len(),
{
    if om.len() > 0 {
        lemma_uses_in_range(om.drop_last());
        let head = slot_uses(om.drop_last());
        assert forall|k: int| 0 <= k < slot_uses(om).len() implies {
            let u = #[trigger] slot_uses(om)[k];
            &&& u.index < om.len()
            &&& u.scan ==> (om[u.index as int].scan matches Some(info) && info.slot == u.slot)
            &&& !u.scan ==> om[u.index as int].last_value_slot == Some(u.slot)
        } by {
            if k < head.len() {
                let u = head[k];
                assert(slot_uses(om)[k] == u);
                assert(om.drop_last()[u.index as int] == om[u.index as int]);
            } else {
                let tail = uses_of(om.last(), (om.len() - 1) as usize);
                assert(slot_uses(om)[k] == tail[k - head.len()]);
            }
        }
    }
}

/// The uses of all output mappings.
pub fn collect_uses<F: Clone>(om: &Vec<OutputMapping<F>>) -> (r: Vec<SlotUse>)
    ensures
        r@ == slot_uses(om@),
{
    let mut uses: Vec<SlotUse> = Vec::new();
    let n = om.len();
    let mut ix: usize = 0;
    while ix < n
        invariant
            n == om.len(),
            ix <= n,
            uses@ == slot_uses(om@.take(ix as int)),
        decreases n - ix,
    {
        proof {
            assert(om@.take(ix as int + 1).drop_last() =~= om@.take(ix as int));
            assert(om@.take(ix as int + 1).last() == om@[ix as int]);
        }
        let ghost before = uses@;
        if let Some(info) = om[ix].scan {
            uses.push(SlotUse { slot: info.slot, index: ix, scan: true });
        }
        if let Some(slot) = om[ix].last_value_slot {
            uses.push(SlotUse { slot, index: ix, scan: false });
        }
        assert(uses@ =~= before + uses_of(om@[ix as int], ix));
        ix += 1;
    }
    proof {
        assert(om@.take(n as int) =~= om@);
    }
    uses
}

/// For every slot the use that fills it, where the slots are dense; `None`
/// where they are not.
pub fn slot_order(uses: &Vec<SlotUse>) -> (r: Option<Vec<usize>>)
    ensures
        match r {
            Some(order) => dense(uses@) && orders(order@, uses@),
            None => !dense(uses@),
        },
{
    let n = uses.len();
    let mut order: Vec<usize> = Vec::new();
    let mut s: usize = 0;
    while s < n
        invariant
            s <= n,
            order@.len() == s,
            forall|t: int| 0 <= t < s ==> order@[t] == n,
        decreases n - s,
    {
        order.push(n);
        s += 1;
    }
    let mut k: usize = 0;
    while k < n
        invariant
            n == uses@.len(),
            order@.len() == n,
            k <= n,
            forall|j: int| 0 <= j < k ==> (#[trigger] uses@[j]).slot < n,
            forall|j1: int, j2: int|
                0 <= j1 < k && 0 <= j2 < k && j1 != j2 ==> (#[trigger] uses@[j1]).slot != (
                #[trigger] uses@[j2]).slot,
            forall|t: int|
                0 <= t < n ==> (#[trigger] order@[t] == n <==> forall|j: int|
                    0 <= j < k ==> (#[trigger] uses@[j]).slot != t),
            forall|t: int|
                0 <= t < n && #[trigger] order@[t] != n ==> order@[t] < k && uses@[order@[t] as int].slot
                    == t,
        decreases n - k,
    {
        let slot = uses[k].slot;
        if slot >= n {
            return None;
        }
        if order[slot] != n {
            proof {
                let j = order@[slot as int] as int;
                assert(uses@[j].slot == uses@[k as int].slot);
            }
            return None;
        }
        order.set(slot, k);
        assert forall|t: int| 0 <= t < n implies (#[trigger] order@[t] == n <==> forall|j: int|
            0 <= j < k + 1 ==> (#[trigger] uses@[j]).slot != t) by {
            if t == slot {
                assert(uses@[k as int].slot == t);
            }
        }
        k += 1;
    }
    let mut s: usize = 0;
    while s < n
        invariant
            n == uses@.len(),
            order@.len() == n,
            s <= n,
            forall|t: int| 0 <= t < s ==> #[trigger] order@[t] != n,
            forall|t: int|
                0 <= t < n ==> (#[trigger] order@[t] == n <==> forall|j: int|
                    0 <= j < n ==> (#[trigger] uses@[j]).slot != t),
        decreases n - s,
    {
        if order[s] == n {
            proof {
                if dense(uses@) {
                    assert(filled(uses@, s as int));
                    let j = choose|j: int| filled_by(uses@, s as int, j);
                    assert(uses@[j].slot == s);
                }
            }
            return None;
        }
        s += 1;
    }
    proof {
        assert forall|t: int| 0 <= t < n implies #[trigger] filled(uses@, t) by {
            assert(filled_by(uses@, t, order@[t] as int));
        }
    }
    Some(order)
}

} // verus!
