use vstd::prelude::*;

use crate::state::workspace::WORKSPACE_COUNT;

verus! {

/// The slots after placing, of the first `n` layouts of `es`, those pinned to a slot
/// number from 1 to the number of slots: each goes to its slot unless an earlier one took it.
pub open spec fn pinned_slots<T>(es: Seq<(Option<usize>, T)>, n: int) -> Seq<Option<T>>
    decreases n,
{
    if n <= 0 {
        Seq::new(WORKSPACE_COUNT as nat, |i: int| None)
    } else {
        let prev = pinned_slots(es, n - 1);
        match es[n - 1].0 {
            Some(i) => if 1 <= i <= WORKSPACE_COUNT && prev[i - 1] is None {
                prev.update(i - 1, Some(es[n - 1].1))
            } else {
                prev
            },
            None => prev,
        }
    }
}

/// Whether a layout with slot number `idx` is pinned to a slot.
pub open spec fn is_pinned(idx: Option<usize>) -> bool {
    match idx {
        Some(i) => 1 <= i <= WORKSPACE_COUNT,
        None => false,
    }
}

/// The layouts among the first `n` of `es` that are not pinned to a slot, in order.
pub open spec fn unpinned<T>(es: Seq<(Option<usize>, T)>, n: int) -> Seq<T>
    decreases n,
{
    if n <= 0 {
        Seq::empty()
    } else if is_pinned(es[n - 1].0) {
        unpinned(es, n - 1)
    } else {
        unpinned(es, n - 1).push(es[n - 1].1)
    }
}

/// `slots` with its empty slots filled, in order, by the layouts of `extra`, in order.
pub open spec fn filled<T>(slots: Seq<Option<T>>, extra: Seq<T>) -> Seq<Option<T>>
    decreases slots.len(),
{
    if slots.len() == 0 {
        Seq::empty()
    } else if slots[0] is None && extra.len() > 0 {
        seq![Some(extra[0])] + filled(slots.drop_first(), extra.drop_first())
    } else {
        seq![slots[0]] + filled(slots.drop_first(), extra)
    }
}

/// The layout slots that the configured layouts `es` (each with its optional slot number,
/// counted from 1) give.
pub open spec fn spec_assign_slots<T>(es: Seq<(Option<usize>, T)>) -> Seq<Option<T>> {
    filled(pinned_slots(es, es.len() as int), unpinned(es, es.len() as int))
}

proof fn lemma_pinned_len<T>(es: Seq<(Option<usize>, T)>, n: int)
    ensures
        pinned_slots(es, n).len() == WORKSPACE_COUNT,
    decreases n,
{
    if n > 0 {
        lemma_pinned_len(es, n - 1);
    }
}

/// Puts the configured layouts into the layout slots: a layout with a slot number from 1
/// to the number of slots goes to that slot, unless an earlier one took it (then it is
/// dropped); the others fill the slots left empty, in order, as long as there are any.
pub fn assign_slots<T>(entries: Vec<(Option<usize>, T)>) -> (slots: Vec<Option<T>>)
    ensures
        slots@ == spec_assign_slots(entries@),
{
    let ghost es = entries@;
    let mut entries = entries;
    let mut slots: Vec<Option<T>> = Vec::new();
    let mut k: usize = 0;
    while k < WORKSPACE_COUNT
        invariant
            k <= WORKSPACE_COUNT,
            slots@ == Seq::new(k as nat, |i: int| None::<T>),
        decreases WORKSPACE_COUNT - k,
    {
        slots.push(None);
        assert(slots@ =~= Seq::new(k as nat + 1, |i: int| None::<T>));
        k = k + 1;
    }
    let mut rest: Vec<T> = Vec::new();
    let mut n: usize = 0;
    let total = entries.len();
    while entries.len() > 0
        invariant
            total == es.len(),
            n + entries@.len() == total,
            entries@ == es.subrange(n as int, total as int),
            slots@ == pinned_slots(es, n as int),
            rest@ == unpinned(es, n as int),
        decreases entries@.len(),
    {
        proof { lemma_pinned_len(es, n as int); }
        let (idx, layout) = entries.remove(0);
        assert(es[n as int] == (idx, layout));
        let mut pinned = false;
        match idx {
            Some(i) => {
                if 1 <= i && i <= WORKSPACE_COUNT {
                    pinned = true;
                    if slots[i - 1].is_none() {
                        slots.set(i - 1, Some(layout));
                    }
                }
                else {
                    rest.push(layout);
                }
            },
            None => {
                rest.push(layout);
            },
        }
        assert(entries@ =~= es.subrange(n as int + 1, total as int));
        n = n + 1;
    }
    let ghost extra = rest@;
    let ghost pins = slots@;
    assert(extra.len() == rest.len());
    proof { lemma_pinned_len(es, n as int); }
    let mut out: Vec<Option<T>> = Vec::new();
    let mut rest = rest;
    let mut slots = slots;
    assert(rest@.subrange(0, extra.len() as int) =~= extra);
    assert(slots@.subrange(0, WORKSPACE_COUNT as int) =~= pins);
    let mut i: usize = 0;
    let mut used: usize = 0;
    while slots.len() > 0
        invariant
            pins.len() == WORKSPACE_COUNT,
            i + slots@.len() == WORKSPACE_COUNT,
            slots@ == pins.subrange(i as int, WORKSPACE_COUNT as int),
            used <= extra.len() <= usize::MAX,
            rest@ == extra.subrange(used as int, extra.len() as int),
            out@ + filled(slots@, rest@) == filled(pins, extra),
        decreases slots@.len(),
    {
        let s = slots.remove(0);
        let ghost before_slots = s;
        assert(slots@ =~= pins.subrange(i as int + 1, WORKSPACE_COUNT as int));
        match s {
            None => {
                if rest.len() > 0 {
                    let l = rest.remove(0);
                    assert(rest@ =~= extra.subrange(used as int + 1, extra.len() as int));
                    out.push(Some(l));
                    used = used + 1;
                } else {
                    out.push(None);
                }
            },
            Some(l) => {
                out.push(Some(l));
            },
        }
        i = i + 1;
    }
    assert(out@ =~= filled(pins, extra));
    out
}

} // verus!
