//! The model of the platform-level interrupt controller.

use std::collections::BTreeSet;
use vstd::prelude::*;
use vstd::std_specs::iter::IteratorSpec;

verus! {

/// Platform-level interrupt controller, reduced to the set of interrupt
/// numbers that wait to be claimed.
#[derive(Debug)]
pub struct Plic {
    irq_pending: BTreeSet<u16>,
}

/// `k` is pending and no smaller interrupt number is.
pub open spec fn is_lowest(pending: Set<u16>, k: u16) -> bool {
    pending.contains(k) && forall|j: u16| pending.contains(j) ==> k <= j
}

/// What a read of a claim register returns: the lowest pending interrupt
/// number, or 0 when nothing is pending.
pub open spec fn claim_value(pending: Set<u16>) -> u64 {
    if exists|k: u16| is_lowest(pending, k) {
        (choose|k: u16| is_lowest(pending, k)) as u64
    } else {
        0
    }
}

/// The access addresses the claim/complete register of some context.
pub open spec fn is_claim_register(offset: u64, width: u64) -> bool {
    width == 4 && 0x200000 <= offset < 0x4000000 && offset & 0xfff == 4
}

/// The access addresses a priority or an enable register.
pub open spec fn is_priority_or_enable_register(offset: u64, width: u64) -> bool {
    width == 4 && (offset < 0x1000 || 0x2000 <= offset < 0x200000)
}

/// The access addresses the threshold register of some context.
pub open spec fn is_threshold_register(offset: u64, width: u64) -> bool {
    width == 4 && 0x200000 <= offset < 0x4000000 && offset & 0xfff == 0
}

/// A store of `width` bytes to `offset` addresses a register that the
/// model knows; a store to any other place is accepted and worth a note.
pub open spec fn is_known_write(offset: u64, width: u64) -> bool {
    ||| is_priority_or_enable_register(offset, width)
    ||| is_threshold_register(offset, width)
    ||| is_claim_register(offset, width)
}

/// A load of `width` bytes from `offset` addresses a register that the
/// model knows; a load from any other place reads 0 and is worth a note.
pub open spec fn is_known_read(offset: u64, width: u64) -> bool {
    is_priority_or_enable_register(offset, width) || is_claim_register(offset, width)
}

/// Tells whether a store of `width` bytes to `offset` addresses a register
/// that the model knows.
pub fn knows_write(offset: u64, width: u64) -> (known: bool)
    ensures
        known == is_known_write(offset, width),
{
    width == 4 && (offset < 0x1000 || (0x2000 <= offset && offset < 0x200000) || (0x200000 <= offset
        && offset < 0x4000000 && ((offset & 0xfff) == 0 || (offset & 0xfff) == 4)))
}

/// Tells whether a load of `width` bytes from `offset` addresses a register
/// that the model knows.
pub fn knows_read(offset: u64, width: u64) -> (known: bool)
    ensures
        known == is_known_read(offset, width),
{
    width == 4 && (offset < 0x1000 || (0x2000 <= offset && offset < 0x200000) || (0x200000 <= offset
        && offset < 0x4000000 && (offset & 0xfff) == 4))
}

/// The pending set after `value` was written to the register at `offset`.
pub open spec fn pending_after_write(pending: Set<u16>, offset: u64, value: u64, width: u64) -> Set<
    u16,
> {
    if is_claim_register(offset, width) && value <= 0xffff {
        pending.remove(value as u16)
    } else {
        pending
    }
}

/// What a read of the register at `offset` returns.
pub open spec fn read_value(pending: Set<u16>, offset: u64, width: u64) -> u64 {
    if is_claim_register(offset, width) {
        claim_value(pending)
    } else {
        0
    }
}

impl Plic {
    /// The interrupt numbers that are pending.
    pub closed spec fn pending(&self) -> Set<u16> {
        self.irq_pending@
    }

    /// A controller with nothing pending.
    pub fn new() -> (plic: Self)
        ensures
            plic.pending() == Set::<u16>::empty(),
    {
        Self { irq_pending: BTreeSet::new() }
    }

    /// The lowest pending interrupt number, or 0 when nothing is pending.
    fn lowest_pending(&self) -> (r: u64)
        ensures
            r == claim_value(self.pending()),
    {
        let mut best: Option<u16> = None;
        let ghost all = self.irq_pending.iter().remaining().unref();
        let ghost mut seen: int = 0;
        for k in it: self.irq_pending.iter()
            invariant
                it.seq().unref() == all,
                all.to_set() == self.irq_pending@,
                seen == it.index(),
                0 <= seen <= all.len(),
                best is None <==> seen == 0,
                best matches Some(b) ==> {
                    &&& exists|j: int| 0 <= j < seen && all[j] == b
                    &&& forall|j: int| 0 <= j < seen ==> b <= #[trigger] all[j]
                },
        {
            let candidate: u16 = *k;
            assert(all[seen] == candidate);
            let keep = match best {
                Some(b) => b <= candidate,
                None => false,
            };
            if !keep {
                best = Some(candidate);
            }
            proof {
                seen = seen + 1;
            }
        }
        assert(seen == all.len());
        match best {
            Some(b) => {
                proof {
                    let j = choose|j: int| 0 <= j < seen && all[j] == b;
                    assert(all.contains(all[j]));
                    assert forall|x: u16| self.pending().contains(x) implies b <= x by {
                        assert(all.contains(x));
                        let i = choose|i: int| 0 <= i < all.len() && all[i] == x;
                        assert(b <= all[i]);
                    }
                    assert(is_lowest(self.pending(), b));
                    let c = choose|k: u16| is_lowest(self.pending(), k);
                    assert(is_lowest(self.pending(), c));
                }
                b as u64
            },
            None => {
                proof {
                    assert forall|x: u16| !self.pending().contains(x) by {
                        if self.pending().contains(x) {
                            assert(all.contains(x));
                        }
                    }
                }
                0
            },
        }
    }

    /// Serves a guest store to the register at `offset`. Writing an interrupt
    /// number to a claim register completes that interrupt; every other write
    /// is accepted and changes nothing.
    pub fn handle_write(&mut self, offset: u64, value: u64, width: u64)
        ensures
            final(self).pending() == pending_after_write(old(self).pending(), offset, value, width),
    {
        if width == 4 && 0x200000 <= offset && offset < 0x4000000 && (offset & 0xfff) == 4 && value
            <= 0xffff {
            let irq: u16 = value as u16;
            self.irq_pending.remove(&irq);
        }
    }

    /// Serves a guest load from the register at `offset`. A claim register
    /// reads as the lowest pending interrupt number; every other register
    /// reads as 0.
    pub fn handle_read(&self, offset: u64, width: u64) -> (value: u64)
        ensures
            value == read_value(self.pending(), offset, width),
    {
        if width == 4 && 0x200000 <= offset && offset < 0x4000000 && (offset & 0xfff) == 4 {
            self.lowest_pending()
        } else {
            0
        }
    }

    /// Marks interrupt `irq` as pending.
    pub fn add_pending_irq(&mut self, irq: u16)
        ensures
            final(self).pending() == old(self).pending().insert(irq),
    {
        self.irq_pending.insert(irq);
    }

    /// Whether any interrupt is pending.
    pub fn has_pending_irqs(&self) -> (b: bool)
        ensures
            b == !self.pending().is_empty(),
    {
        !self.irq_pending.is_empty()
    }
}

/// Raising interrupt `k` makes a claim register read `k`, provided that no
/// lower interrupt is pending; once `k` is written back and nothing else
/// is pending, the register reads 0.
pub proof fn lemma_claim_and_complete(pending: Set<u16>, k: u16, offset: u64)
    requires
        is_claim_register(offset, 4),
        forall|j: u16| pending.contains(j) ==> k <= j,
    ensures
        read_value(pending.insert(k), offset, 4) == k,
        pending.insert(k).remove(k).is_empty() ==> read_value(
            pending_after_write(pending.insert(k), offset, k as u64, 4),
            offset,
            4,
        ) == 0,
{
    let raised = pending.insert(k);
    assert(is_lowest(raised, k));
    let c = choose|c: u16| is_lowest(raised, c);
    assert(c <= k && k <= c);
    let done = pending_after_write(raised, offset, k as u64, 4);
    assert(done == raised.remove(k));
    if done.is_empty() {
        assert forall|c: u16| !is_lowest(done, c) by {
            assert(!done.contains(c));
        }
    }
}

} // verus!
