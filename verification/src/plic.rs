//! Platform-Level Interrupt Controller
//!
//! The registers of a controller as plain values. The offset of every
//! register from the base address is in [`crate::layout`].

use vstd::prelude::*;

verus! {

/// Register block
pub struct RegisterBlock {
    /// 0x000000 - Interrupt source priority
    ///
    /// base + 0x000000: Reserved (interrupt source 0 does not exist)
    /// base + 0x000004: Interrupt source 1 priority
    /// base + 0x000008: Interrupt source 2 priority
    /// ...
    /// base + 0x000FFC: Interrupt source 1023 priority
    pub priority: [u32; 1024],
    /// 0x001000 - Interrupt pending
    ///
    /// base + 0x001000: Interrupt Pending bit 0-31
    /// base + 0x00107C: Interrupt Pending bit 992-1023
    pub pending: [u32; 128],
    /// 0x002000 - Enable bits for sources on contexts
    ///
    /// base + 0x002000: Enable bits for sources 0-31 on context 0
    /// base + 0x002004: Enable bits for sources 32-63 on context 0
    /// ...
    /// base + 0x00207F: Enable bits for sources 992-1023 on context 0
    /// base + 0x002080: Enable bits for sources 0-31 on context 1
    /// ...
    pub enables: Vec<Enables>,
    /// 0x200000 - Context configurations
    ///
    /// base + 0x200000: Priority threshold for context 0
    /// base + 0x200004: Claim/complete for context 0
    /// base + 0x201000: Priority threshold for context 1
    /// base + 0x201004: Claim/complete for context 1
    /// ...
    pub contexts: Vec<Contexts>,
}

/// 0x002000 - Enable bits for sources
pub struct Enables {
    /// 0x000: Enable bits for sources
    pub enable: [u32; 32],
}

/// 0x200000 - Context configurations
///
/// The claim/complete register of a context, at 0x004, holds no value of its
/// own: a read claims a source and a write completes one.
pub struct Contexts {
    /// 0x000: Priority threshold for context
    pub threshold: u32,
}

impl RegisterBlock {
    /// The enable words of every context.
    pub open spec fn enable_words(self) -> Seq<Seq<u32>> {
        Seq::new(self.enables@.len(), |c: int| self.enables@[c].enable@)
    }

    /// The threshold of every context.
    pub open spec fn thresholds(self) -> Seq<u32> {
        Seq::new(self.contexts@.len(), |c: int| self.contexts@[c].threshold)
    }

    /// The registers of a controller with `contexts` contexts after a reset:
    /// all zero.
    pub fn new(contexts: usize) -> (r: RegisterBlock)
        ensures
            r.priority@ == Seq::new(1024, |s: int| 0u32),
            r.pending@ == Seq::new(128, |w: int| 0u32),
            r.enable_words() == Seq::new(contexts as nat, |c: int| Seq::new(32, |w: int| 0u32)),
            r.thresholds() == Seq::new(contexts as nat, |c: int| 0u32),
            r.enables@.len() == contexts,
            r.contexts@.len() == contexts,
    {
        let mut enables: Vec<Enables> = Vec::new();
        let mut thresholds: Vec<Contexts> = Vec::new();
        let mut c: usize = 0;
        while c < contexts
            invariant
                c <= contexts,
                enables@.len() == c,
                thresholds@.len() == c,
                forall|i: int|
                    0 <= i < c ==> (#[trigger] enables@[i]).enable@ == Seq::new(32, |w: int| 0u32),
                forall|i: int| 0 <= i < c ==> (#[trigger] thresholds@[i]).threshold == 0,
            decreases contexts - c,
        {
            let row = Enables { enable: [0u32; 32] };
            assert(row.enable@ =~= Seq::new(32, |w: int| 0u32));
            enables.push(row);
            thresholds.push(Contexts { threshold: 0 });
            c += 1;
        }
        let r = RegisterBlock {
            priority: [0u32; 1024],
            pending: [0u32; 128],
            enables,
            contexts: thresholds,
        };
        let ghost zeros = Seq::new(contexts as nat, |c: int| Seq::new(32, |w: int| 0u32));
        assert(r.priority@ =~= Seq::new(1024, |s: int| 0u32));
        assert(r.pending@ =~= Seq::new(128, |w: int| 0u32));
        assert(r.enable_words() =~= zeros);
        assert(r.thresholds() =~= Seq::new(contexts as nat, |c: int| 0u32));
        r
    }
}

} // verus!
