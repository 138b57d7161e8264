//! The controller and its driver.
//!
//! A [`Plic`] is a controller in software: it holds the registers of a
//! controller and the state of its interrupt gateways, and answers every
//! register access as the [`Model`] says. On top of the register accesses it
//! offers the operations of the driver.

use crate::layout::{
    clear_bit, mask_of, set_bit, test_bit, Register, CONTEXTS, ENABLE_WORDS, PENDING_WORDS, SOURCES,
};
use crate::model::{
    kept, lemma_claimed, lemma_completed, lemma_kept, lemma_raised, lemma_winner,
    lemma_wins_unique, Model,
};
use crate::nr::{is_source, Nr};
use crate::plic::RegisterBlock;
use crate::priority::{lemma_highest_level, Priority};
use vstd::prelude::*;

verus! {

/// Platform-Level Interrupt Controller
///
/// `P` is the base address of the controller and `B` the number of priority
/// bits that it has.
pub struct Plic<const P: usize, const B: usize> {
    regs: RegisterBlock,
    asserted: [bool; 1024],
    claimant: [Option<usize>; 1024],
}

impl<const P: usize, const B: usize> View for Plic<P, B> {
    type V = Model;

    closed spec fn view(&self) -> Model {
        Model {
            width: B as nat,
            priority: self.regs.priority@,
            pending: self.regs.pending@,
            enables: self.regs.enable_words(),
            threshold: self.regs.thresholds(),
            asserted: self.asserted@,
            claimant: self.claimant@,
        }
    }
}

impl<const P: usize, const B: usize> Plic<P, B> {
    /// The invariant of the controller.
    pub closed spec fn wf(&self) -> bool {
        &&& self.regs.enables@.len() == self.regs.contexts@.len()
        &&& self@.wf()
    }

    /// The model of a well-formed controller is well-formed, and has the
    /// width of the controller.
    pub proof fn lemma_wf(&self)
        requires
            self.wf(),
        ensures
            self@.wf(),
            self@.width == B,
    {
    }

    /// The base address of the controller.
    pub fn base() -> (r: usize)
        ensures
            r == P,
    {
        P
    }

    /// The address of a register of the controller, or `None` where the
    /// layout does not declare the register or the address space ends before
    /// it.
    pub fn address(reg: Register) -> (r: Option<usize>)
        ensures
            r is Some <==> reg.in_layout() && P + reg.offset_of() + 3 <= usize::MAX,
            r matches Some(a) ==> a == P + reg.offset_of(),
    {
        reg.address(P)
    }

    /// A controller with `contexts` contexts after a reset: every register is
    /// zero, no interrupt line is asserted and no source is in service.
    pub fn new(contexts: usize) -> (r: Self)
        requires
            contexts <= CONTEXTS,
        ensures
            r.wf(),
            r@ == Model::reset(B as nat, contexts as nat),
    {
        let r = Plic {
            regs: RegisterBlock::new(contexts),
            asserted: [false; 1024],
            claimant: [None; 1024],
        };
        proof {
            assert(r@.asserted =~= Model::reset(B as nat, contexts as nat).asserted);
            assert(r@.claimant =~= Model::reset(B as nat, contexts as nat).claimant);
            lemma_highest_level(B as nat);
        }
        r
    }

    /// The number of contexts of the controller.
    pub fn contexts(&self) -> (r: usize)
        requires
            self.wf(),
        ensures
            r == self@.contexts(),
    {
        self.regs.contexts.len()
    }

    /// Tells whether the controller has a register.
    pub fn has(&self, reg: Register) -> (r: bool)
        requires
            self.wf(),
        ensures
            r == self@.has(reg),
    {
        let n = self.regs.contexts.len();
        match reg {
            Register::Priority { source } => source < SOURCES,
            Register::Pending { word } => word < PENDING_WORDS,
            Register::Enable { context, word } => context < n && word < ENABLE_WORDS,
            Register::Threshold { context } => context < n,
            Register::Claim { context } => context < n,
        }
    }

    /// What a register other than a claim register holds.
    fn peek(&self, reg: Register) -> (value: u32)
        requires
            self.wf(),
            self@.has(reg),
            !(reg is Claim),
        ensures
            value == self@.read_value(reg),
            self@.after_read(reg) == self@,
    {
        match reg {
            Register::Priority { source } => self.regs.priority[source],
            Register::Pending { word } => self.regs.pending[word],
            Register::Enable { context, word } => self.regs.enables[context].enable[word],
            Register::Threshold { context } => self.regs.contexts[context].threshold,
            Register::Claim { context } => 0,
        }
    }

    /// The register value with only the bits that the width of the
    /// controller allows.
    fn keep(value: u32) -> (r: u32)
        ensures
            r == kept(B as nat, value),
    {
        value & Priority::<B>::highest().into_bits()
    }

    /// Sets or clears the pending bit of a source.
    fn set_pending(&mut self, s: usize, on: bool)
        requires
            s < SOURCES,
        ensures
            final(self)@ == old(self)@.with_pending(s as int, on),
            final(self).regs.enables == old(self).regs.enables,
            final(self).regs.contexts == old(self).regs.contexts,
    {
        let word = self.regs.pending[s / 32];
        let bit: u32 = 1u32 << ((s % 32) as u32);
        if on {
            self.regs.pending[s / 32] = word | bit;
        } else {
            self.regs.pending[s / 32] = word & !bit;
        }
        assert(self@.pending =~= old(self)@.with_pending(s as int, on).pending);
    }

    /// Tells whether context `c` can claim source `s`.
    fn eligible(&self, c: usize, s: usize) -> (r: bool)
        requires
            self.wf(),
            c < self@.contexts(),
            s < SOURCES,
        ensures
            r == self@.eligible(c as int, s as int),
    {
        let bit: u32 = 1u32 << ((s % 32) as u32);
        s != 0 && self.regs.pending[s / 32] & bit != 0 && self.regs.enables[c].enable[s / 32] & bit
            != 0 && self.regs.priority[s] > self.regs.contexts[c].threshold
    }

    /// The source that a claim of context `c` gives, or 0.
    fn arbitrate(&self, c: usize) -> (best: usize)
        requires
            self.wf(),
            c < self@.contexts(),
        ensures
            best == self@.winner(c as int),
            best == 0 || is_source(best as int),
    {
        let mut best: usize = 0;
        let mut s: usize = 1;
        while s < SOURCES
            invariant
                self.wf(),
                c < self@.contexts(),
                1 <= s <= SOURCES,
                best < s,
                best == 0 ==> forall|t: int| 0 <= t < s ==> !self@.eligible(c as int, t),
                best != 0 ==> self@.eligible(c as int, best as int) && forall|t: int|
                    0 <= t < s && self@.eligible(c as int, t) ==> self@.outranks(best as int, t),
            decreases SOURCES - s,
        {
            if self.eligible(c, s) && (best == 0 || self.regs.priority[s]
                > self.regs.priority[best]) {
                best = s;
            }
            s += 1;
        }
        proof {
            lemma_winner(self@, c as int);
            if best != 0 {
                assert(self@.wins(c as int, best as int));
                lemma_wins_unique(self@, c as int, best as int, best as int);
            }
        }
        best
    }

    /// Reads a register.
    ///
    /// A read of a claim register claims the source that it gives; every
    /// other read changes nothing.
    pub fn read(&mut self, reg: Register) -> (value: u32)
        requires
            old(self).wf(),
            old(self)@.has(reg),
        ensures
            final(self).wf(),
            value == old(self)@.read_value(reg),
            final(self)@ == old(self)@.after_read(reg),
    {
        match reg {
            Register::Claim { context } => {
                let s = self.arbitrate(context);
                if s != 0 {
                    proof {
                        lemma_claimed(self@, context as int, s as int);
                    }
                    self.set_pending(s, false);
                    self.claimant[s] = Some(context);
                    let ghost claimed = old(self)@.claimed(context as int, s as int);
                    assert(self@.claimant =~= claimed.claimant);
                }
                s as u32
            },
            _ => self.peek(reg),
        }
    }

    /// Writes a register.
    ///
    /// A priority or threshold register keeps the low bits that the width of
    /// the controller allows. The priority register of source 0 and the
    /// pending array cannot be written. A write to a claim register completes
    /// the source that `value` names, if it names one.
    pub fn write(&mut self, reg: Register, value: u32)
        requires
            old(self).wf(),
            old(self)@.has(reg),
        ensures
            final(self).wf(),
            final(self)@ == old(self)@.after_write(reg, value),
    {
        proof {
            lemma_kept(B as nat, value);
        }
        match reg {
            Register::Priority { source } => {
                if source != 0 {
                    self.regs.priority[source] = Self::keep(value);
                }
            },
            Register::Pending { word } => {},
            Register::Enable { context, word } => {
                self.regs.enables[context].enable[word] = value;
                assert(self@.enables =~~= old(self)@.after_write(reg, value).enables);
                assert(self@.threshold =~= old(self)@.threshold);
            },
            Register::Threshold { context } => {
                self.regs.contexts[context].threshold = Self::keep(value);
                assert(self@.threshold =~= old(self)@.after_write(reg, value).threshold);
                assert(self@.enables =~~= old(self)@.enables);
            },
            Register::Claim { context } => {
                if 1 <= value && value <= 1023 {
                    let s = value as usize;
                    proof {
                        lemma_completed(self@, context as int, s as int);
                    }
                    if self.claimant[s] == Some(context) {
                        self.claimant[s] = None;
                        if self.asserted[s] {
                            self.set_pending(s, true);
                        }
                        let ghost completed = old(self)@.completed(context as int, s as int);
                        assert(self@.claimant =~= completed.claimant);
                    }
                }
            },
        }
    }

    /// Reads a register, hands what it holds to `f`, and writes what `f`
    /// gives back to the register.
    ///
    /// This is a read followed by a write, as on the hardware, where the two
    /// are not one atomic access.
    pub fn modify<F: FnOnce(u32) -> u32>(&mut self, reg: Register, f: F)
        requires
            old(self).wf(),
            old(self)@.has(reg),
            f.requires((old(self)@.read_value(reg),)),
        ensures
            final(self).wf(),
            exists|value: u32|
                f.ensures((old(self)@.read_value(reg),), value) && final(self)@ == old(
                    self,
                )@.after_read(reg).after_write(reg, value),
    {
        let held = self.read(reg);
        let value = f(held);
        self.write(reg, value);
    }

    // The operations of the driver.

    /// Check if interrupt is enabled for context
    #[inline]
    pub fn is_enabled(&self, context: usize, interrupt: Nr) -> (r: bool)
        requires
            self.wf(),
            context < self@.contexts(),
        ensures
            r == self@.is_enabled(context as int, interrupt@ as int),
    {
        test_bit(self.peek(Register::enable(context, interrupt)), interrupt)
    }

    /// Enable interrupt for context
    ///
    /// The enable word is read, changed and written back: whoever relies on
    /// the source staying masked must not run between the two accesses.
    #[inline]
    pub fn unmask(&mut self, context: usize, interrupt: Nr)
        requires
            old(self).wf(),
            context < old(self)@.contexts(),
        ensures
            final(self).wf(),
            final(self)@ == old(self)@.unmasked(context as int, interrupt@ as int),
    {
        let set = |v: u32| -> (r: u32)
            ensures
                r == v | mask_of(interrupt@ as int),
            {
                set_bit(v, interrupt)
            };
        self.modify(Register::enable(context, interrupt), set);
    }

    /// Disable interrupt for context
    #[inline]
    pub fn mask(&mut self, context: usize, interrupt: Nr)
        requires
            old(self).wf(),
            context < old(self)@.contexts(),
        ensures
            final(self).wf(),
            final(self)@ == old(self)@.masked(context as int, interrupt@ as int),
    {
        let clear = |v: u32| -> (r: u32)
            ensures
                r == v & !mask_of(interrupt@ as int),
            {
                clear_bit(v, interrupt)
            };
        self.modify(Register::enable(context, interrupt), clear);
    }

    /// Get interrupt priority
    #[inline]
    pub fn get_priority(&self, interrupt: Nr) -> (r: Priority<B>)
        requires
            self.wf(),
        ensures
            r@ == self@.priority[interrupt@ as int],
    {
        let bits = self.peek(Register::priority(interrupt));
        Priority::from_bits(bits)
    }

    /// Set interrupt priority
    ///
    /// Changing priority levels can break priority-based critical sections.
    #[inline]
    pub fn set_priority(&mut self, interrupt: Nr, prio: Priority<B>)
        requires
            old(self).wf(),
        ensures
            final(self).wf(),
            final(self)@ == old(self)@.with_priority(interrupt@ as int, prio@),
    {
        self.write(Register::priority(interrupt), prio.into_bits());
    }

    /// Get threshold for context
    #[inline]
    pub fn get_threshold(&self, context: usize) -> (r: Priority<B>)
        requires
            self.wf(),
            context < self@.contexts(),
        ensures
            r@ == self@.threshold[context as int],
    {
        let bits = self.peek(Register::Threshold { context });
        Priority::from_bits(bits)
    }

    /// Set threshold for context
    ///
    /// A source whose priority is at or below the threshold does not signal
    /// the context.
    #[inline]
    pub fn set_threshold(&mut self, context: usize, threshold: Priority<B>)
        requires
            old(self).wf(),
            context < old(self)@.contexts(),
        ensures
            final(self).wf(),
            final(self)@ == old(self)@.with_threshold(context as int, threshold@),
    {
        self.write(Register::Threshold { context }, threshold.into_bits());
    }

    /// Claim interrupt (used by interrupt runtime)
    ///
    /// Gives the source that wins the claim and takes it into service for the
    /// context, or gives `None` and changes nothing where the context can
    /// claim no source.
    #[inline]
    pub fn claim(&mut self, context: usize) -> (r: Option<Nr>)
        requires
            old(self).wf(),
            context < old(self)@.contexts(),
        ensures
            final(self).wf(),
            match r {
                Some(source) => {
                    &&& is_source(source@ as int)
                    &&& source@ == old(self)@.winner(context as int)
                    &&& final(self)@ == old(self)@.claimed(context as int, source@ as int)
                },
                None => {
                    &&& old(self)@.winner(context as int) == 0
                    &&& final(self)@ == old(self)@
                },
            },
    {
        proof {
            lemma_winner(self@, context as int);
        }
        let bits = self.read(Register::Claim { context });
        match Nr::try_from(bits) {
            Ok(source) => Some(source),
            Err(_) => None,
        }
    }

    /// Complete interrupt (used by interrupt runtime)
    ///
    /// Re-arms a source that the context has claimed; a source that the
    /// context does not service stays as it is.
    #[inline]
    pub fn complete(&mut self, context: usize, interrupt: Nr)
        requires
            old(self).wf(),
            context < old(self)@.contexts(),
        ensures
            final(self).wf(),
            final(self)@ == old(self)@.completed(context as int, interrupt@ as int),
    {
        self.write(Register::Claim { context }, interrupt.index() as u32);
    }

    /// Checks if interrupt is pending
    #[inline]
    pub fn is_pending(&self, interrupt: Nr) -> (r: bool)
        requires
            self.wf(),
        ensures
            r == self@.is_pending(interrupt@ as int),
    {
        test_bit(self.peek(Register::pending(interrupt)), interrupt)
    }

    // The interrupt lines.

    /// Asserts the interrupt line of a source. The source becomes pending,
    /// unless it is in service.
    pub fn raise(&mut self, interrupt: Nr)
        requires
            old(self).wf(),
        ensures
            final(self).wf(),
            final(self)@ == old(self)@.raised(interrupt@ as int),
    {
        let s = interrupt.index() as usize;
        proof {
            lemma_raised(self@, s as int);
        }
        self.asserted[s] = true;
        if self.claimant[s].is_none() {
            self.set_pending(s, true);
        }
        assert(self@.asserted =~= old(self)@.raised(s as int).asserted);
    }

    /// Releases the interrupt line of a source. A source that is pending
    /// stays so.
    pub fn lower(&mut self, interrupt: Nr)
        requires
            old(self).wf(),
        ensures
            final(self).wf(),
            final(self)@ == old(self)@.lowered(interrupt@ as int),
    {
        let s = interrupt.index() as usize;
        self.asserted[s] = false;
        assert(self@.asserted =~= old(self)@.lowered(s as int).asserted);
    }
}

} // verus!
