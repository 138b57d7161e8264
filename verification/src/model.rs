//! The controller as a mathematical object.
//!
//! A [`Model`] is what the registers of a controller hold together with the
//! state of its interrupt gateways: which interrupt lines are asserted and
//! which sources a context has claimed and not yet completed. The functions
//! of this module say what every register access does to it; the laws at the
//! end say what follows for the claim/complete handshake.

use crate::layout::{
    bit_is_set, bit_of, lemma_clear_bit, lemma_no_bit, lemma_set_bit, mask_of, word_of, Register,
    CONTEXTS, ENABLE_WORDS, PENDING_WORDS, SOURCES,
};
use crate::nr::is_source;
use crate::priority::{highest_level, is_level, lemma_highest_level, REGISTER_BITS};
use vstd::arithmetic::power2::pow2;
use vstd::prelude::*;

verus! {

/// The part of `value` that a priority or threshold register of `width`
/// priority bits keeps: its low `width` bits.
pub open spec fn kept(width: nat, value: u32) -> u32 {
    value & (highest_level(width) as u32)
}

/// A controller with all its state.
pub struct Model {
    /// Number of priority bits.
    pub width: nat,
    /// The priority registers, by source.
    pub priority: Seq<u32>,
    /// The words of the pending array.
    pub pending: Seq<u32>,
    /// The words of the enable array of each context.
    pub enables: Seq<Seq<u32>>,
    /// The threshold register of each context.
    pub threshold: Seq<u32>,
    /// Whether the interrupt line of each source is asserted.
    pub asserted: Seq<bool>,
    /// The context that has claimed each source and not yet completed it.
    pub claimant: Seq<Option<usize>>,
}

impl Model {
    /// The number of contexts of the controller.
    pub open spec fn contexts(self) -> nat {
        self.threshold.len()
    }

    /// Whether source `s` is pending.
    pub open spec fn is_pending(self, s: int) -> bool {
        bit_is_set(self.pending[word_of(s)], s)
    }

    /// Whether source `s` is enabled for context `c`.
    pub open spec fn is_enabled(self, c: int, s: int) -> bool {
        bit_is_set(self.enables[c][word_of(s)], s)
    }

    /// Whether a context services source `s`: it has claimed the source and
    /// not yet completed it.
    pub open spec fn in_service(self, s: int) -> bool {
        self.claimant[s] is Some
    }

    /// The invariant of a controller: the register arrays have the sizes of
    /// the layout, every priority and threshold register holds a level of the
    /// controller's width, and a source in service is a source, is serviced by
    /// a context of the controller, and is not pending.
    pub open spec fn wf(self) -> bool {
        &&& self.priority.len() == SOURCES
        &&& self.pending.len() == PENDING_WORDS
        &&& self.asserted.len() == SOURCES
        &&& self.claimant.len() == SOURCES
        &&& self.enables.len() == self.threshold.len()
        &&& self.threshold.len() <= CONTEXTS
        &&& forall|c: int|
            0 <= c < self.enables.len() ==> (#[trigger] self.enables[c]).len() == ENABLE_WORDS
        &&& forall|s: int|
            0 <= s < SOURCES ==> is_level(self.width, #[trigger] self.priority[s] as int)
        &&& forall|c: int|
            0 <= c < self.threshold.len() ==> is_level(
                self.width,
                #[trigger] self.threshold[c] as int,
            )
        &&& forall|s: int|
            0 <= s < SOURCES ==> (#[trigger] self.claimant[s] matches Some(c) ==> is_source(s) && c
                < self.contexts() && !self.is_pending(s))
    }

    /// The controller after a reset: `contexts` contexts, every register
    /// zero, no line asserted, no source in service.
    pub open spec fn reset(width: nat, contexts: nat) -> Model {
        Model {
            width,
            priority: Seq::new(SOURCES as nat, |s: int| 0u32),
            pending: Seq::new(PENDING_WORDS as nat, |w: int| 0u32),
            enables: Seq::new(contexts, |c: int| Seq::new(ENABLE_WORDS as nat, |w: int| 0u32)),
            threshold: Seq::new(contexts, |c: int| 0u32),
            asserted: Seq::new(SOURCES as nat, |s: int| false),
            claimant: Seq::new(SOURCES as nat, |s: int| None::<usize>),
        }
    }

    /// Whether the controller has the register `reg`.
    pub open spec fn has(self, reg: Register) -> bool {
        match reg {
            Register::Priority { source } => source < SOURCES,
            Register::Pending { word } => word < PENDING_WORDS,
            Register::Enable { context, word } => context < self.contexts() && word
                < ENABLE_WORDS,
            Register::Threshold { context } => context < self.contexts(),
            Register::Claim { context } => context < self.contexts(),
        }
    }

    // The claim.

    /// Whether context `c` can claim source `s`: the source is pending, it is
    /// enabled for the context, and its priority is above the threshold of the
    /// context.
    pub open spec fn eligible(self, c: int, s: int) -> bool {
        &&& is_source(s)
        &&& self.is_pending(s)
        &&& self.is_enabled(c, s)
        &&& self.priority[s] > self.threshold[c]
    }

    /// Whether source `s` is offered before source `t`: it has the higher
    /// priority, or the same priority and the lower number.
    pub open spec fn outranks(self, s: int, t: int) -> bool {
        self.priority[s] > self.priority[t] || (self.priority[s] == self.priority[t] && s <= t)
    }

    /// Whether source `s` is the one that a claim of context `c` gives: the
    /// context can claim it, and it is offered before every other source that
    /// the context can claim.
    pub open spec fn wins(self, c: int, s: int) -> bool {
        &&& self.eligible(c, s)
        &&& forall|t: int| self.eligible(c, t) ==> self.outranks(s, t)
    }

    /// The source that a claim of context `c` gives, or 0 where the context
    /// can claim none.
    pub open spec fn winner(self, c: int) -> int {
        if exists|s: int| self.wins(c, s) {
            choose|s: int| self.wins(c, s)
        } else {
            0
        }
    }

    // The gateways.

    /// The controller with the pending bit of source `s` set or cleared.
    pub open spec fn with_pending(self, s: int, on: bool) -> Model {
        let word = self.pending[word_of(s)];
        Model {
            pending: self.pending.update(
                word_of(s),
                if on {
                    word | mask_of(s)
                } else {
                    word & !mask_of(s)
                },
            ),
            ..self
        }
    }

    /// The controller after the interrupt line of source `s` was asserted:
    /// the source becomes pending, unless it is in service.
    pub open spec fn raised(self, s: int) -> Model {
        let m = Model { asserted: self.asserted.update(s, true), ..self };
        if self.in_service(s) {
            m
        } else {
            m.with_pending(s, true)
        }
    }

    /// The controller after the interrupt line of source `s` was released.
    /// A source that is pending stays so.
    pub open spec fn lowered(self, s: int) -> Model {
        Model { asserted: self.asserted.update(s, false), ..self }
    }

    /// The controller after context `c` has claimed source `s`: the source is
    /// no longer pending, and in service for `c`.
    pub open spec fn claimed(self, c: int, s: int) -> Model {
        Model {
            claimant: self.claimant.update(s, Some(c as usize)),
            ..self.with_pending(s, false)
        }
    }

    /// The controller after context `c` has completed source `s`. Where `c`
    /// services the source, the source is re-armed: it can become pending
    /// again, and does so at once if its line is still asserted. Where `c`
    /// does not service it, nothing changes.
    pub open spec fn completed(self, c: int, s: int) -> Model {
        if self.claimant[s] == Some(c as usize) {
            let m = Model { claimant: self.claimant.update(s, None), ..self };
            if self.asserted[s] {
                m.with_pending(s, true)
            } else {
                m
            }
        } else {
            self
        }
    }

    // The registers.

    /// What a read of register `reg` gives.
    pub open spec fn read_value(self, reg: Register) -> u32 {
        match reg {
            Register::Priority { source } => self.priority[source as int],
            Register::Pending { word } => self.pending[word as int],
            Register::Enable { context, word } => self.enables[context as int][word as int],
            Register::Threshold { context } => self.threshold[context as int],
            Register::Claim { context } => self.winner(context as int) as u32,
        }
    }

    /// The controller after a read of register `reg`. Only a read of a claim
    /// register changes anything: it claims the source that it gives.
    pub open spec fn after_read(self, reg: Register) -> Model {
        match reg {
            Register::Claim { context } => if self.winner(context as int) != 0 {
                self.claimed(context as int, self.winner(context as int))
            } else {
                self
            },
            _ => self,
        }
    }

    /// The controller after `value` was written to register `reg`.
    ///
    /// A priority or threshold register keeps the low bits that the width of
    /// the controller allows; the priority register of source 0 and the
    /// pending array cannot be written; a write to a claim register completes
    /// the source that `value` names, if it names one.
    pub open spec fn after_write(self, reg: Register, value: u32) -> Model {
        match reg {
            Register::Priority { source } => if source == 0 {
                self
            } else {
                Model {
                    priority: self.priority.update(source as int, kept(self.width, value)),
                    ..self
                }
            },
            Register::Pending { word } => self,
            Register::Enable { context, word } => Model {
                enables: self.enables.update(
                    context as int,
                    self.enables[context as int].update(word as int, value),
                ),
                ..self
            },
            Register::Threshold { context } => Model {
                threshold: self.threshold.update(context as int, kept(self.width, value)),
                ..self
            },
            Register::Claim { context } => if is_source(value as int) {
                self.completed(context as int, value as int)
            } else {
                self
            },
        }
    }

    // The driver's operations, as register accesses.

    /// The controller after source `s` was enabled for context `c`.
    pub open spec fn unmasked(self, c: int, s: int) -> Model {
        let reg = Register::Enable { context: c as usize, word: word_of(s) as usize };
        self.after_write(reg, self.read_value(reg) | mask_of(s))
    }

    /// The controller after source `s` was disabled for context `c`.
    pub open spec fn masked(self, c: int, s: int) -> Model {
        let reg = Register::Enable { context: c as usize, word: word_of(s) as usize };
        self.after_write(reg, self.read_value(reg) & !mask_of(s))
    }

    /// The controller after the priority of source `s` was set to `level`.
    pub open spec fn with_priority(self, s: int, level: nat) -> Model {
        self.after_write(Register::Priority { source: s as usize }, level as u32)
    }

    /// The controller after the threshold of context `c` was set to `level`.
    pub open spec fn with_threshold(self, c: int, level: nat) -> Model {
        self.after_write(Register::Threshold { context: c as usize }, level as u32)
    }
}

/// A controller after a reset is well-formed and quiet: no source is pending
/// or in service, no source is enabled for a context, and no context can
/// claim a source.
pub proof fn lemma_reset(width: nat, contexts: nat, c: int, s: int)
    requires
        contexts <= CONTEXTS,
        0 <= s < SOURCES,
    ensures
        Model::reset(width, contexts).wf(),
        Model::reset(width, contexts).contexts() == contexts,
        !Model::reset(width, contexts).is_pending(s),
        !Model::reset(width, contexts).in_service(s),
        0 <= c < contexts ==> !Model::reset(width, contexts).is_enabled(c, s),
        Model::reset(width, contexts).winner(c) == 0,
{
    let m = Model::reset(width, contexts);
    lemma_highest_level(width);
    assert forall|t: int| 0 <= t < SOURCES implies !m.is_pending(t) by {
        lemma_no_bit(t);
    }
    lemma_no_bit(s);
    lemma_winner(m, c);
}

/// What can happen to a controller: a change of an interrupt line, or an
/// access to a register. Every operation of the driver is one or two register
/// accesses.
pub enum Op {
    /// The interrupt line of this source is asserted.
    Raise(int),
    /// The interrupt line of this source is released.
    Lower(int),
    /// This register is read.
    Read(Register),
    /// This value is written to this register.
    Write(Register, u32),
}

impl Model {
    /// Whether `op` can happen to the controller: the source exists, or the
    /// controller has the register.
    pub open spec fn allows(self, op: Op) -> bool {
        match op {
            Op::Raise(s) => is_source(s),
            Op::Lower(s) => is_source(s),
            Op::Read(reg) => self.has(reg),
            Op::Write(reg, value) => self.has(reg),
        }
    }

    /// The controller after `op`.
    pub open spec fn step(self, op: Op) -> Model {
        match op {
            Op::Raise(s) => self.raised(s),
            Op::Lower(s) => self.lowered(s),
            Op::Read(reg) => self.after_read(reg),
            Op::Write(reg, value) => self.after_write(reg, value),
        }
    }

    /// The controller after the operations of `ops`, one after the other.
    pub open spec fn after(self, ops: Seq<Op>) -> Model
        decreases ops.len(),
    {
        if ops.len() == 0 {
            self
        } else {
            self.after(ops.drop_last()).step(ops.last())
        }
    }
}

/// Every register that a well-formed controller has is a register of the
/// layout.
pub proof fn lemma_has(m: Model, reg: Register)
    requires
        m.wf(),
        m.has(reg),
    ensures
        reg.in_layout(),
{
}

/// What a register keeps of a value is a level, and a level is kept whole.
pub proof fn lemma_kept(width: nat, value: u32)
    ensures
        is_level(width, kept(width, value) as int),
        is_level(width, value as int) ==> kept(width, value) == value,
{
    let m = highest_level(width) as u32;
    assert(value & m <= m) by (bit_vector);
    if width >= REGISTER_BITS {
        assert(value & 0xffff_ffffu32 == value) by (bit_vector);
    } else {
        vstd::bits::lemma_u32_pow2_no_overflow(width);
        vstd::bits::lemma_u32_low_bits_mask_is_mod(value, width);
        assert(vstd::bits::low_bits_mask(width) == highest_level(width));
        if is_level(width, value as int) {
            vstd::arithmetic::div_mod::lemma_small_mod(value as nat, pow2(width));
        }
    }
}

/// Setting or clearing the pending bit of a source changes whether that
/// source is pending, and nothing else.
pub proof fn lemma_with_pending(m: Model, s: int, on: bool, t: int)
    requires
        m.wf(),
        0 <= s < SOURCES,
        0 <= t < SOURCES,
    ensures
        m.with_pending(s, on).is_pending(t) == (if t == s {
            on
        } else {
            m.is_pending(t)
        }),
{
    let word = m.pending[word_of(s)];
    if word_of(t) == word_of(s) {
        if on {
            lemma_set_bit(word, s, t);
        } else {
            lemma_clear_bit(word, s, t);
        }
        assert(bit_of(t) == bit_of(s) <==> t == s);
    }
}

/// Enabling or disabling a source for a context changes whether that source
/// is enabled for that context, and nothing else.
pub proof fn lemma_mask_unmask(m: Model, c: int, s: int, d: int, t: int)
    requires
        m.wf(),
        0 <= c < m.contexts(),
        0 <= d < m.contexts(),
        0 <= s < SOURCES,
        0 <= t < SOURCES,
    ensures
        m.unmasked(c, s).is_enabled(d, t) == ((d == c && t == s) || m.is_enabled(d, t)),
        m.masked(c, s).is_enabled(d, t) == (!(d == c && t == s) && m.is_enabled(d, t)),
        m.unmasked(c, s).wf(),
        m.masked(c, s).wf(),
{
    let word = m.enables[c][word_of(s)];
    if d == c && word_of(t) == word_of(s) {
        lemma_set_bit(word, s, t);
        lemma_clear_bit(word, s, t);
        assert(bit_of(t) == bit_of(s) <==> t == s);
    }
}

/// A claim keeps the controller well-formed; the claimed source is in
/// service and no longer pending, and every other source is as before.
pub proof fn lemma_claimed(m: Model, c: int, s: int)
    requires
        m.wf(),
        0 <= c < m.contexts(),
        is_source(s),
    ensures
        m.claimed(c, s).wf(),
        m.claimed(c, s).claimant[s] == Some(c as usize),
        !m.claimed(c, s).is_pending(s),
        forall|t: int|
            0 <= t < SOURCES && t != s ==> m.claimed(c, s).is_pending(t) == m.is_pending(t),
{
    let n = m.claimed(c, s);
    assert forall|t: int| 0 <= t < SOURCES implies n.is_pending(t) == (t != s && m.is_pending(
        t,
    )) by {
        lemma_with_pending(m, s, false, t);
    }
}

/// A completion keeps the controller well-formed.
pub proof fn lemma_completed(m: Model, c: int, s: int)
    requires
        m.wf(),
        0 <= c < m.contexts(),
        is_source(s),
    ensures
        m.completed(c, s).wf(),
{
    let n = m.completed(c, s);
    if m.claimant[s] == Some(c as usize) && m.asserted[s] {
        let k = Model { claimant: m.claimant.update(s, None), ..m };
        assert forall|t: int| 0 <= t < SOURCES implies n.is_pending(t) == (t == s || m.is_pending(
            t,
        )) by {
            lemma_with_pending(k, s, true, t);
        }
    }
}

/// An asserted line keeps the controller well-formed.
pub proof fn lemma_raised(m: Model, s: int)
    requires
        m.wf(),
        is_source(s),
    ensures
        m.raised(s).wf(),
{
    let n = m.raised(s);
    if !m.in_service(s) {
        let k = Model { asserted: m.asserted.update(s, true), ..m };
        assert forall|t: int| 0 <= t < SOURCES implies n.is_pending(t) == (t == s || m.is_pending(
            t,
        )) by {
            lemma_with_pending(k, s, true, t);
        }
    }
}

/// Among the sources below `k`, the one that a claim of context `c` would
/// give, or 0 where the context can claim none of them.
proof fn lemma_best(m: Model, c: int, k: int) -> (b: int)
    requires
        1 <= k <= SOURCES,
    ensures
        0 <= b < k,
        b == 0 ==> forall|t: int| 0 <= t < k ==> !m.eligible(c, t),
        b != 0 ==> m.eligible(c, b) && forall|t: int|
            0 <= t < k && m.eligible(c, t) ==> m.outranks(b, t),
    decreases k,
{
    if k == 1 {
        0
    } else {
        let b = lemma_best(m, c, k - 1);
        let s = k - 1;
        if !m.eligible(c, s) {
            b
        } else if b == 0 || m.priority[s] > m.priority[b] {
            s
        } else {
            b
        }
    }
}

/// The source that a claim gives is the one that wins, and it is 0 exactly
/// where the context can claim no source.
pub proof fn lemma_winner(m: Model, c: int)
    ensures
        m.winner(c) == 0 || is_source(m.winner(c)),
        m.winner(c) != 0 ==> m.wins(c, m.winner(c)),
        m.winner(c) == 0 ==> forall|s: int| !m.eligible(c, s),
{
    let b = lemma_best(m, c, SOURCES as int);
    if b != 0 {
        assert(m.wins(c, b));
    }
}

/// At most one source wins a claim.
pub proof fn lemma_wins_unique(m: Model, c: int, s: int, t: int)
    requires
        m.wins(c, s),
        m.wins(c, t),
    ensures
        s == t,
        m.winner(c) == s,
{
    assert(m.outranks(s, t) && m.outranks(t, s));
    let w = m.winner(c);
    assert(m.wins(c, w));
    assert(m.outranks(s, w) && m.outranks(w, s));
}

/// A source that was disabled for a context is not enabled for it; one that
/// was enabled for a context is.
pub proof fn lemma_enable(m: Model, c: int, s: int)
    requires
        m.wf(),
        0 <= c < m.contexts(),
        is_source(s),
    ensures
        !m.masked(c, s).is_enabled(c, s),
        m.unmasked(c, s).is_enabled(c, s),
{
    lemma_mask_unmask(m, c, s, c, s);
}

/// The priority that was set for a source is the priority that the source
/// has. No other priority changes.
pub proof fn lemma_priority_set(m: Model, s: int, level: nat)
    requires
        m.wf(),
        is_source(s),
        is_level(m.width, level as int),
    ensures
        m.with_priority(s, level).wf(),
        m.with_priority(s, level).priority == m.priority.update(s, level as u32),
        m.with_priority(s, level).priority[s] == level,
{
    lemma_highest_level(m.width);
    lemma_kept(m.width, level as u32);
}

/// The threshold that was set for a context is the threshold that the
/// context has. No other threshold changes.
pub proof fn lemma_threshold_set(m: Model, c: int, level: nat)
    requires
        m.wf(),
        0 <= c < m.contexts(),
        is_level(m.width, level as int),
    ensures
        m.with_threshold(c, level).wf(),
        m.with_threshold(c, level).threshold == m.threshold.update(c, level as u32),
        m.with_threshold(c, level).threshold[c] == level,
{
    lemma_highest_level(m.width);
    lemma_kept(m.width, level as u32);
}

/// A source that a context has claimed is not offered again, to any context,
/// as long as it is in service, whether or not its interrupt line is, or
/// becomes, asserted.
pub proof fn lemma_not_offered_in_service(m: Model, s: int, d: int)
    requires
        m.wf(),
        is_source(s),
        m.in_service(s),
    ensures
        m.winner(d) != s,
        m.raised(s).in_service(s),
        m.raised(s).winner(d) != s,
{
    lemma_winner(m, d);
    lemma_raised(m, s);
    lemma_winner(m.raised(s), d);
}

/// A claim takes the source that it gives into service for the claiming
/// context, so that the next claim, of this or another context, does not
/// give it. Where the context could claim no other source, the next claim of
/// the context gives none.
pub proof fn lemma_claim_twice(m: Model, c: int, d: int)
    requires
        m.wf(),
        0 <= c < m.contexts(),
        m.winner(c) != 0,
    ensures
        m.after_read(Register::Claim { context: c as usize }) == m.claimed(c, m.winner(c)),
        m.claimed(c, m.winner(c)).claimant[m.winner(c)] == Some(c as usize),
        m.claimed(c, m.winner(c)).winner(d) != m.winner(c),
        (forall|t: int| m.eligible(c, t) ==> t == m.winner(c)) ==> m.claimed(
            c,
            m.winner(c),
        ).winner(c) == 0,
{
    let s = m.winner(c);
    lemma_winner(m, c);
    lemma_claimed(m, c, s);
    let n = m.claimed(c, s);
    lemma_not_offered_in_service(n, s, d);
    lemma_winner(n, c);
    if forall|t: int| m.eligible(c, t) ==> t == s {
        let w = n.winner(c);
        if w != 0 {
            assert(n.eligible(c, w));
            assert(m.eligible(c, w));
        }
    }
}

/// An operation leaves a well-formed controller well-formed, with the
/// contexts and the width that it had.
pub proof fn lemma_step(m: Model, op: Op)
    requires
        m.wf(),
        m.allows(op),
    ensures
        m.step(op).wf(),
        m.step(op).contexts() == m.contexts(),
        m.step(op).width == m.width,
{
    match op {
        Op::Raise(s) => {
            lemma_raised(m, s);
        },
        Op::Lower(s) => {},
        Op::Read(reg) => {
            match reg {
                Register::Claim { context } => {
                    lemma_winner(m, context as int);
                    if m.winner(context as int) != 0 {
                        lemma_claimed(m, context as int, m.winner(context as int));
                    }
                },
                _ => {},
            }
        },
        Op::Write(reg, value) => {
            lemma_kept(m.width, value);
            match reg {
                Register::Claim { context } => {
                    if is_source(value as int) {
                        lemma_completed(m, context as int, value as int);
                    }
                },
                _ => {},
            }
        },
    }
}

/// Only its completion by the context that services it takes a source out of
/// service: no other register access and no change of an interrupt line does.
pub proof fn lemma_stays_in_service(m: Model, s: int, c: int, op: Op)
    requires
        m.wf(),
        m.allows(op),
        is_source(s),
        m.claimant[s] == Some(c as usize),
        op != Op::Write(Register::Claim { context: c as usize }, s as u32),
    ensures
        m.step(op).claimant[s] == Some(c as usize),
{
    match op {
        Op::Read(reg) => {
            match reg {
                Register::Claim { context } => {
                    lemma_winner(m, context as int);
                },
                _ => {},
            }
        },
        _ => {},
    }
}

/// From its claim to its completion a source is not offered again: whatever
/// happens to the controller after context `c` has claimed source `s`, as long
/// as `c` does not complete `s`, the source stays in service for `c`, and no
/// claim of any context gives it.
pub proof fn lemma_until_completed(m: Model, s: int, c: int, ops: Seq<Op>, d: int)
    requires
        m.wf(),
        is_source(s),
        m.claimant[s] == Some(c as usize),
        forall|i: int| 0 <= i < ops.len() ==> m.allows(#[trigger] ops[i]),
        forall|i: int|
            0 <= i < ops.len() ==> #[trigger] ops[i] != Op::Write(
                Register::Claim { context: c as usize },
                s as u32,
            ),
    ensures
        m.after(ops).wf(),
        m.after(ops).contexts() == m.contexts(),
        m.after(ops).claimant[s] == Some(c as usize),
        !m.after(ops).is_pending(s),
        m.after(ops).winner(d) != s,
    decreases ops.len(),
{
    if ops.len() > 0 {
        let earlier = ops.drop_last();
        assert forall|i: int| 0 <= i < earlier.len() implies m.allows(#[trigger] earlier[i]) by {
            assert(earlier[i] == ops[i]);
        }
        assert forall|i: int| 0 <= i < earlier.len() implies #[trigger] earlier[i] != Op::Write(
            Register::Claim { context: c as usize },
            s as u32,
        ) by {
            assert(earlier[i] == ops[i]);
        }
        lemma_until_completed(m, s, c, earlier, d);
        assert(m.allows(ops.last()));
        lemma_step(m.after(earlier), ops.last());
        lemma_stays_in_service(m.after(earlier), s, c, ops.last());
    }
    lemma_winner(m.after(ops), d);
}

/// A claim gives no source whose priority is at or below the threshold of
/// the claiming context.
pub proof fn lemma_threshold(m: Model, c: int)
    requires
        m.winner(c) != 0,
    ensures
        m.priority[m.winner(c)] > m.threshold[c],
{
    lemma_winner(m, c);
}

} // verus!
