use plic::layout::Register;
use plic::priority::Priority;
use plic::{Nr, Plic};

type Controller = Plic<0x0C00_0000, 3>;

fn nr(v: u16) -> Nr {
    Nr::try_from(v).unwrap()
}

fn level(bits: u32) -> Priority<3> {
    Priority::from_bits(bits)
}

/// A controller on which `sources` are enabled for context 0 with the given
/// priorities, and pending.
fn pending_on_context_0(sources: &[(u16, u32)]) -> Controller {
    let mut plic = Controller::new(2);
    for (source, priority) in sources {
        plic.set_priority(nr(*source), level(*priority));
        plic.unmask(0, nr(*source));
        plic.raise(nr(*source));
        plic.lower(nr(*source));
    }
    plic
}

#[test]
fn reset_controller_is_quiet() {
    let mut plic = Controller::new(3);
    assert_eq!(plic.contexts(), 3);
    for v in [1u16, 5, 32, 1023] {
        assert!(!plic.is_pending(nr(v)));
        assert_eq!(plic.get_priority(nr(v)), Priority::never());
        for context in 0..3 {
            assert!(!plic.is_enabled(context, nr(v)));
        }
    }
    for context in 0..3 {
        assert_eq!(plic.get_threshold(context), Priority::never());
        assert_eq!(plic.claim(context), None);
    }
}

#[test]
fn controller_can_have_every_context_of_the_layout() {
    let mut plic = Controller::new(15872);
    assert_eq!(plic.contexts(), 15872);
    assert!(plic.has(Register::Claim { context: 15871 }));
    assert!(!plic.has(Register::Claim { context: 15872 }));
    plic.set_priority(nr(1023), level(7));
    plic.unmask(15871, nr(1023));
    plic.raise(nr(1023));
    assert_eq!(plic.claim(15870), None);
    assert_eq!(plic.claim(15871), Some(nr(1023)));
}

#[test]
fn controller_without_contexts_has_sources_only() {
    let mut plic = Controller::new(0);
    assert_eq!(plic.contexts(), 0);
    assert!(!plic.has(Register::Threshold { context: 0 }));
    assert!(plic.has(Register::Priority { source: 1 }));
    plic.set_priority(nr(1), level(2));
    plic.raise(nr(1));
    assert!(plic.is_pending(nr(1)));
    assert_eq!(plic.get_priority(nr(1)), level(2));
}

#[test]
fn base_and_addresses_follow_the_type() {
    assert_eq!(Controller::base(), 0x0C00_0000);
    assert_eq!(Controller::address(Register::Threshold { context: 1 }), Some(0x0C20_1000));
    assert_eq!(Controller::address(Register::Priority { source: 1024 }), None);
    assert_eq!(Plic::<0, 3>::address(Register::Pending { word: 1 }), Some(0x1004));
}

#[test]
fn unmask_then_is_enabled() {
    let mut plic = Controller::new(2);
    plic.unmask(0, nr(5));
    assert!(plic.is_enabled(0, nr(5)));
    assert!(!plic.is_enabled(1, nr(5)));
    assert!(!plic.is_enabled(0, nr(4)));
    assert!(!plic.is_enabled(0, nr(37)));
}

#[test]
fn mask_then_is_not_enabled() {
    let mut plic = Controller::new(2);
    plic.unmask(0, nr(5));
    plic.unmask(0, nr(6));
    plic.unmask(1, nr(5));
    plic.mask(0, nr(5));
    assert!(!plic.is_enabled(0, nr(5)));
    assert!(plic.is_enabled(0, nr(6)));
    assert!(plic.is_enabled(1, nr(5)));
    plic.mask(0, nr(5));
    assert!(!plic.is_enabled(0, nr(5)));
}

#[test]
fn mask_and_unmask_hold_for_every_source() {
    let mut plic = Controller::new(1);
    for v in 1u16..=1023 {
        plic.unmask(0, nr(v));
        assert!(plic.is_enabled(0, nr(v)));
    }
    for v in 1u16..=1023 {
        plic.mask(0, nr(v));
        assert!(!plic.is_enabled(0, nr(v)));
        if v < 1023 {
            assert!(plic.is_enabled(0, nr(v + 1)));
        }
    }
}

#[test]
fn unmask_sets_the_bit_of_the_source_in_its_word() {
    let mut plic = Controller::new(2);
    plic.unmask(1, nr(5));
    plic.unmask(1, nr(37));
    plic.unmask(1, nr(63));
    assert_eq!(plic.read(Register::Enable { context: 1, word: 0 }), 0x0000_0020);
    assert_eq!(plic.read(Register::Enable { context: 1, word: 1 }), 0x8000_0020);
    assert_eq!(plic.read(Register::Enable { context: 0, word: 0 }), 0);
    plic.mask(1, nr(37));
    assert_eq!(plic.read(Register::Enable { context: 1, word: 1 }), 0x8000_0000);
}

#[test]
fn set_priority_then_get_priority() {
    let mut plic = Controller::new(1);
    for bits in 0u32..=7 {
        plic.set_priority(nr(9), level(bits));
        assert_eq!(plic.get_priority(nr(9)), level(bits));
        assert_eq!(plic.get_priority(nr(9)).into_bits(), bits);
        assert_eq!(plic.read(Register::Priority { source: 9 }), bits);
    }
    assert_eq!(plic.get_priority(nr(8)), Priority::never());
    assert_eq!(plic.get_priority(nr(10)), Priority::never());
}

#[test]
fn set_threshold_then_get_threshold() {
    let mut plic = Controller::new(2);
    plic.set_threshold(1, level(6));
    assert_eq!(plic.get_threshold(1), level(6));
    assert_eq!(plic.get_threshold(0), Priority::never());
    assert_eq!(plic.read(Register::Threshold { context: 1 }), 6);
    plic.set_threshold(1, Priority::never());
    assert_eq!(plic.get_threshold(1).into_bits(), 0);
}

#[test]
fn priority_register_keeps_the_bits_of_the_width() {
    let mut plic = Controller::new(1);
    plic.write(Register::Priority { source: 4 }, 0xffff_fff5);
    assert_eq!(plic.read(Register::Priority { source: 4 }), 5);
    assert_eq!(plic.get_priority(nr(4)), level(5));
    plic.write(Register::Threshold { context: 0 }, 0x0000_000a);
    assert_eq!(plic.get_threshold(0), level(2));
    let mut wide = Plic::<0, 32>::new(1);
    wide.write(Register::Priority { source: 4 }, 0xffff_fff5);
    assert_eq!(wide.read(Register::Priority { source: 4 }), 0xffff_fff5);
}

#[test]
fn reserved_and_read_only_registers_ignore_writes() {
    let mut plic = Controller::new(1);
    plic.write(Register::Priority { source: 0 }, 7);
    assert_eq!(plic.read(Register::Priority { source: 0 }), 0);
    plic.write(Register::Pending { word: 0 }, 0xffff_ffff);
    assert_eq!(plic.read(Register::Pending { word: 0 }), 0);
    assert!(!plic.is_pending(nr(5)));
}

#[test]
fn has_tells_the_registers_of_the_controller() {
    let plic = Controller::new(2);
    assert!(plic.has(Register::Priority { source: 1023 }));
    assert!(!plic.has(Register::Priority { source: 1024 }));
    assert!(plic.has(Register::Pending { word: 127 }));
    assert!(!plic.has(Register::Pending { word: 128 }));
    assert!(plic.has(Register::Enable { context: 1, word: 31 }));
    assert!(!plic.has(Register::Enable { context: 1, word: 32 }));
    assert!(!plic.has(Register::Enable { context: 2, word: 0 }));
    assert!(plic.has(Register::Threshold { context: 1 }));
    assert!(!plic.has(Register::Threshold { context: 2 }));
    assert!(plic.has(Register::Claim { context: 1 }));
    assert!(!plic.has(Register::Claim { context: 2 }));
}

#[test]
fn modify_writes_what_the_function_gives() {
    let mut plic = Controller::new(1);
    plic.write(Register::Enable { context: 0, word: 3 }, 0x0000_00f0);
    plic.modify(Register::Enable { context: 0, word: 3 }, |v| v << 4 | 1);
    assert_eq!(plic.read(Register::Enable { context: 0, word: 3 }), 0x0000_0f01);
    plic.modify(Register::Priority { source: 2 }, |v| v + 9);
    assert_eq!(plic.read(Register::Priority { source: 2 }), 1);
}

#[test]
fn raise_makes_a_source_pending() {
    let mut plic = Controller::new(1);
    plic.raise(nr(5));
    assert!(plic.is_pending(nr(5)));
    assert!(!plic.is_pending(nr(4)));
    assert!(!plic.is_pending(nr(37)));
    assert_eq!(plic.read(Register::Pending { word: 0 }), 0x20);
    plic.lower(nr(5));
    assert!(plic.is_pending(nr(5)));
    plic.raise(nr(1023));
    assert_eq!(plic.read(Register::Pending { word: 31 }), 0x8000_0000);
}

#[test]
fn claim_needs_pending_enabled_and_above_threshold() {
    let mut plic = Controller::new(2);
    plic.raise(nr(5));
    assert_eq!(plic.claim(0), None);
    plic.unmask(0, nr(5));
    assert_eq!(plic.claim(0), None);
    plic.set_priority(nr(5), level(1));
    assert_eq!(plic.claim(1), None);
    assert_eq!(plic.claim(0), Some(nr(5)));
}

#[test]
fn claim_clears_the_pending_bit() {
    let mut plic = pending_on_context_0(&[(5, 3)]);
    assert!(plic.is_pending(nr(5)));
    assert_eq!(plic.claim(0), Some(nr(5)));
    assert!(!plic.is_pending(nr(5)));
}

#[test]
fn claim_register_reads_the_number_of_the_source() {
    let mut plic = pending_on_context_0(&[(700, 3)]);
    assert_eq!(plic.read(Register::Claim { context: 1 }), 0);
    assert_eq!(plic.read(Register::Claim { context: 0 }), 700);
    assert_eq!(plic.read(Register::Claim { context: 0 }), 0);
}

#[test]
fn claim_gives_the_highest_priority_first() {
    let mut plic = pending_on_context_0(&[(3, 2), (9, 5), (4, 7), (100, 1)]);
    assert_eq!(plic.claim(0), Some(nr(4)));
    assert_eq!(plic.claim(0), Some(nr(9)));
    assert_eq!(plic.claim(0), Some(nr(3)));
    assert_eq!(plic.claim(0), Some(nr(100)));
    assert_eq!(plic.claim(0), None);
}

#[test]
fn claim_gives_the_lowest_number_among_equal_priorities() {
    let mut plic = pending_on_context_0(&[(900, 4), (33, 4), (34, 4), (2, 3)]);
    assert_eq!(plic.claim(0), Some(nr(33)));
    assert_eq!(plic.claim(0), Some(nr(34)));
    assert_eq!(plic.claim(0), Some(nr(900)));
    assert_eq!(plic.claim(0), Some(nr(2)));
    assert_eq!(plic.claim(0), None);
}

#[test]
fn second_claim_before_complete_gives_none() {
    let mut plic = Controller::new(1);
    plic.set_priority(nr(5), level(3));
    plic.unmask(0, nr(5));
    plic.raise(nr(5));
    assert_eq!(plic.claim(0), Some(nr(5)));
    assert_eq!(plic.claim(0), None);
    plic.raise(nr(5));
    assert!(!plic.is_pending(nr(5)));
    assert_eq!(plic.claim(0), None);
    plic.complete(0, nr(5));
    assert!(plic.is_pending(nr(5)));
    assert_eq!(plic.claim(0), Some(nr(5)));
}

#[test]
fn claimed_source_is_not_offered_to_another_context() {
    let mut plic = Controller::new(2);
    plic.set_priority(nr(5), level(3));
    plic.unmask(0, nr(5));
    plic.unmask(1, nr(5));
    plic.raise(nr(5));
    assert_eq!(plic.claim(1), Some(nr(5)));
    assert_eq!(plic.claim(0), None);
    assert_eq!(plic.claim(1), None);
}

#[test]
fn complete_rearms_the_source() {
    let mut plic = pending_on_context_0(&[(5, 3)]);
    assert_eq!(plic.claim(0), Some(nr(5)));
    plic.complete(0, nr(5));
    assert!(!plic.is_pending(nr(5)));
    assert_eq!(plic.claim(0), None);
    plic.raise(nr(5));
    assert!(plic.is_pending(nr(5)));
    assert_eq!(plic.claim(0), Some(nr(5)));
}

#[test]
fn complete_by_another_context_changes_nothing() {
    let mut plic = Controller::new(2);
    plic.set_priority(nr(5), level(3));
    plic.unmask(0, nr(5));
    plic.raise(nr(5));
    assert_eq!(plic.claim(0), Some(nr(5)));
    plic.complete(1, nr(5));
    assert!(!plic.is_pending(nr(5)));
    assert_eq!(plic.claim(0), None);
    plic.complete(0, nr(5));
    assert!(plic.is_pending(nr(5)));
}

#[test]
fn complete_without_claim_changes_nothing() {
    let mut plic = pending_on_context_0(&[(5, 3)]);
    plic.complete(0, nr(5));
    plic.complete(0, nr(6));
    assert!(plic.is_pending(nr(5)));
    assert!(!plic.is_pending(nr(6)));
    assert_eq!(plic.claim(0), Some(nr(5)));
    plic.write(Register::Claim { context: 0 }, 0);
    plic.write(Register::Claim { context: 0 }, 4096);
    assert_eq!(plic.claim(0), None);
}

#[test]
fn claim_gives_no_source_at_or_below_the_threshold() {
    for k in 0u32..=7 {
        let mut plic = Controller::new(1);
        for p in 0u32..=7 {
            let source = nr(10 + p as u16);
            plic.set_priority(source, level(p));
            plic.unmask(0, source);
            plic.raise(source);
        }
        plic.set_threshold(0, level(k));
        let mut claimed = Vec::new();
        while let Some(source) = plic.claim(0) {
            assert!(plic.get_priority(source).into_bits() > k);
            claimed.push(source.index());
        }
        let expected: Vec<u16> = (k + 1..=7).rev().map(|p| 10 + p as u16).collect();
        assert_eq!(claimed, expected);
    }
}

#[test]
fn priority_zero_never_interrupts() {
    let mut plic = Controller::new(1);
    plic.unmask(0, nr(5));
    plic.raise(nr(5));
    assert_eq!(plic.get_priority(nr(5)), Priority::never());
    assert_eq!(plic.claim(0), None);
    assert!(plic.is_pending(nr(5)));
}

#[test]
fn lowering_the_threshold_lets_the_source_through() {
    let mut plic = pending_on_context_0(&[(5, 3)]);
    plic.set_threshold(0, level(3));
    assert_eq!(plic.claim(0), None);
    assert!(plic.is_pending(nr(5)));
    plic.set_threshold(0, level(2));
    assert_eq!(plic.claim(0), Some(nr(5)));
}
