use plic::layout::{
    clear_bit, mask, set_bit, test_bit, word_index, Register, CONTEXTS, SIZE, SOURCES,
};
use plic::Nr;

fn nr(v: u16) -> Nr {
    Nr::try_from(v).unwrap()
}

#[test]
fn priority_registers_start_at_zero() {
    assert_eq!(Register::Priority { source: 0 }.offset(), 0x000000);
    assert_eq!(Register::Priority { source: 1 }.offset(), 0x000004);
    assert_eq!(Register::Priority { source: 2 }.offset(), 0x000008);
    assert_eq!(Register::Priority { source: 1023 }.offset(), 0x000FFC);
    assert_eq!(Register::priority(nr(5)), Register::Priority { source: 5 });
    assert_eq!(Register::priority(nr(5)).offset(), 0x14);
}

#[test]
fn pending_words_follow_the_priorities() {
    assert_eq!(Register::Pending { word: 0 }.offset(), 0x001000);
    assert_eq!(Register::Pending { word: 31 }.offset(), 0x00107C);
    assert_eq!(Register::Pending { word: 127 }.offset(), 0x0011FC);
    assert_eq!(Register::pending(nr(31)), Register::Pending { word: 0 });
    assert_eq!(Register::pending(nr(32)), Register::Pending { word: 1 });
    assert_eq!(Register::pending(nr(1023)), Register::Pending { word: 31 });
}

#[test]
fn enable_words_of_a_context_are_0x80_apart() {
    assert_eq!(Register::Enable { context: 0, word: 0 }.offset(), 0x002000);
    assert_eq!(Register::Enable { context: 0, word: 1 }.offset(), 0x002004);
    assert_eq!(Register::Enable { context: 0, word: 31 }.offset(), 0x00207C);
    assert_eq!(Register::Enable { context: 1, word: 0 }.offset(), 0x002080);
    assert_eq!(Register::Enable { context: 1, word: 1 }.offset(), 0x002084);
    assert_eq!(Register::Enable { context: 2, word: 0 }.offset(), 0x002100);
    assert_eq!(Register::Enable { context: 15871, word: 0 }.offset(), 0x1F1F80);
    assert_eq!(Register::Enable { context: 15871, word: 1 }.offset(), 0x1F1F84);
    assert_eq!(Register::Enable { context: 15871, word: 31 }.offset(), 0x1F1FFC);
    assert_eq!(Register::enable(3, nr(70)), Register::Enable { context: 3, word: 2 });
}

#[test]
fn context_registers_are_0x1000_apart() {
    assert_eq!(Register::Threshold { context: 0 }.offset(), 0x200000);
    assert_eq!(Register::Claim { context: 0 }.offset(), 0x200004);
    assert_eq!(Register::Threshold { context: 1 }.offset(), 0x201000);
    assert_eq!(Register::Claim { context: 1 }.offset(), 0x201004);
    assert_eq!(Register::Threshold { context: 15871 }.offset(), 0x3FFF000);
    assert_eq!(Register::Claim { context: 15871 }.offset(), 0x3FFF004);
}

#[test]
fn layout_ends_where_the_address_space_does() {
    assert_eq!(SOURCES, 1024);
    assert_eq!(CONTEXTS, 15872);
    assert_eq!(SIZE, 0x400_0000);
    assert!(Register::Priority { source: 1023 }.is_in_layout());
    assert!(!Register::Priority { source: 1024 }.is_in_layout());
    assert!(Register::Pending { word: 127 }.is_in_layout());
    assert!(!Register::Pending { word: 128 }.is_in_layout());
    assert!(Register::Enable { context: 15871, word: 31 }.is_in_layout());
    assert!(!Register::Enable { context: 15871, word: 32 }.is_in_layout());
    assert!(!Register::Enable { context: 15872, word: 0 }.is_in_layout());
    assert!(Register::Threshold { context: 15871 }.is_in_layout());
    assert!(!Register::Threshold { context: 15872 }.is_in_layout());
    assert!(Register::Claim { context: 15871 }.is_in_layout());
    assert!(!Register::Claim { context: 15872 }.is_in_layout());
}

#[test]
fn address_adds_the_base() {
    assert_eq!(Register::Claim { context: 0 }.address(0x0C00_0000), Some(0x0C20_0004));
    assert_eq!(Register::Priority { source: 1 }.address(0x4000_0000), Some(0x4000_0004));
    assert_eq!(Register::Priority { source: 0 }.address(0), Some(0));
    assert_eq!(Register::Priority { source: 1024 }.address(0), None);
    assert_eq!(Register::Priority { source: 1 }.address(usize::MAX - 6), None);
    assert_eq!(Register::Priority { source: 1 }.address(usize::MAX - 7), Some(usize::MAX - 3));
    assert_eq!(Register::Claim { context: 15872 }.address(0), None);
}

#[test]
fn offsets_of_different_registers_differ() {
    let mut registers = Vec::new();
    for source in 0..1024 {
        registers.push(Register::Priority { source });
    }
    for word in 0..128 {
        registers.push(Register::Pending { word });
    }
    for context in [0usize, 1, 2, 15870, 15871] {
        for word in 0..32 {
            registers.push(Register::Enable { context, word });
        }
        registers.push(Register::Threshold { context });
        registers.push(Register::Claim { context });
    }
    let mut offsets: Vec<usize> = registers.iter().map(|r| r.offset()).collect();
    for offset in offsets.iter() {
        assert_eq!(offset % 4, 0);
        assert!(offset + 4 <= SIZE);
    }
    offsets.sort();
    offsets.dedup();
    assert_eq!(offsets.len(), registers.len());
}

#[test]
fn a_source_has_one_bit_in_one_word() {
    assert_eq!(word_index(nr(1)), 0);
    assert_eq!(word_index(nr(31)), 0);
    assert_eq!(word_index(nr(32)), 1);
    assert_eq!(word_index(nr(1023)), 31);
    assert_eq!(mask(nr(1)), 0x0000_0002);
    assert_eq!(mask(nr(5)), 0x0000_0020);
    assert_eq!(mask(nr(31)), 0x8000_0000);
    assert_eq!(mask(nr(32)), 0x0000_0001);
    assert_eq!(mask(nr(37)), 0x0000_0020);
    assert_eq!(mask(nr(1023)), 0x8000_0000);
}

#[test]
fn bits_are_set_tested_and_cleared() {
    assert_eq!(set_bit(0, nr(5)), 0x20);
    assert_eq!(set_bit(0x20, nr(5)), 0x20);
    assert_eq!(set_bit(0x0000_0101, nr(37)), 0x0000_0121);
    assert_eq!(clear_bit(0x20, nr(5)), 0);
    assert_eq!(clear_bit(0xffff_ffff, nr(5)), 0xffff_ffdf);
    assert_eq!(clear_bit(0, nr(5)), 0);
    assert!(test_bit(0x20, nr(5)));
    assert!(test_bit(0x20, nr(37)));
    assert!(!test_bit(0x20, nr(4)));
    assert!(!test_bit(0xffff_ffdf, nr(5)));
    for v in 1u16..=1023 {
        assert!(test_bit(set_bit(0, nr(v)), nr(v)));
        assert!(!test_bit(clear_bit(u32::MAX, nr(v)), nr(v)));
    }
}
