use asm8051::codegen::{
    add_a_a, add_a_b, add_a_data, add_a_rn, ljmp, mov_a_b, mov_a_data, mov_a_rn, mov_b_a,
    mov_b_data, mov_b_rn, mov_rn_a, mov_rn_b, mov_rn_data, mov_rn_rn, sjmp,
};
use asm8051::numeral::{parse_number, parse_number_16, NumErr};
use asm8051::parser::{parse_destination, parse_source, Destination, Source};
use asm8051::symtab::SymbolTable;

#[test]
fn radix_suffixes() {
    assert_eq!(parse_number("0FH"), Ok(15));
    assert_eq!(parse_number("101B"), Ok(5));
    assert_eq!(parse_number("17O"), Ok(15));
    assert_eq!(parse_number("9D"), Ok(9));
    assert_eq!(parse_number("42"), Ok(42));
    assert_eq!(parse_number("0fh"), Ok(15));
    assert_eq!(parse_number("101b"), Ok(5));
    assert_eq!(parse_number("17o"), Ok(15));
    assert_eq!(parse_number("9d"), Ok(9));
}

#[test]
fn negative_literals_are_rejected_not_wrapped() {
    assert_eq!(parse_number("-1"), Err(NumErr::Negative));
    assert_eq!(parse_number("-0FH"), Err(NumErr::Negative));
    assert_eq!(parse_number_16("-1"), Err(NumErr::Negative));
}

#[test]
fn malformed_literals() {
    assert_eq!(parse_number(""), Err(NumErr::Malformed));
    assert_eq!(parse_number("xyz"), Err(NumErr::Malformed));
    assert_eq!(parse_number("1 2"), Err(NumErr::Malformed));
    assert_eq!(parse_number("H"), Err(NumErr::Malformed));
    assert_eq!(parse_number("+"), Err(NumErr::Malformed));
    // A hex digit without the hex suffix is no decimal number.
    assert_eq!(parse_number("FF"), Err(NumErr::Malformed));
}

#[test]
fn width_limits() {
    assert_eq!(parse_number("255"), Ok(255));
    assert_eq!(parse_number("256"), Err(NumErr::Malformed));
    assert_eq!(parse_number("FFH"), Ok(255));
    assert_eq!(parse_number("100H"), Err(NumErr::Malformed));
    assert_eq!(parse_number_16("FFFFH"), Ok(0xffff));
    assert_eq!(parse_number_16("10000H"), Err(NumErr::Malformed));
    assert_eq!(parse_number_16("65535"), Ok(65535));
    assert_eq!(parse_number_16("65536"), Err(NumErr::Malformed));
    assert_eq!(parse_number("0000000255"), Ok(255));
}

#[test]
fn plus_prefix_is_tolerated() {
    assert_eq!(parse_number("+12"), Ok(12));
    assert_eq!(parse_number("+0FH"), Ok(15));
}

#[test]
fn destinations() {
    assert!(matches!(parse_destination("R5"), Destination::RegisterR(5)));
    assert!(matches!(parse_destination("r0"), Destination::RegisterR(0)));
    assert!(matches!(parse_destination("A"), Destination::RegisterA));
    assert!(matches!(parse_destination("a"), Destination::RegisterA));
    assert!(matches!(parse_destination("B"), Destination::RegisterB));
    assert!(matches!(parse_destination("b"), Destination::RegisterB));
    // Only a single digit 0-7 names a register; the rest fall to labels.
    assert!(matches!(parse_destination("R8"), Destination::Label(_)));
    assert!(matches!(parse_destination("r12"), Destination::Label(_)));
    assert!(matches!(parse_destination("loop"), Destination::Label(_)));
}

#[test]
fn sources() {
    assert!(matches!(parse_source("#21"), Ok(Source::Immediate(21))));
    assert!(matches!(parse_source("#0FH"), Ok(Source::Immediate(15))));
    assert!(matches!(parse_source("R7"), Ok(Source::RegisterR(7))));
    assert!(matches!(parse_source("a"), Ok(Source::RegisterA)));
    assert!(matches!(parse_source("B"), Ok(Source::RegisterB)));
    assert!(matches!(parse_source("target"), Ok(Source::Label(_))));
    assert!(matches!(parse_source("#-1"), Err(NumErr::Negative)));
    assert!(matches!(parse_source("#"), Err(NumErr::Malformed)));
}

#[test]
fn symbol_table_last_write_wins() {
    let mut st = SymbolTable::new();
    assert_eq!(st.get("x"), None);
    assert!(!st.contains_key("x"));
    st.insert("x".to_string(), 1);
    st.insert("y".to_string(), 9);
    st.insert("x".to_string(), 2);
    assert_eq!(st.get("x"), Some(2));
    assert_eq!(st.get("y"), Some(9));
    assert!(st.contains_key("y"));
    assert_eq!(st.get("z"), None);
}

#[test]
fn codegen_encodings_match_the_table() {
    assert_eq!(mov_rn_data(3, 0xab), vec![0x77, 0xab]);
    assert_eq!(mov_rn_rn(1, 2), vec![0x7c + 8 + 2]);
    assert_eq!(mov_a_data(0x55), vec![0x8c, 0x55]);
    assert_eq!(mov_a_rn(4), vec![0x88]);
    assert_eq!(mov_rn_a(2), vec![0x8f]);
    assert_eq!(mov_b_rn(6), vec![0x9b]);
    assert_eq!(mov_b_data(9), vec![0x9d, 0x09]);
    assert_eq!(mov_rn_b(0), vec![0x9e]);
    assert_eq!(mov_a_b(), vec![0xa6]);
    assert_eq!(mov_b_a(), vec![0xa7]);
    assert_eq!(add_a_data(7), vec![0x50, 0x07]);
    assert_eq!(add_a_b(), vec![0x51]);
    assert_eq!(add_a_rn(5), vec![0x57]);
    assert_eq!(add_a_a(), vec![0x5a]);
    assert_eq!(sjmp(0xf9), vec![0x28, 0xf9]);
    assert_eq!(ljmp(0x0105), vec![0x29, 0x01, 0x05]);
}
