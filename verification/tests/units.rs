use hack_assembler::code::{encode, to_binary16, Instruction};
use hack_assembler::parse::{parse_line, Parsed};
use hack_assembler::symbols::{predef_symbols, SymbolTable};
use hack_assembler::text::{parse_numeric, trim};

fn inst(dest: &str, comp: &str, jump: &str) -> Instruction {
    Instruction { dest: dest.to_string(), comp: comp.to_string(), jump: jump.to_string() }
}

#[test]
fn encode_composes_the_three_fields() {
    assert_eq!(encode(&inst("D", "A", "")).unwrap(), 0b1110110000010000);
    assert_eq!(encode(&inst("D", "D+A", "")).unwrap(), 0b1110000010010000);
    assert_eq!(encode(&inst("M", "D", "")).unwrap(), 0b1110001100001000);
    assert_eq!(encode(&inst("", "0", "JMP")).unwrap(), 0b1110101010000111);
    assert_eq!(encode(&inst("D", "M+1", "JGT")).unwrap(), 0b1111110111010001);
    assert_eq!(encode(&inst("MD", "D-M", "JLE")).unwrap(), 0b1111010011011110);
}

#[test]
fn encode_accepts_both_spellings_of_the_full_destination() {
    let amd = encode(&inst("AMD", "1", "")).unwrap();
    let adm = encode(&inst("ADM", "1", "")).unwrap();
    assert_eq!(amd, adm);
    assert_eq!(amd, 0b1110111111111000);
}

#[test]
fn encode_rejects_unknown_fields() {
    assert!(encode(&inst("Q", "0", "")).is_err());
    assert!(encode(&inst("", "2", "")).is_err());
    assert!(encode(&inst("", "0", "JJJ")).is_err());
}

#[test]
fn binary_rendering_covers_the_extremes() {
    assert_eq!(to_binary16(0), "0000000000000000");
    assert_eq!(to_binary16(0xffff), "1111111111111111");
    assert_eq!(to_binary16(0b1010101010101010), "1010101010101010");
    assert_eq!(to_binary16(17), "0000000000010001");
}

#[test]
fn parse_line_classifies_each_shape() {
    assert!(matches!(parse_line("").unwrap(), Parsed::Blank));
    assert!(matches!(parse_line("  // note").unwrap(), Parsed::Blank));
    assert!(matches!(parse_line("(LOOP)").unwrap(), Parsed::Label(n) if n == "LOOP"));
    assert!(matches!(parse_line("@sum").unwrap(), Parsed::Addr(t) if t == "sum"));
    match parse_line("AM=D|M;JNE").unwrap() {
        Parsed::Compute(i) => {
            assert_eq!(i.dest, "AM");
            assert_eq!(i.comp, "D|M");
            assert_eq!(i.jump, "JNE");
        },
        _ => panic!("expected a compute instruction"),
    }
}

#[test]
fn parse_line_fields_default_to_empty() {
    match parse_line("D+1").unwrap() {
        Parsed::Compute(i) => {
            assert_eq!(i.dest, "");
            assert_eq!(i.comp, "D+1");
            assert_eq!(i.jump, "");
        },
        _ => panic!("expected a compute instruction"),
    }
}

#[test]
fn numeric_tokens_are_plain_decimal_digits() {
    assert_eq!(parse_numeric("0"), Some(0));
    assert_eq!(parse_numeric("007"), Some(7));
    assert_eq!(parse_numeric("65535"), Some(65535));
    assert_eq!(parse_numeric("65536"), None);
    assert_eq!(parse_numeric("99999999999999999999"), None);
    assert_eq!(parse_numeric(""), None);
    assert_eq!(parse_numeric("+5"), None);
    assert_eq!(parse_numeric("12a"), None);
}

#[test]
fn trim_strips_both_ends_only() {
    assert_eq!(trim("  a b\t"), "a b");
    assert_eq!(trim("\r\n"), "");
    assert_eq!(trim("x"), "x");
}

#[test]
fn predefined_table_holds_the_fixed_bindings() {
    let t = predef_symbols();
    assert!(t.contains("SP"));
    assert_eq!(t.get_address("SP"), 0);
    assert_eq!(t.get_address("LCL"), 1);
    assert_eq!(t.get_address("ARG"), 2);
    assert_eq!(t.get_address("THIS"), 3);
    assert_eq!(t.get_address("THAT"), 4);
    assert_eq!(t.get_address("R0"), 0);
    assert_eq!(t.get_address("R12"), 12);
    assert_eq!(t.get_address("R15"), 15);
    assert_eq!(t.get_address("SCREEN"), 16384);
    assert_eq!(t.get_address("KBD"), 24576);
    assert!(!t.contains("R16"));
    assert!(!t.contains("sp"));
}

#[test]
fn symbol_table_grows_and_answers_lookups() {
    let mut t = SymbolTable::new();
    assert!(!t.contains("x"));
    t.add_entry("x".to_string(), 16);
    t.add_entry("y".to_string(), 17);
    assert!(t.contains("x"));
    assert_eq!(t.get_address("x"), 16);
    assert_eq!(t.get_address("y"), 17);
    assert_eq!(t.lookup("z"), None);
}
