use hack_assembler::error::AsmError;
use hack_assembler::translate::translate;

fn src(lines: &[&str]) -> Vec<String> {
    lines.iter().map(|l| l.to_string()).collect()
}

fn ok(lines: &[&str]) -> Vec<String> {
    translate(&src(lines)).expect("translation should succeed")
}

#[test]
fn add_program_emits_six_words() {
    let out = ok(&["@2", "D=A", "@3", "D=D+A", "@0", "M=D"]);
    assert_eq!(out.len(), 6);
    assert_eq!(out[0], "0000000000000010");
    assert_eq!(out[1], "1110110000010000");
    assert_eq!(out[2], "0000000000000011");
    assert_eq!(out[3], "1110000010010000");
    assert_eq!(out[4], "0000000000000000");
    assert_eq!(out[5], "1110001100001000");
}

#[test]
fn loop_label_resolves_to_zero() {
    let out = ok(&["(LOOP)", "@LOOP", "0;JMP"]);
    assert_eq!(out.len(), 2);
    assert_eq!(out[0], "0000000000000000");
    assert_eq!(out[1], "1110101010000111");
}

#[test]
fn forward_reference_resolves() {
    let out = ok(&["@END", "0;JMP", "(END)"]);
    assert_eq!(out.len(), 2);
    assert_eq!(out[0], "0000000000000010");
    assert_eq!(out[1], "1110101010000111");
}

#[test]
fn variables_allocated_from_sixteen_in_first_use_order() {
    let out = ok(&["@i", "@sum", "@i"]);
    assert_eq!(out[0], "0000000000010000");
    assert_eq!(out[1], "0000000000010001");
    assert_eq!(out[2], "0000000000010000");
}

#[test]
fn labels_and_variables_share_one_namespace() {
    let out = ok(&["(START)", "@i", "M=1", "@START", "0;JMP"]);
    assert_eq!(out.len(), 4);
    assert_eq!(out[0], "0000000000010000");
    assert_eq!(out[2], "0000000000000000");
}

#[test]
fn every_line_is_sixteen_binary_chars() {
    let out = ok(&["@123", "D=M+1;JGT", "(X)", "@X", "@foo", "AMD=D|M;JNE"]);
    assert_eq!(out.len(), 5);
    for line in &out {
        assert_eq!(line.len(), 16);
        assert!(line.chars().all(|c| c == '0' || c == '1'));
    }
}

#[test]
fn output_count_ignores_blanks_comments_and_labels() {
    let out = ok(&["", "   ", "// comment", "(L)", "@5", "  // more", "D=A", "(M)"]);
    assert_eq!(out.len(), 2);
}

#[test]
fn literal_addresses_render_in_binary_with_high_bit_zero() {
    let out = ok(&["@0", "@1", "@32767"]);
    assert_eq!(out[0], "0000000000000000");
    assert_eq!(out[1], "0000000000000001");
    assert_eq!(out[2], "0111111111111111");
    for line in &out {
        assert!(line.starts_with('0'));
    }
}

#[test]
fn oversized_literals_have_the_high_bit_forced_to_zero() {
    let out = ok(&["@40000", "@65535"]);
    assert_eq!(out[0], "0001110001000000");
    assert_eq!(out[1], "0111111111111111");
}

#[test]
fn too_large_numerals_are_variables_not_literals() {
    let out = ok(&["@65536"]);
    assert_eq!(out[0], "0000000000010000");
}

#[test]
fn translation_halts_on_the_first_fatal_error() {
    let r = translate(&src(&["@1", "(BAD", "@2"]));
    assert!(matches!(r, Err(AsmError::MalformedLabel(t)) if t == "(BAD"));
}

#[test]
fn predefined_symbols_resolve() {
    let out = ok(&["@SP", "@R3", "@R15", "@SCREEN", "@KBD"]);
    assert_eq!(out[0], "0000000000000000");
    assert_eq!(out[1], "0000000000000011");
    assert_eq!(out[2], "0000000000001111");
    assert_eq!(out[3], "0100000000000000");
    assert_eq!(out[4], "0110000000000000");
}

#[test]
fn surrounding_whitespace_is_trimmed() {
    let out = ok(&["   @5\t", " \tD=A  "]);
    assert_eq!(out[0], "0000000000000101");
    assert_eq!(out[1], "1110110000010000");
}

#[test]
fn duplicate_label_is_rejected() {
    let r = translate(&src(&["(X)", "@1", "(X)"]));
    assert!(matches!(r, Err(AsmError::DuplicateLabel(t)) if t == "X"));
}

#[test]
fn label_colliding_with_predefined_symbol_is_rejected() {
    let r = translate(&src(&["(R0)", "@1"]));
    assert!(matches!(r, Err(AsmError::DuplicateLabel(t)) if t == "R0"));
}

#[test]
fn unterminated_label_is_rejected() {
    let r = translate(&src(&["(LOOP"]));
    assert!(matches!(r, Err(AsmError::MalformedLabel(t)) if t == "(LOOP"));
}

#[test]
fn bare_at_is_rejected() {
    let r = translate(&src(&["@"]));
    assert!(matches!(r, Err(AsmError::MalformedAddress(t)) if t == "@"));
}

#[test]
fn unknown_destination_is_rejected() {
    let r = translate(&src(&["X=D"]));
    assert!(matches!(r, Err(AsmError::UnknownDest(t)) if t == "X"));
}

#[test]
fn unknown_computation_is_rejected() {
    let r = translate(&src(&["D=W"]));
    assert!(matches!(r, Err(AsmError::UnknownComp(t)) if t == "W"));
}

#[test]
fn unknown_jump_is_rejected() {
    let r = translate(&src(&["0;JXX"]));
    assert!(matches!(r, Err(AsmError::UnknownJump(t)) if t == "JXX"));
}

#[test]
fn translation_is_idempotent() {
    let program = src(&["@2", "D=A", "(L)", "@L", "@temp", "0;JMP"]);
    let first = translate(&program).expect("first run should succeed");
    let second = translate(&program).expect("second run should succeed");
    assert_eq!(first, second);
}

#[test]
fn errors_carry_the_offending_text() {
    match translate(&src(&["D=QQQ"])) {
        Err(e) => assert_eq!(e.offending_text(), "QQQ"),
        Ok(_) => panic!("expected an error"),
    }
}
