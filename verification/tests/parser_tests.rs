use hack_assembler::error::LineError;
use hack_assembler::parser::{AsmLine, Comp, Dest, Jump, Parser};

#[test]
fn test_parse_c() {
    let p = Parser::new();

    let raw_line = "0;JMP";
    let ret = p.parse_line(raw_line).unwrap();
    let expected = AsmLine::CCommand(
        Comp::try_from("0").unwrap(),
        Dest::try_from("").unwrap(),
        Jump::try_from("JMP").unwrap(),
    );
    assert_eq!(ret, expected);

    let raw_line = "D=M";
    let ret = p.parse_line(raw_line).unwrap();
    let expected = AsmLine::CCommand(
        Comp::try_from("M").unwrap(),
        Dest::try_from("D").unwrap(),
        Jump::try_from("").unwrap(),
    );
    assert_eq!(ret, expected);

    let raw_line = "D|M";
    let ret = p.parse_line(raw_line).unwrap();
    let expected = AsmLine::CCommand(
        Comp::try_from("D|M").unwrap(),
        Dest::try_from("").unwrap(),
        Jump::try_from("").unwrap(),
    );
    assert_eq!(ret, expected)
}

#[test]
fn test_parse_a() {
    let p = Parser::new();

    let raw_line = "@R1";
    let ret = p.parse_line(raw_line).unwrap();
    let expected = AsmLine::ACommand("R1".to_string());
    assert_eq!(ret, expected);

    let raw_line = "@100";
    let ret = p.parse_line(raw_line).unwrap();
    let expected = AsmLine::ACommand("100".to_string());
    assert_eq!(ret, expected);
}

#[test]
fn test_parse_l() {
    let p = Parser::new();
    let raw_line = "(SYMBOL)";
    let ret = p.parse_line(raw_line).unwrap();
    let expected = AsmLine::LCommand("SYMBOL".to_string());
    assert_eq!(ret, expected);

    let raw_line = "(115)";
    let ret = p.parse_line(raw_line).unwrap();
    let expected = AsmLine::LCommand("115".to_string());
    assert_eq!(ret, expected)
}

#[test]
fn test_empty_address_symbol_fails() {
    let p = Parser::new();
    match p.parse_line("@") {
        Err(LineError::InvalidSymbolError(s)) => assert_eq!(s, ""),
        other => panic!("expected invalid-symbol error, got {:?}", other),
    }
}

#[test]
fn test_symbol_with_numeric_first_char_fails() {
    // A symbol starting with a digit must be purely numeric.
    let p = Parser::new();
    match p.parse_line("@1foo") {
        Err(LineError::InvalidSymbolError(s)) => assert_eq!(s, "1foo"),
        other => panic!("expected invalid-symbol error, got {:?}", other),
    }
}

#[test]
fn test_symbol_with_digit_after_letter_parses() {
    let p = Parser::new();
    let ret = p.parse_line("@foo1").unwrap();
    assert_eq!(ret, AsmLine::ACommand("foo1".to_string()));
}

#[test]
fn test_symbol_punctuation_parses() {
    let p = Parser::new();
    let ret = p.parse_line("@a_b.c$d:e").unwrap();
    assert_eq!(ret, AsmLine::ACommand("a_b.c$d:e".to_string()));
}

#[test]
fn test_embedded_marker_fails() {
    let p = Parser::new();
    match p.parse_line("@a@b") {
        Err(LineError::InvalidSymbolError(s)) => assert_eq!(s, "ab"),
        other => panic!("expected invalid-symbol error, got {:?}", other),
    }
}

#[test]
fn test_unrecognized_comp_mnemonic() {
    let p = Parser::new();
    match p.parse_line("D=X") {
        Err(LineError::CompError(s)) => assert_eq!(s, "X"),
        other => panic!("expected computation error, got {:?}", other),
    }
}

#[test]
fn test_double_equals_is_dest_error() {
    let p = Parser::new();
    match p.parse_line("D=D=A") {
        Err(LineError::DestError(s)) => assert_eq!(s, "D=D=A"),
        other => panic!("expected destination error, got {:?}", other),
    }
}

#[test]
fn test_double_equals_beats_comp_lookup() {
    // A repeated separator malforms the line before any field lookup:
    // even though `X` is no computation mnemonic, the second `=` decides.
    let p = Parser::new();
    match p.parse_line("X=Y=Z") {
        Err(LineError::DestError(s)) => assert_eq!(s, "X=Y=Z"),
        other => panic!("expected destination error, got {:?}", other),
    }
}

#[test]
fn test_double_semicolon_beats_comp_lookup() {
    let p = Parser::new();
    match p.parse_line("Q;JGT;JGT") {
        Err(LineError::JumpError(s)) => assert_eq!(s, "Q;JGT;JGT"),
        other => panic!("expected jump error, got {:?}", other),
    }
}

#[test]
fn test_double_semicolon_is_jump_error() {
    let p = Parser::new();
    match p.parse_line("0;JMP;JMP") {
        Err(LineError::JumpError(s)) => assert_eq!(s, "0;JMP;JMP"),
        other => panic!("expected jump error, got {:?}", other),
    }
}

#[test]
fn test_unrecognized_dest_mnemonic() {
    let p = Parser::new();
    match p.parse_line("X=D") {
        Err(LineError::DestError(s)) => assert_eq!(s, "X"),
        other => panic!("expected destination error, got {:?}", other),
    }
}

#[test]
fn test_unrecognized_jump_mnemonic() {
    let p = Parser::new();
    match p.parse_line("0;JXX") {
        Err(LineError::JumpError(s)) => assert_eq!(s, "JXX"),
        other => panic!("expected jump error, got {:?}", other),
    }
}

#[test]
fn test_mnemonic_lookups() {
    assert_eq!(Comp::try_from("D+A").unwrap(), Comp::DpA);
    assert_eq!(Comp::try_from("M-1").unwrap(), Comp::MmOne);
    assert_eq!(Dest::try_from("AMD").unwrap(), Dest::AMD);
    assert_eq!(Dest::try_from("").unwrap(), Dest::Null);
    assert_eq!(Jump::try_from("JLE").unwrap(), Jump::JLE);
    assert_eq!(Jump::try_from("").unwrap(), Jump::Null);
    assert!(Comp::try_from("Q").is_err());
    assert!(Dest::try_from("DM").is_err());
    assert!(Jump::try_from("JM").is_err());
}

#[test]
fn test_line_error_message() {
    let e = LineError::CompError("X".to_string());
    assert_eq!(e.message(), "Invalid Comp expression: X");
    let e = LineError::InvalidSymbolError("".to_string());
    assert_eq!(e.message(), "Invalid symbolname: ");
}

#[test]
fn test_accessors() {
    let c = AsmLine::CCommand(Comp::DpA, Dest::D, Jump::JMP);
    assert_eq!(c.comp(), Some(Comp::DpA));
    assert_eq!(c.dest(), Some(Dest::D));
    assert_eq!(c.jump(), Some(Jump::JMP));
    assert_eq!(c.symbol(), None);
    let a = AsmLine::ACommand("x".to_string());
    assert_eq!(a.symbol(), Some("x".to_string()));
    assert_eq!(a.comp(), None);
    assert_eq!(a.dest(), None);
    assert_eq!(a.jump(), None);
    let l = AsmLine::LCommand("LOOP".to_string());
    assert_eq!(l.symbol(), Some("LOOP".to_string()));
}
