use hack_assembler::assemble;
use hack_assembler::code::{CodeGenerator, SymbolTable};
use hack_assembler::error::{Error, LineError};
use hack_assembler::parser::{AsmLine, Comp, Dest, Jump, Parser};

fn lines(texts: &[&str]) -> Vec<String> {
    texts.iter().map(|t| t.to_string()).collect()
}

#[test]
fn test_predeclared_symbols_resolve() {
    let table = SymbolTable::new();
    assert_eq!(table.get("SP".to_string()), Some(0));
    assert_eq!(table.get("LCL".to_string()), Some(1));
    assert_eq!(table.get("ARG".to_string()), Some(2));
    assert_eq!(table.get("THIS".to_string()), Some(3));
    assert_eq!(table.get("THAT".to_string()), Some(4));
    for i in 0..16u32 {
        assert_eq!(table.get(format!("R{}", i)), Some(i));
    }
    assert_eq!(table.get("SCREEN".to_string()), Some(16384));
    assert_eq!(table.get("KBD".to_string()), Some(24576));
}

#[test]
fn test_predeclared_survive_program_content() {
    // Whatever the program holds, the predeclared entries keep their
    // addresses: program labels and variables cannot displace them.
    let parser = Parser::new();
    let src = lines(&["(LOOP)", "@x", "D=A", "@LOOP", "0;JMP"]);
    let parsed = parser.parse(&src).unwrap();
    let mut table = SymbolTable::new();
    for line in parsed.iter() {
        table.set_rom(line);
    }
    for line in parsed.iter() {
        if let Some(name) = line.symbol() {
            table.insert(name).unwrap();
        }
    }
    assert_eq!(table.get("SP".to_string()), Some(0));
    assert_eq!(table.get("R13".to_string()), Some(13));
    assert_eq!(table.get("KBD".to_string()), Some(24576));
}

#[test]
fn test_numeric_resolution_bypasses_table() {
    let mut table = SymbolTable::new();
    assert_eq!(table.get("123".to_string()), Some(123));
    assert_eq!(table.get("32767".to_string()), Some(32767));
    assert_eq!(table.get("0".to_string()), Some(0));
    // A numeric name is never inserted: the variable cursor stays put,
    // so the next real variable still gets the first free address.
    table.insert("123".to_string()).unwrap();
    table.insert("x".to_string()).unwrap();
    assert_eq!(table.get("x".to_string()), Some(16));
}

#[test]
fn test_variable_addresses_first_use_order() {
    // Fresh variables get 16, 17, ... in first-use order, each assigned
    // exactly once.
    let out = assemble(&lines(&["@first", "@second", "@first", "@third"])).unwrap();
    assert_eq!(
        out,
        lines(&[
            "0000000000010000",
            "0000000000010001",
            "0000000000010000",
            "0000000000010010",
        ])
    );
}

#[test]
fn test_round_trip_encodings() {
    let cg = CodeGenerator::new(Vec::new()).unwrap();
    let word = cg
        .translate(&AsmLine::CCommand(
            Comp::try_from("D+A").unwrap(),
            Dest::try_from("").unwrap(),
            Jump::try_from("").unwrap(),
        ))
        .unwrap();
    assert_eq!(word, "1110000010000000");

    assert_eq!(assemble(&lines(&["@0"])).unwrap(), lines(&["0000000000000000"]));
    assert_eq!(assemble(&lines(&["@R1"])).unwrap(), lines(&["0000000000000001"]));
}

#[test]
fn test_add_program() {
    let src = lines(&["@2", "D=A", "@3", "D=D+A", "@0", "M=D"]);
    let out = assemble(&src).unwrap();
    assert_eq!(out.len(), 6);
    for word in out.iter() {
        assert_eq!(word.len(), 16);
        assert!(word.chars().all(|c| c == '0' || c == '1'));
    }
    assert_eq!(
        out,
        lines(&[
            "0000000000000010",
            "1110110000010000",
            "0000000000000011",
            "1110000010010000",
            "0000000000000000",
            "1110001100001000",
        ])
    );
}

#[test]
fn test_label_address_is_instruction_count() {
    // A label declaration consumes no instruction address: it names the
    // address of the next executable instruction.
    let parser = Parser::new();
    let src = lines(&["(LOOP)", "D=A", "@LOOP", "0;JMP"]);
    let parsed = parser.parse(&src).unwrap();
    let mut table = SymbolTable::new();
    for line in parsed.iter() {
        table.set_rom(line);
    }
    for line in parsed.iter() {
        if let Some(name) = line.symbol() {
            table.insert(name).unwrap();
        }
    }
    assert_eq!(table.get("LOOP".to_string()), Some(0));

    // The same program through the whole pipeline: @LOOP encodes as 0.
    let out = assemble(&src).unwrap();
    assert_eq!(
        out,
        lines(&["1110110000010000", "0000000000000000", "1110101010000111"])
    );
}

#[test]
fn test_label_later_in_file() {
    let src = lines(&["@END", "0;JMP", "D=A", "(END)", "@END", "0;JMP"]);
    let out = assemble(&src).unwrap();
    // END names instruction address 3.
    assert_eq!(out[0], "0000000000000011");
    assert_eq!(out[3], "0000000000000011");
    assert_eq!(out.len(), 5);
}

#[test]
fn test_single_error_no_partial_output() {
    let src = lines(&["@2", "D=X", "@0", "M=D"]);
    match assemble(&src) {
        Err(Error::ParseError(pe)) => {
            assert_eq!(pe.errors.len(), 1);
            let (index, kind) = &pe.errors[0];
            assert_eq!(*index, 1);
            match kind {
                LineError::CompError(s) => assert_eq!(s, "X"),
                other => panic!("expected computation error, got {:?}", other),
            }
        },
        other => panic!("expected a parse failure, got {:?}", other),
    }
}

#[test]
fn test_all_errors_collected() {
    let src = lines(&["D=X", "@", "0;JXX"]);
    match assemble(&src) {
        Err(Error::ParseError(pe)) => {
            assert_eq!(pe.errors.len(), 3);
            assert_eq!(pe.errors[0].0, 0);
            assert_eq!(pe.errors[1].0, 1);
            assert_eq!(pe.errors[2].0, 2);
            assert!(matches!(pe.errors[0].1, LineError::CompError(_)));
            assert!(matches!(pe.errors[1].1, LineError::InvalidSymbolError(_)));
            assert!(matches!(pe.errors[2].1, LineError::JumpError(_)));
        },
        other => panic!("expected a parse failure, got {:?}", other),
    }
}

#[test]
fn test_pipeline_idempotent() {
    let src = lines(&["(LOOP)", "@i", "M=M+1", "@LOOP", "0;JMP", "// done"]);
    let first = assemble(&src).unwrap();
    let second = assemble(&src).unwrap();
    assert_eq!(first, second);
}

#[test]
fn test_whitespace_and_comments_stripped() {
    let src = lines(&["  @2  // load two", "", "// only a comment", "D = A ", "   "]);
    let out = assemble(&src).unwrap();
    assert_eq!(out, lines(&["0000000000000010", "1110110000010000"]));
}

#[test]
fn test_tabs_and_other_whitespace_stripped() {
    let src = lines(&["\tD =\tA", "\t", " \t// tabbed comment", "@2\r"]);
    let out = assemble(&src).unwrap();
    assert_eq!(out, lines(&["1110110000010000", "0000000000000010"]));
}

#[test]
fn test_address_out_of_range() {
    match assemble(&lines(&["@32768"])) {
        Err(Error::AddressOutOfRange(s)) => assert_eq!(s, "32768"),
        other => panic!("expected a range error, got {:?}", other),
    }
    // The largest representable address still encodes.
    assert_eq!(assemble(&lines(&["@32767"])).unwrap(), lines(&["0111111111111111"]));
}

#[test]
fn test_huge_numeric_target_out_of_range() {
    match assemble(&lines(&["@99999999999999999999"])) {
        Err(Error::AddressOutOfRange(s)) => assert_eq!(s, "99999999999999999999"),
        other => panic!("expected a range error, got {:?}", other),
    }
}

#[test]
fn test_unresolved_symbol_on_hand_built_lines() {
    // An empty target can never be assigned by the variable pass; the
    // parser refuses it, but a hand-built line reaches the encoder.
    let cg = CodeGenerator::new(vec![AsmLine::ACommand(String::new())]).unwrap();
    match cg.gen() {
        Err(Error::UnresolvedSymbol(s)) => assert_eq!(s, ""),
        other => panic!("expected an unresolved symbol, got {:?}", other),
    }
}

#[test]
fn test_address_space_exhaustion() {
    let mut table = SymbolTable::new();
    for i in 0..16368u32 {
        table.insert(format!("v{}", i)).unwrap();
    }
    assert_eq!(table.get("v0".to_string()), Some(16));
    assert_eq!(table.get("v16367".to_string()), Some(16383));
    // Names that allocate nothing are still fine at the ceiling: a
    // numeric target, an already-present name, an empty name.
    table.insert("123".to_string()).unwrap();
    table.insert("v0".to_string()).unwrap();
    table.insert("SP".to_string()).unwrap();
    table.insert(String::new()).unwrap();
    assert_eq!(table.get("v0".to_string()), Some(16));
    assert_eq!(table.get("SP".to_string()), Some(0));
    // Only an allocation that would pass the ceiling is fatal.
    match table.insert("one_too_many".to_string()) {
        Err(Error::AddressSpaceExhausted) => {},
        other => panic!("expected exhaustion, got {:?}", other),
    }
}

#[test]
fn test_empty_input() {
    let out = assemble(&Vec::new()).unwrap();
    assert!(out.is_empty());
}

#[test]
fn test_label_only_program_has_no_output() {
    let out = assemble(&lines(&["(A)", "(B)"])).unwrap();
    assert!(out.is_empty());
}

#[test]
fn test_duplicate_label_last_wins() {
    let src = lines(&["(L)", "D=A", "(L)", "@L"]);
    let out = assemble(&src).unwrap();
    // The later declaration of L names instruction address 1.
    assert_eq!(out, lines(&["1110110000010000", "0000000000000001"]));
}
