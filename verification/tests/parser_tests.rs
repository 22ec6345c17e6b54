use souper_cton::parser::{
    getCtonOpCodeName, getCtonValDefName, lowering_souper_isa_to_cton_isa, mapping_souper_to_cton_isa,
    note_message, parse, parse_insts, CtonInstKind, CtonOpcode, CtonValueDef, Inst, InstKind, Lexed, Lexer, Location,
    ParseError, ParseNote, Parser, TokKind,
};

fn tok(kind: TokKind<'_>) -> Lexed<'_> {
    Lexed::Token(kind, Location { line_num: 1 })
}

fn messages(notes: &[ParseNote<'_>]) -> Vec<String> {
    notes.iter().map(|n| note_message(*n)).collect()
}

fn var_input() -> Vec<Lexed<'static>> {
    vec![tok(TokKind::ValName("%0")), tok(TokKind::Equal), tok(TokKind::Ident("var")), tok(TokKind::Eof)]
}

#[test]
fn var_instruction() {
    let insts = parse_insts(var_input()).result.unwrap();
    assert_eq!(insts.len(), 1);
    let inst = insts[0].unwrap();
    assert_eq!(inst.kind, InstKind::Var);
    assert_eq!(inst.lhs, "%0");
}

#[test]
fn add_instruction_is_lowered_to_iadd() {
    let input = vec![
        tok(TokKind::ValName("%0")),
        tok(TokKind::Equal),
        tok(TokKind::Ident("var")),
        tok(TokKind::ValName("%1")),
        tok(TokKind::Equal),
        tok(TokKind::Ident("add")),
        tok(TokKind::ValName("%0")),
        tok(TokKind::Comma),
        tok(TokKind::Int),
        tok(TokKind::Eof),
    ];
    let parsed = parse(input);
    assert_eq!(messages(&parsed.notes), vec!["Build Var Instruction", "Op: Valname", "Op: Int", "Build add instruction"]);
    let cton = parsed.result.unwrap();
    assert_eq!(cton.len(), 2);
    assert_eq!(cton[0].valuedef, CtonValueDef::Param);
    assert_eq!(cton[0].kind, CtonInstKind::Var);
    assert_eq!(cton[0].opcode, CtonOpcode::Var);
    assert_eq!(cton[0].lhs, "%0");
    assert_eq!(cton[1].valuedef, CtonValueDef::Result);
    assert_eq!(cton[1].kind, CtonInstKind::Binary);
    assert_eq!(cton[1].opcode, CtonOpcode::Iadd);
    assert_eq!(cton[1].lhs, "%1");
}

#[test]
fn mul_and_unknown_instructions() {
    let input = vec![
        tok(TokKind::ValName("%2")),
        tok(TokKind::Equal),
        tok(TokKind::Ident("mul")),
        tok(TokKind::UntypedInt),
        tok(TokKind::Comma),
        tok(TokKind::ValName("%1")),
        tok(TokKind::ValName("%3")),
        tok(TokKind::Equal),
        tok(TokKind::Ident("phi")),
        tok(TokKind::Int),
        tok(TokKind::Eof),
    ];
    let insts = parse_insts(input).result.unwrap();
    assert_eq!(insts.len(), 2);
    assert_eq!(insts[0].unwrap().kind, InstKind::Mul);
    assert_eq!(insts[0].unwrap().lhs, "%2");
    assert_eq!(insts[1].unwrap().kind, InstKind::NoneType);
    assert_eq!(insts[1].unwrap().lhs, "%3");
}

#[test]
fn ident_instructions_are_skipped() {
    let input = vec![tok(TokKind::Ident("infer")), tok(TokKind::ValName("%1")), tok(TokKind::Eof)];
    let insts = parse_insts(input).result.unwrap();
    assert_eq!(insts.len(), 2);
    assert!(insts[0].is_none());
    assert!(insts[1].is_none());
    let cton = lowering_souper_isa_to_cton_isa(insts);
    assert_eq!(cton[1].lhs, "");
    assert_eq!(cton[1].valuedef, CtonValueDef::Param);
}

#[test]
fn missing_equal_gives_no_instruction() {
    let input = vec![tok(TokKind::ValName("%1")), tok(TokKind::Comma), tok(TokKind::Eof)];
    // the comma that follows is never consumed
    let parsed = parse_insts(input);
    assert_eq!(parsed.result.unwrap_err(), ParseError::Stalled { repeat_from: 1 });
    assert_eq!(messages(&parsed.notes), vec![
        "Error: Expected ValName -> ???? Eq",
        "Error: Instruction either start with ValName token or Ident token",
    ]);
    let input = vec![tok(TokKind::ValName("%1")), tok(TokKind::ValName("%2")), tok(TokKind::Eof)];
    let insts = parse_insts(input).result.unwrap();
    assert_eq!(insts.len(), 2);
    assert!(insts[0].is_none());
    assert!(insts[1].is_none());
}

#[test]
fn empty_input() {
    assert_eq!(parse_insts(vec![tok(TokKind::Eof)]).result.unwrap().len(), 0);
    assert_eq!(parse(vec![tok(TokKind::Eof)]).result.unwrap().len(), 0);
}

#[test]
fn lexer_failure_keeps_the_lookahead() {
    let input = vec![
        tok(TokKind::ValName("%0")),
        Lexed::Failure(Location { line_num: 2 }),
        tok(TokKind::Equal),
        tok(TokKind::Ident("var")),
        tok(TokKind::Eof),
    ];
    let insts = parse_insts(input).result.unwrap();
    assert_eq!(insts.len(), 2);
    assert!(insts[0].is_none());
    assert_eq!(insts[1].unwrap().lhs, "%0");
    assert_eq!(insts[1].unwrap().kind, InstKind::Var);
}

#[test]
fn stalled_on_an_operand_at_the_start() {
    let parsed = parse_insts(vec![tok(TokKind::Int), tok(TokKind::Eof)]);
    assert_eq!(parsed.result.unwrap_err(), ParseError::Stalled { repeat_from: 0 });
    assert_eq!(messages(&parsed.notes), vec!["Error: Instruction either start with ValName token or Ident token"]);
    let parsed = parse(vec![tok(TokKind::Int), tok(TokKind::Eof)]);
    assert_eq!(parsed.result.unwrap_err(), ParseError::Stalled { repeat_from: 0 });
}

#[test]
fn stalled_on_an_error_token() {
    let parsed = parse_insts(vec![tok(TokKind::Error), tok(TokKind::Eof)]);
    assert_eq!(parsed.result.unwrap_err(), ParseError::Stalled { repeat_from: 0 });
}

#[test]
fn stalled_when_the_lexer_runs_out() {
    let parsed = parse_insts(vec![tok(TokKind::ValName("%0"))]);
    assert_eq!(parsed.result.unwrap_err(), ParseError::Stalled { repeat_from: 0 });
    assert_eq!(messages(&parsed.notes), vec![
        "Error: in consume_token(), invalid token type",
        "Error: Expected ValName -> ???? Eq",
    ]);
    let parsed = parse_insts(vec![]);
    assert_eq!(parsed.result.unwrap_err(), ParseError::Stalled { repeat_from: 1 });
    assert_eq!(messages(&parsed.notes), vec![
        "Error: in consume_token(), invalid token type",
        "Error: Instruction either start with ValName token or Ident token",
    ]);
    let parsed = parse_insts(vec![tok(TokKind::ValName("%0")), Lexed::Exhausted]);
    assert_eq!(parsed.result.unwrap_err(), ParseError::Stalled { repeat_from: 2 });
    assert_eq!(parsed.notes.len(), 4);
}

#[test]
fn stalled_in_an_operand_list() {
    // `add %0,` followed by the end of the lexer's answers
    let input = vec![
        tok(TokKind::ValName("%1")),
        tok(TokKind::Equal),
        tok(TokKind::Ident("add")),
        tok(TokKind::ValName("%0")),
        tok(TokKind::Comma),
    ];
    let parsed = parse_insts(input);
    assert_eq!(parsed.result.unwrap_err(), ParseError::Stalled { repeat_from: 2 });
    assert_eq!(messages(&parsed.notes), vec![
        "Op: Valname",
        "Error: in consume_token(), invalid token type",
        "unexpected token type of Op",
        "Error: in consume_token(), invalid token type",
    ]);
}

#[test]
fn parser_start_state() {
    let mut p = Parser::new(var_input());
    assert!(!p.is_eof());
    assert_eq!(p.get_token_name(), "Token type not handled ");
    let mut q = Parser::new(vec![]);
    assert!(!q.is_eof());
}

#[test]
fn lexer_answers_in_order() {
    let mut lex = Lexer::new(vec![tok(TokKind::Comma), Lexed::Failure(Location { line_num: 3 })]);
    assert!(matches!(lex.get_next_token(), Lexed::Token(TokKind::Comma, _)));
    assert!(matches!(lex.get_next_token(), Lexed::Failure(Location { line_num: 3 })));
    assert!(matches!(lex.get_next_token(), Lexed::Exhausted));
    assert!(matches!(lex.get_next_token(), Lexed::Exhausted));
}

#[test]
fn mapping_each_kind() {
    let add = mapping_souper_to_cton_isa(Some(Inst { kind: InstKind::Add, lhs: "%5" }));
    assert_eq!(add.valuedef, CtonValueDef::Result);
    assert_eq!(add.kind, CtonInstKind::Binary);
    assert_eq!(add.opcode, CtonOpcode::Iadd);
    assert_eq!(add.lhs, "%5");
    let var = mapping_souper_to_cton_isa(Some(Inst { kind: InstKind::Var, lhs: "%6" }));
    assert_eq!(var.valuedef, CtonValueDef::Param);
    assert_eq!(var.kind, CtonInstKind::Var);
    assert_eq!(var.opcode, CtonOpcode::Var);
    assert_eq!(var.lhs, "%6");
    let sub = mapping_souper_to_cton_isa(Some(Inst { kind: InstKind::Sub, lhs: "%7" }));
    assert_eq!(sub.valuedef, CtonValueDef::Param);
    assert_eq!(sub.opcode, CtonOpcode::Var);
    assert_eq!(sub.lhs, "%7");
    let none = mapping_souper_to_cton_isa(None);
    assert_eq!(none.valuedef, CtonValueDef::Param);
    assert_eq!(none.kind, CtonInstKind::Var);
    assert_eq!(none.lhs, "");
}

#[test]
fn lowering_keeps_order() {
    let insts = vec![
        Some(Inst { kind: InstKind::Var, lhs: "%0" }),
        None,
        Some(Inst { kind: InstKind::Add, lhs: "%2" }),
    ];
    let cton = lowering_souper_isa_to_cton_isa(insts);
    assert_eq!(cton.len(), 3);
    assert_eq!(cton[0].lhs, "%0");
    assert_eq!(cton[1].lhs, "");
    assert_eq!(cton[2].lhs, "%2");
    assert_eq!(cton[2].valuedef, CtonValueDef::Result);
    assert_eq!(cton[0].valuedef, CtonValueDef::Param);
    assert_eq!(lowering_souper_isa_to_cton_isa(vec![]).len(), 0);
}

#[test]
fn cton_names() {
    assert_eq!(getCtonOpCodeName(CtonOpcode::Iadd), "Cton: Iadd");
    assert_eq!(getCtonOpCodeName(CtonOpcode::IaddImm), "Cton: other type yet to be handled");
    assert_eq!(getCtonOpCodeName(CtonOpcode::Var), "Cton: other type yet to be handled");
    assert_eq!(getCtonValDefName(CtonValueDef::Result), "Cton: ValueDef");
    assert_eq!(getCtonValDefName(CtonValueDef::Param), "Cton: Param");
}

#[test]
fn diagnostics_of_each_kind() {
    let input = vec![
        tok(TokKind::Ident("infer")),
        tok(TokKind::ValName("%1")),
        tok(TokKind::Equal),
        tok(TokKind::ValName("%2")),
        tok(TokKind::Equal),
        tok(TokKind::Ident("sub")),
        tok(TokKind::UntypedInt),
        tok(TokKind::Eof),
    ];
    let parsed = parse_insts(input);
    assert_eq!(parsed.result.unwrap().len(), 3);
    assert_eq!(messages(&parsed.notes), vec![
        "Ident type instructions are not yet handled, like infer, cand, result, pc, blockpc",
        "Error: Expected valname -> Eq -> ??? Ident",
        "Op: Untyped Int",
        "Build sub instruction",
    ]);
}

#[test]
fn note_messages() {
    assert_eq!(note_message(ParseNote::OpUntypedInt), "Op: Untyped Int");
    assert_eq!(note_message(ParseNote::NotInstType), "Not a valid inst type");
    assert_eq!(note_message(ParseNote::BuildInst("mul")), "Build mul instruction");
}
