//! Parser for Souper instructions, and their lowering to Cretonne
//! instructions.
//!
//! The parser reads the results that the Souper lexer hands out one call
//! at a time. Those results are held here as plain values ([`Lexed`]): the
//! `n`-th entry is what the `n`-th request for a token returns, and every
//! request past the end finds nothing.
use std::collections::HashMap;
use vstd::prelude::*;
use crate::text::str_eq;

verus! {

/// Kinds of Souper instructions.
#[derive(Clone, Copy, PartialEq, Eq, Structural, Debug)]
pub enum InstKind {
    Var,
    Const,
    UntypedConst,
    Add,
    AddNW,
    AddNSW,
    AddNUW,
    Sub,
    Mul,
    Zext,
    NoneType,
}

/// How a Cretonne value is defined.
#[derive(Clone, Copy, PartialEq, Eq, Structural, Debug)]
pub enum CtonValueDef {
    Result,
    Param,
}

/// Shapes of Cretonne instruction data.
#[derive(Clone, Copy, PartialEq, Eq, Structural, Debug)]
pub enum CtonInstKind {
    Unary,
    UnaryImm,
    Binary,
    BinaryImm,
    Var,
}

/// Cretonne opcodes.
#[derive(Clone, Copy, PartialEq, Eq, Structural, Debug)]
pub enum CtonOpcode {
    Iadd,
    IaddImm,
    Var,
}

/// A parsed Souper instruction: its kind and the name of the value it defines.
#[derive(Clone, Copy, Debug)]
pub struct Inst<'a> {
    pub kind: InstKind,
    pub lhs: &'a str,
}

/// A Cretonne instruction built from a Souper instruction.
#[derive(Clone, Copy, Debug)]
pub struct CtonInst<'a> {
    pub valuedef: CtonValueDef,
    pub kind: CtonInstKind,
    pub opcode: CtonOpcode,
    pub lhs: &'a str,
}

/// The kinds of token that the Souper lexer produces.
/// `Other` stands for any kind that the parser does not tell apart.
#[derive(Clone, Copy, Debug)]
pub enum TokKind<'a> {
    ValName(&'a str),
    Ident(&'a str),
    Comma,
    Equal,
    Int,
    UntypedInt,
    Eof,
    Error,
    Other,
}

/// A position in the source text.
#[derive(Clone, Copy, PartialEq, Eq, Structural, Debug)]
pub struct Location {
    pub line_num: usize,
}

/// One answer of the lexer to a request for the next token.
#[derive(Clone, Copy, Debug)]
pub enum Lexed<'a> {
    /// A token and where it starts.
    Token(TokKind<'a>, Location),
    /// The lexer reported an error at this location.
    Failure(Location),
    /// The lexer had nothing more to hand out.
    Exhausted,
}

/// Why parsing stopped without reaching the end of the input.
#[derive(Clone, Copy, PartialEq, Eq, Structural, Debug)]
pub enum ParseError {
    /// A round of the parser consumed no token. From there on every round
    /// repeats the same steps on the same state, and reports the same
    /// diagnostics (those from position `repeat_from` of the diagnostics
    /// reported so far), so the end of the input is never reached.
    Stalled { repeat_from: usize },
}

/// Diagnostics that the parser reports as it goes.
#[derive(Clone, Copy, Debug)]
pub enum ParseNote<'a> {
    /// The lexer had no token to hand out.
    InvalidToken,
    /// An operand that is a value name.
    OpValName,
    /// An operand that is an integer.
    OpInt,
    /// An operand that is an untyped integer.
    OpUntypedInt,
    /// A token that cannot be an operand.
    UnexpectedOp,
    /// A `var` instruction was built.
    BuildVar,
    /// An instruction with the given name was built.
    BuildInst(&'a str),
    /// The right hand side does not start with an instruction name.
    NotInstType,
    /// A value name is not followed by `=`.
    ExpectedEq,
    /// `=` is not followed by an instruction name.
    ExpectedIdent,
    /// Instructions that start with an identifier are not handled.
    IdentNotHandled,
    /// An instruction starts with neither a value name nor an identifier.
    BadInstStart,
}

/// The text of a diagnostic.
pub open spec fn note_text<'a>(note: ParseNote<'a>) -> Seq<char> {
    match note {
        ParseNote::InvalidToken => "Error: in consume_token(), invalid token type"@,
        ParseNote::OpValName => "Op: Valname"@,
        ParseNote::OpInt => "Op: Int"@,
        ParseNote::OpUntypedInt => "Op: Untyped Int"@,
        ParseNote::UnexpectedOp => "unexpected token type of Op"@,
        ParseNote::BuildVar => "Build Var Instruction"@,
        ParseNote::BuildInst(name) => "Build "@ + name@ + " instruction"@,
        ParseNote::NotInstType => "Not a valid inst type"@,
        ParseNote::ExpectedEq => "Error: Expected ValName -> ???? Eq"@,
        ParseNote::ExpectedIdent => "Error: Expected valname -> Eq -> ??? Ident"@,
        ParseNote::IdentNotHandled => "Ident type instructions are not yet handled, like infer, cand, result, pc, blockpc"@,
        ParseNote::BadInstStart => "Error: Instruction either start with ValName token or Ident token"@,
    }
}

/// The text of a diagnostic.
pub fn note_message<'a>(note: ParseNote<'a>) -> (m: String)
    ensures
        m@ == note_text(note),
{
    match note {
        ParseNote::InvalidToken => String::from_str("Error: in consume_token(), invalid token type"),
        ParseNote::OpValName => String::from_str("Op: Valname"),
        ParseNote::OpInt => String::from_str("Op: Int"),
        ParseNote::OpUntypedInt => String::from_str("Op: Untyped Int"),
        ParseNote::UnexpectedOp => String::from_str("unexpected token type of Op"),
        ParseNote::BuildVar => String::from_str("Build Var Instruction"),
        ParseNote::BuildInst(name) => {
            let mut m = String::from_str("Build ");
            m.append(name);
            m.append(" instruction");
            m
        },
        ParseNote::NotInstType => String::from_str("Not a valid inst type"),
        ParseNote::ExpectedEq => String::from_str("Error: Expected ValName -> ???? Eq"),
        ParseNote::ExpectedIdent => String::from_str("Error: Expected valname -> Eq -> ??? Ident"),
        ParseNote::IdentNotHandled => String::from_str(
            "Ident type instructions are not yet handled, like infer, cand, result, pc, blockpc",
        ),
        ParseNote::BadInstStart => String::from_str(
            "Error: Instruction either start with ValName token or Ident token",
        ),
    }
}

/// The sequence of answers that the lexer gives, and how many have been
/// taken so far.
#[derive(Clone, Debug)]
pub struct Lexer<'a> {
    results: Vec<Lexed<'a>>,
    pos: usize,
}

impl<'a> Lexer<'a> {
    pub closed spec fn results(&self) -> Seq<Lexed<'a>> {
        self.results@
    }

    pub closed spec fn pos(&self) -> int {
        self.pos as int
    }

    /// A lexer whose answers are `results`, in order.
    pub fn new(results: Vec<Lexed<'a>>) -> (lex: Lexer<'a>)
        ensures
            lex.results() == results@,
            lex.pos() == 0,
    {
        Lexer { results, pos: 0 }
    }

    /// The next answer; `Exhausted` once all answers have been taken.
    pub fn get_next_token(&mut self) -> (r: Lexed<'a>)
        ensures
            final(self).results() == old(self).results(),
            0 <= old(self).pos() < old(self).results().len() ==> {
                &&& r == old(self).results()[old(self).pos()]
                &&& final(self).pos() == old(self).pos() + 1
            },
            old(self).pos() >= old(self).results().len() ==> {
                &&& r == Lexed::<'a>::Exhausted
                &&& final(self).pos() == old(self).pos()
            },
    {
        if self.pos < self.results.len() {
            let r = self.results[self.pos];
            self.pos = self.pos + 1;
            r
        } else {
            Lexed::Exhausted
        }
    }
}

/// The state of the parser that its steps read and write.
#[verifier::ext_equal]
pub struct PState<'a> {
    /// How many answers of the lexer have been taken.
    pub pos: int,
    /// The current lookahead token.
    pub lookahead: Option<TokKind<'a>>,
    /// Location of the lookahead.
    pub loc: Location,
    /// Whether the lexer has reported an error.
    pub lex_error: bool,
    /// Name of the value that the current instruction defines.
    pub lhs_valname: &'a str,
    /// The diagnostics reported so far.
    pub notes: Seq<ParseNote<'a>>,
}

/// A round of the parser that consumed no token: the states at its start
/// and at its end.
pub struct Stall<'a> {
    pub start: PState<'a>,
    pub end: PState<'a>,
}

/// The error reported for a stalled round.
pub open spec fn stalled<'a>(st: Stall<'a>) -> ParseError {
    ParseError::Stalled { repeat_from: st.start.notes.len() as usize }
}

/// The state of a parser that has not read any token.
pub open spec fn initial_state<'a>() -> PState<'a> {
    PState {
        pos: 0,
        lookahead: None,
        loc: Location { line_num: 0 },
        lex_error: false,
        lhs_valname: "",
        notes: Seq::empty(),
    }
}

/// `s` with one more diagnostic.
pub open spec fn note<'a>(s: PState<'a>, n: ParseNote<'a>) -> PState<'a> {
    PState {
        pos: s.pos,
        lookahead: s.lookahead,
        loc: s.loc,
        lex_error: s.lex_error,
        lhs_valname: s.lhs_valname,
        notes: s.notes.push(n),
    }
}

/// Taking the next token: nothing changes while the lookahead is an error
/// token; otherwise the lexer is asked for its next answer. A token
/// becomes the lookahead; an error is recorded; where the lexer has
/// nothing, that is reported.
pub open spec fn consume_spec<'a>(toks: Seq<Lexed<'a>>, s: PState<'a>) -> PState<'a> {
    if s.lookahead matches Some(TokKind::Error) {
        s
    } else if 0 <= s.pos < toks.len() {
        match toks[s.pos] {
            Lexed::Token(kind, location) => PState {
                pos: s.pos + 1,
                lookahead: Some(kind),
                loc: location,
                lex_error: s.lex_error,
                lhs_valname: s.lhs_valname,
                notes: s.notes,
            },
            Lexed::Failure(location) => PState {
                pos: s.pos + 1,
                lookahead: s.lookahead,
                loc: location,
                lex_error: true,
                lhs_valname: s.lhs_valname,
                notes: s.notes,
            },
            Lexed::Exhausted => PState {
                pos: s.pos + 1,
                lookahead: s.lookahead,
                loc: s.loc,
                lex_error: s.lex_error,
                lhs_valname: s.lhs_valname,
                notes: s.notes.push(ParseNote::InvalidToken),
            },
        }
    } else {
        note(s, ParseNote::InvalidToken)
    }
}

/// An operand is a value name, a typed or an untyped integer: it is
/// reported and consumed. Anything else is reported and left in place.
pub open spec fn op_spec<'a>(toks: Seq<Lexed<'a>>, s: PState<'a>) -> PState<'a> {
    match s.lookahead {
        Some(TokKind::ValName(_)) => consume_spec(toks, note(s, ParseNote::OpValName)),
        Some(TokKind::Int) => consume_spec(toks, note(s, ParseNote::OpInt)),
        Some(TokKind::UntypedInt) => consume_spec(toks, note(s, ParseNote::OpUntypedInt)),
        _ => note(s, ParseNote::UnexpectedOp),
    }
}

/// One round of an operand list: an operand, and the comma after it where
/// there is one.
pub open spec fn ops_round_spec<'a>(toks: Seq<Lexed<'a>>, s: PState<'a>) -> PState<'a> {
    let s1 = op_spec(toks, s);
    if s1.lookahead matches Some(TokKind::Comma) {
        consume_spec(toks, s1)
    } else {
        s1
    }
}

/// A comma separated list of operands; an error where a round that ends
/// on a comma consumes no token.
pub open spec fn ops_spec<'a>(toks: Seq<Lexed<'a>>, s: PState<'a>) -> Result<PState<'a>, Stall<'a>>
    decreases toks.len() - s.pos,
{
    let s1 = op_spec(toks, s);
    if s1.lookahead matches Some(TokKind::Comma) {
        let s2 = consume_spec(toks, s1);
        if s.pos < s2.pos <= toks.len() {
            ops_spec(toks, s2)
        } else {
            Err(Stall { start: s, end: s2 })
        }
    } else {
        Ok(s1)
    }
}

/// The instruction kind that an instruction name denotes.
pub open spec fn inst_kind_of(name: Seq<char>) -> InstKind {
    if name == "var"@ {
        InstKind::Var
    } else if name == "add"@ {
        InstKind::Add
    } else if name == "mul"@ {
        InstKind::Mul
    } else {
        InstKind::NoneType
    }
}

/// The right hand side of `%x = ...`: `var`, or an instruction name and
/// its operands. The instruction defines the current value name.
pub open spec fn inst_types_spec<'a>(toks: Seq<Lexed<'a>>, s: PState<'a>) -> Result<
    (PState<'a>, Option<Inst<'a>>),
    Stall<'a>,
> {
    match s.lookahead {
        Some(TokKind::Ident(text)) => {
            let kind = inst_kind_of(text@);
            let s1 = consume_spec(toks, s);
            if kind == InstKind::Var {
                Ok((note(s1, ParseNote::BuildVar), Some(Inst { kind: InstKind::Var, lhs: s1.lhs_valname })))
            } else {
                match ops_spec(toks, s1) {
                    Ok(s2) => Ok(
                        (note(s2, ParseNote::BuildInst(text)), Some(Inst { kind: kind, lhs: s2.lhs_valname })),
                    ),
                    Err(st) => Err(st),
                }
            }
        },
        _ => Ok((note(s, ParseNote::NotInstType), None)),
    }
}

/// An instruction that starts with a value name: the name, `=`, and an
/// identifier that starts the right hand side.
pub open spec fn valname_inst_spec<'a>(toks: Seq<Lexed<'a>>, s: PState<'a>) -> Result<
    (PState<'a>, Option<Inst<'a>>),
    Stall<'a>,
> {
    let s1 = consume_spec(toks, s);
    if s1.lookahead matches Some(TokKind::Equal) {
        let s2 = consume_spec(toks, s1);
        if s2.lookahead matches Some(TokKind::Ident(_)) {
            inst_types_spec(toks, s2)
        } else {
            Ok((note(s2, ParseNote::ExpectedIdent), None))
        }
    } else {
        Ok((note(s1, ParseNote::ExpectedEq), None))
    }
}

/// An instruction that starts with an identifier: it is reported as not
/// handled, its first token is skipped and no instruction is built.
pub open spec fn ident_inst_spec<'a>(toks: Seq<Lexed<'a>>, s: PState<'a>) -> Result<
    (PState<'a>, Option<Inst<'a>>),
    Stall<'a>,
> {
    Ok((consume_spec(toks, note(s, ParseNote::IdentNotHandled)), None))
}

/// One instruction, by its first token.
pub open spec fn inst_spec<'a>(toks: Seq<Lexed<'a>>, s: PState<'a>) -> Result<
    (PState<'a>, Option<Inst<'a>>),
    Stall<'a>,
> {
    match s.lookahead {
        Some(TokKind::ValName(lhs)) => valname_inst_spec(
            toks,
            PState {
                pos: s.pos,
                lookahead: s.lookahead,
                loc: s.loc,
                lex_error: s.lex_error,
                lhs_valname: lhs,
                notes: s.notes,
            },
        ),
        Some(TokKind::Ident(_)) => ident_inst_spec(toks, s),
        _ => Ok((note(s, ParseNote::BadInstStart), None)),
    }
}

/// Instructions up to the end of the input, and the state there; an error
/// where a round (one instruction) consumes no token.
pub open spec fn insts_spec<'a>(toks: Seq<Lexed<'a>>, s: PState<'a>) -> Result<
    (Seq<Option<Inst<'a>>>, PState<'a>),
    Stall<'a>,
>
    decreases toks.len() - s.pos,
{
    if s.lookahead matches Some(TokKind::Eof) {
        Ok((Seq::empty(), s))
    } else {
        match inst_spec(toks, s) {
            Err(st) => Err(st),
            Ok((s1, inst)) => if s.pos < s1.pos <= toks.len() {
                match insts_spec(toks, s1) {
                    Ok((rest, last)) => Ok((seq![inst] + rest, last)),
                    Err(st) => Err(st),
                }
            } else {
                Err(Stall { start: s, end: s1 })
            },
        }
    }
}

/// What a whole input parses to: the first token is taken, then
/// instructions are read up to the end of the input.
pub open spec fn parse_spec<'a>(toks: Seq<Lexed<'a>>) -> Result<(Seq<Option<Inst<'a>>>, PState<'a>), Stall<'a>> {
    insts_spec(toks, consume_spec(toks, initial_state()))
}

/// The Cretonne instruction for a Souper instruction: an addition becomes a
/// binary `iadd` result, anything else a parameter; a missing instruction
/// becomes a parameter with an empty name.
pub open spec fn cton_of<'a>(souper_inst: Option<Inst<'a>>) -> CtonInst<'a> {
    match souper_inst {
        Some(inst) => if inst.kind == InstKind::Add {
            CtonInst {
                valuedef: CtonValueDef::Result,
                kind: CtonInstKind::Binary,
                opcode: CtonOpcode::Iadd,
                lhs: inst.lhs,
            }
        } else {
            CtonInst {
                valuedef: CtonValueDef::Param,
                kind: CtonInstKind::Var,
                opcode: CtonOpcode::Var,
                lhs: inst.lhs,
            }
        },
        None => CtonInst {
            valuedef: CtonValueDef::Param,
            kind: CtonInstKind::Var,
            opcode: CtonOpcode::Var,
            lhs: "",
        },
    }
}

/// Lowering a sequence of Souper instructions, one by one, in order.
pub open spec fn lower_spec<'a>(insts: Seq<Option<Inst<'a>>>) -> Seq<CtonInst<'a>> {
    insts.map_values(|i: Option<Inst<'a>>| cton_of(i))
}

/// A recursive descent parser over the answers of the lexer.
#[derive(Clone)]
pub struct Parser<'a> {
    lex: Lexer<'a>,
    /// Current lookahead token.
    lookahead: Option<TokKind<'a>>,
    /// Location of lookahead.
    loc: Location,
    /// Whether the lexer has reported an error.
    lex_error: bool,
    /// Name of the value that the current instruction defines.
    lhs_valname: &'a str,
    /// Value names of instructions and their indices.
    #[allow(non_snake_case)]
    lhsValNames_to_Idx: HashMap<&'a str, u32>,
    /// The diagnostics reported so far.
    notes: Vec<ParseNote<'a>>,
}

/// The contract shared by the parser's steps: the lexer's answers and the
/// table of value names are kept, and the parser stays consistent.
pub open spec fn step_keeps<'a>(before: Parser<'a>, after: Parser<'a>) -> bool {
    &&& after.wf()
    &&& after.tokens() == before.tokens()
    &&& after.value_name_indices() == before.value_name_indices()
}

/// A step's result, where the spec of the step gives `spec`.
pub open spec fn step_result<'a>(
    spec: Result<(PState<'a>, Option<Inst<'a>>), Stall<'a>>,
    after: Parser<'a>,
    r: Result<Option<Inst<'a>>, ParseError>,
) -> bool {
    match spec {
        Ok((s, inst)) => r == Ok::<Option<Inst<'a>>, ParseError>(inst) && after.state() == s,
        Err(st) => r == Err::<Option<Inst<'a>>, ParseError>(stalled(st)) && after.state() == st.end,
    }
}

impl<'a> Parser<'a> {
    /// The answers of the lexer that this parser reads.
    pub closed spec fn tokens(&self) -> Seq<Lexed<'a>> {
        self.lex.results()
    }

    /// The parser's state.
    pub closed spec fn state(&self) -> PState<'a> {
        PState {
            pos: self.lex.pos(),
            lookahead: self.lookahead,
            loc: self.loc,
            lex_error: self.lex_error,
            lhs_valname: self.lhs_valname,
            notes: self.notes@,
        }
    }

    /// The table from value names to their indices.
    pub closed spec fn value_name_indices(&self) -> Map<&'a str, u32> {
        self.lhsValNames_to_Idx@
    }

    /// Whether the parser's internal state is consistent.
    pub closed spec fn wf(&self) -> bool {
        0 <= self.lex.pos() <= self.lex.results().len()
    }

    /// Initialize the parser over the answers of the lexer.
    pub fn new(tokens: Vec<Lexed<'a>>) -> (p: Parser<'a>)
        ensures
            p.wf(),
            p.tokens() == tokens@,
            p.state() == initial_state::<'a>(),
            p.state().pos == 0,
            p.state().lookahead is None,
            p.state().lhs_valname@ == ""@,
            !p.state().lex_error,
            p.state().notes.len() == 0,
            p.value_name_indices() == Map::<&'a str, u32>::empty(),
    {
        let p = Parser {
            lex: Lexer::new(tokens),
            lookahead: None,
            loc: Location { line_num: 0 },
            lex_error: false,
            lhs_valname: "",
            lhsValNames_to_Idx: HashMap::new(),
            notes: Vec::new(),
        };
        proof {
            assert(p.state().notes =~= Seq::<ParseNote<'a>>::empty());
        }
        p
    }

    /// The diagnostics reported so far.
    pub fn notes(&self) -> (n: &Vec<ParseNote<'a>>)
        ensures
            n@ == self.state().notes,
    {
        &self.notes
    }

    /// Reports a diagnostic.
    fn note(&mut self, n: ParseNote<'a>)
        requires
            old(self).wf(),
        ensures
            step_keeps(*old(self), *final(self)),
            final(self).state() == note(old(self).state(), n),
    {
        self.notes.push(n);
    }

    fn create_var(&mut self, instkind: InstKind, instname: &'a str) -> (inst: Inst<'a>)
        ensures
            *final(self) == *old(self),
            inst == (Inst { kind: instkind, lhs: instname }),
    {
        Inst { kind: instkind, lhs: instname }
    }

    fn create_inst(&mut self, instkind: InstKind, instname: &'a str) -> (inst: Inst<'a>)
        ensures
            *final(self) == *old(self),
            inst == (Inst { kind: instkind, lhs: instname }),
    {
        Inst { kind: instkind, lhs: instname }
    }

    /// The instruction kind for the given instruction name.
    fn get_inst_kind(&mut self, name: &str) -> (k: InstKind)
        ensures
            *final(self) == *old(self),
            k == inst_kind_of(name@),
    {
        if str_eq(name, "var") {
            proof { reveal_strlit("var"); }
            InstKind::Var
        } else if str_eq(name, "add") {
            proof { reveal_strlit("add"); }
            InstKind::Add
        } else if str_eq(name, "mul") {
            proof { reveal_strlit("mul"); }
            InstKind::Mul
        } else {
            InstKind::NoneType
        }
    }

    /// The name of the lookahead token's kind.
    pub fn get_token_name(&mut self) -> (name: &'static str)
        ensures
            *final(self) == *old(self),
            name@ == token_name_spec(old(self).state().lookahead),
    {
        match self.lookahead {
            Some(TokKind::ValName(_)) => "ValName ",
            Some(TokKind::Ident(_)) => "Ident ",
            Some(TokKind::Comma) => "Comma ",
            Some(TokKind::Equal) => "Eq ",
            Some(TokKind::Int) => "Int ",
            Some(TokKind::Eof) => "EOF ",
            Some(TokKind::Error) => "Error ",
            Some(TokKind::UntypedInt) => "Untypedint ",
            _ => "Token type not handled ",
        }
    }

    /// Takes the next token and returns the new lookahead.
    fn consume_token(&mut self) -> (t: Option<TokKind<'a>>)
        requires
            old(self).wf(),
        ensures
            step_keeps(*old(self), *final(self)),
            final(self).state() == consume_spec(old(self).tokens(), old(self).state()),
            t == final(self).state().lookahead,
    {
        match self.lookahead {
            Some(TokKind::Error) => {},
            _ => {
                match self.lex.get_next_token() {
                    Lexed::Token(kind, location) => {
                        self.lookahead = Some(kind);
                        self.loc = location;
                    },
                    Lexed::Failure(location) => {
                        self.lex_error = true;
                        self.loc = location;
                    },
                    Lexed::Exhausted => {
                        self.notes.push(ParseNote::InvalidToken);
                    },
                }
            },
        }
        self.lookahead
    }

    /// Whether the lookahead is the end of the input.
    pub fn is_eof(&mut self) -> (b: bool)
        ensures
            *final(self) == *old(self),
            b == (old(self).state().lookahead matches Some(TokKind::Eof)),
    {
        match self.lookahead {
            Some(TokKind::Eof) => true,
            _ => false,
        }
    }

    fn parse_ops(&mut self) -> (r: Result<(), ParseError>)
        requires
            old(self).wf(),
        ensures
            step_keeps(*old(self), *final(self)),
            match ops_spec(old(self).tokens(), old(self).state()) {
                Ok(s) => r is Ok && final(self).state() == s,
                Err(st) => r == Err::<(), ParseError>(stalled(st)) && final(self).state() == st.end,
            },
    {
        let ghost toks = self.tokens();
        let ghost s0 = self.state();
        loop
            invariant
                self.wf(),
                toks == old(self).tokens(),
                s0 == old(self).state(),
                self.tokens() == toks,
                self.value_name_indices() == old(self).value_name_indices(),
                ops_spec(toks, s0) == ops_spec(toks, self.state()),
            decreases toks.len() - self.state().pos,
        {
            let start = self.lex.pos;
            let mark = self.notes.len();
            self.parse_op();
            // parse_op() already consumed the next token, so look for a comma now.
            match self.lookahead {
                Some(TokKind::Comma) => {
                    self.consume_token();
                    if !(start < self.lex.pos) {
                        return Err(ParseError::Stalled { repeat_from: mark });
                    }
                },
                _ => return Ok(()),
            }
        }
    }

    fn parse_op(&mut self)
        requires
            old(self).wf(),
        ensures
            step_keeps(*old(self), *final(self)),
            final(self).state() == op_spec(old(self).tokens(), old(self).state()),
    {
        match self.lookahead {
            Some(TokKind::ValName(_)) => {
                self.note(ParseNote::OpValName);
                self.consume_token();
            },
            Some(TokKind::Int) => {
                self.note(ParseNote::OpInt);
                self.consume_token();
            },
            Some(TokKind::UntypedInt) => {
                self.note(ParseNote::OpUntypedInt);
                self.consume_token();
            },
            _ => {
                self.note(ParseNote::UnexpectedOp);
            },
        }
    }

    fn parse_inst_types(&mut self) -> (r: Result<Option<Inst<'a>>, ParseError>)
        requires
            old(self).wf(),
        ensures
            step_keeps(*old(self), *final(self)),
            step_result(inst_types_spec(old(self).tokens(), old(self).state()), *final(self), r),
    {
        if let Some(TokKind::Ident(text)) = self.lookahead {
            let kind = self.get_inst_kind(text);
            match kind {
                InstKind::Var => {
                    self.consume_token();
                    self.note(ParseNote::BuildVar);
                    let instname = self.lhs_valname;
                    Ok(Some(self.create_var(InstKind::Var, instname)))
                },
                _ => {
                    // Start parsing Ops
                    self.consume_token();
                    self.parse_ops()?;
                    self.note(ParseNote::BuildInst(text));
                    let instname = self.lhs_valname;
                    Ok(Some(self.create_inst(kind, instname)))
                },
            }
        } else {
            self.note(ParseNote::NotInstType);
            Ok(None)
        }
    }

    fn parse_valname_inst(&mut self) -> (r: Result<Option<Inst<'a>>, ParseError>)
        requires
            old(self).wf(),
        ensures
            step_keeps(*old(self), *final(self)),
            step_result(valname_inst_spec(old(self).tokens(), old(self).state()), *final(self), r),
    {
        self.consume_token();
        // Look for Equal token now
        match self.lookahead {
            Some(TokKind::Equal) => {
                self.consume_token();
                // Look for ident tokens like var, add, phi
                match self.lookahead {
                    Some(TokKind::Ident(_)) => self.parse_inst_types(),
                    _ => {
                        self.note(ParseNote::ExpectedIdent);
                        Ok(None)
                    },
                }
            },
            _ => {
                self.note(ParseNote::ExpectedEq);
                Ok(None)
            },
        }
    }

    fn parse_ident_inst(&mut self) -> (r: Result<Option<Inst<'a>>, ParseError>)
        requires
            old(self).wf(),
        ensures
            step_keeps(*old(self), *final(self)),
            step_result(ident_inst_spec(old(self).tokens(), old(self).state()), *final(self), r),
    {
        self.note(ParseNote::IdentNotHandled);
        self.consume_token();
        Ok(None)
    }

    /// Parses one instruction.
    fn parse_inst(&mut self) -> (r: Result<Option<Inst<'a>>, ParseError>)
        requires
            old(self).wf(),
        ensures
            step_keeps(*old(self), *final(self)),
            step_result(inst_spec(old(self).tokens(), old(self).state()), *final(self), r),
    {
        match self.lookahead {
            Some(TokKind::ValName(lhs)) => {
                self.lhs_valname = lhs;
                self.parse_valname_inst()
            },
            Some(TokKind::Ident(_)) => self.parse_ident_inst(),
            _ => {
                self.note(ParseNote::BadInstStart);
                Ok(None)
            },
        }
    }
}

/// The name of a token kind, as the parser reports it.
pub open spec fn token_name_spec<'a>(t: Option<TokKind<'a>>) -> Seq<char> {
    match t {
        Some(TokKind::ValName(_)) => "ValName "@,
        Some(TokKind::Ident(_)) => "Ident "@,
        Some(TokKind::Comma) => "Comma "@,
        Some(TokKind::Equal) => "Eq "@,
        Some(TokKind::Int) => "Int "@,
        Some(TokKind::Eof) => "EOF "@,
        Some(TokKind::Error) => "Error "@,
        Some(TokKind::UntypedInt) => "Untypedint "@,
        _ => "Token type not handled "@,
    }
}

/// The instructions read from an input (or why reading stopped), and the
/// diagnostics reported on the way.
pub struct Parsed<'a, T> {
    pub result: Result<Vec<T>, ParseError>,
    pub notes: Vec<ParseNote<'a>>,
}

/// Parses the instructions of an input, given the lexer's answers for it.
pub fn parse_insts<'a>(tokens: Vec<Lexed<'a>>) -> (r: Parsed<'a, Option<Inst<'a>>>)
    ensures
        match parse_spec(tokens@) {
            Ok((insts, last)) => r.result is Ok && r.result->Ok_0@ == insts && r.notes@ == last.notes,
            Err(st) => r.result == Err::<Vec<Option<Inst<'a>>>, ParseError>(stalled(st)) && r.notes@
                == st.end.notes,
        },
{
    let ghost toks = tokens@;
    let mut p = Parser::new(tokens);
    p.consume_token();
    let mut insts: Vec<Option<Inst<'a>>> = Vec::new();
    let ghost s1 = p.state();
    loop
        invariant
            p.wf(),
            toks == tokens@,
            p.tokens() == toks,
            s1 == consume_spec(toks, initial_state::<'a>()),
            insts_spec(toks, s1) == match insts_spec(toks, p.state()) {
                Ok((rest, last)) => Ok((insts@ + rest, last)),
                Err(st) => Err::<(Seq<Option<Inst<'a>>>, PState<'a>), Stall<'a>>(st),
            },
        decreases toks.len() - p.state().pos,
    {
        match p.lookahead {
            Some(TokKind::Eof) => {
                assert(insts@ + Seq::<Option<Inst<'a>>>::empty() =~= insts@);
                return Parsed { result: Ok(insts), notes: p.notes };
            },
            _ => {
                let start = p.lex.pos;
                let mark = p.notes.len();
                let inst = p.parse_inst();
                match inst {
                    Ok(i) => {
                        if !(start < p.lex.pos) {
                            return Parsed { result: Err(ParseError::Stalled { repeat_from: mark }), notes: p.notes };
                        }
                        let ghost old_insts = insts@;
                        insts.push(i);
                        proof {
                            match insts_spec(toks, p.state()) {
                                Ok((rest, last)) => {
                                    assert(old_insts + (seq![i] + rest) =~= insts@ + rest);
                                },
                                Err(_) => {},
                            }
                        }
                    },
                    Err(e) => return Parsed { result: Err(e), notes: p.notes },
                }
            },
        }
    }
}

/// Parses the instructions of an input and lowers them to Cretonne.
pub fn parse<'a>(tokens: Vec<Lexed<'a>>) -> (r: Parsed<'a, CtonInst<'a>>)
    ensures
        match parse_spec(tokens@) {
            Ok((insts, last)) => r.result is Ok && r.result->Ok_0@ == lower_spec(insts) && r.notes@ == last.notes,
            Err(st) => r.result == Err::<Vec<CtonInst<'a>>, ParseError>(stalled(st)) && r.notes@ == st.end.notes,
        },
{
    let parsed = parse_insts(tokens);
    match parsed.result {
        Ok(insts) => Parsed { result: Ok(lowering_souper_isa_to_cton_isa(insts)), notes: parsed.notes },
        Err(e) => Parsed { result: Err(e), notes: parsed.notes },
    }
}

/// `s` with the diagnostics of the round from `start` to `s` reported once
/// more.
pub open spec fn repeat_round<'a>(start: PState<'a>, s: PState<'a>) -> PState<'a> {
    PState {
        pos: s.pos,
        lookahead: s.lookahead,
        loc: s.loc,
        lex_error: s.lex_error,
        lhs_valname: s.lhs_valname,
        notes: s.notes + s.notes.subrange(start.notes.len() as int, s.notes.len() as int),
    }
}

/// An instruction that starts with the value name `x` defines `x`.
pub proof fn law_inst_defines_its_value_name<'a>(toks: Seq<Lexed<'a>>, s: PState<'a>, x: &'a str)
    requires
        s.lookahead == Some(TokKind::ValName(x)),
    ensures
        match inst_spec(toks, s) {
            Ok((_, Some(inst))) => inst.lhs == x,
            _ => true,
        },
{
    let s0 = PState { pos: s.pos, lookahead: s.lookahead, loc: s.loc, lex_error: s.lex_error, lhs_valname: x, notes: s.notes };
    let s1 = consume_spec(toks, s0);
    let s2 = consume_spec(toks, s1);
    let s3 = consume_spec(toks, s2);
    lemma_ops_keep_value_name(toks, s3);
}

proof fn lemma_ops_keep_value_name<'a>(toks: Seq<Lexed<'a>>, s: PState<'a>)
    ensures
        ops_spec(toks, s) matches Ok(s1) ==> s1.lhs_valname == s.lhs_valname,
    decreases toks.len() - s.pos,
{
    let s1 = op_spec(toks, s);
    if s1.lookahead matches Some(TokKind::Comma) {
        let s2 = consume_spec(toks, s1);
        if s.pos < s2.pos <= toks.len() {
            lemma_ops_keep_value_name(toks, s2);
        }
    }
}

/// A round of the instruction loop that consumes no token ends in a state
/// from which the same round gives the same instruction, the same state
/// and the same diagnostics again: the parser would repeat it forever.
/// This is what [`ParseError::Stalled`] reports.
pub proof fn law_stalled_round_repeats<'a>(toks: Seq<Lexed<'a>>, s: PState<'a>)
    requires
        0 <= s.pos <= toks.len(),
        inst_spec(toks, s) matches Ok((s1, _)) && s1.pos == s.pos,
    ensures
        inst_spec(toks, s) matches Ok((s1, i)) && inst_spec(toks, s1) == Ok::<
            (PState<'a>, Option<Inst<'a>>),
            Stall<'a>,
        >((repeat_round(s, s1), i)),
{
    if let Ok((s1, i)) = inst_spec(toks, s) {
        match s.lookahead {
            Some(TokKind::ValName(x)) => {
                let s0 = PState {
                    pos: s.pos,
                    lookahead: s.lookahead,
                    loc: s.loc,
                    lex_error: s.lex_error,
                    lhs_valname: x,
                    notes: s.notes,
                };
                let c = consume_spec(toks, s0);
                if c.lookahead matches Some(TokKind::Equal) {
                    let c2 = consume_spec(toks, c);
                    if c2.lookahead matches Some(TokKind::Ident(_)) {
                        lemma_ops_move_forward(toks, consume_spec(toks, c2));
                    }
                }
                assert(s1.notes =~= s.notes + seq![ParseNote::InvalidToken, ParseNote::ExpectedEq]);
                assert(repeat_round(s, s1).notes =~= s1.notes + seq![ParseNote::InvalidToken, ParseNote::ExpectedEq]);
            },
            Some(TokKind::Ident(_)) => {
                assert(s1.notes =~= s.notes + seq![ParseNote::IdentNotHandled, ParseNote::InvalidToken]);
                assert(repeat_round(s, s1).notes =~= s1.notes + seq![
                    ParseNote::IdentNotHandled,
                    ParseNote::InvalidToken,
                ]);
            },
            _ => {
                assert(s1.notes =~= s.notes.push(ParseNote::BadInstStart));
                assert(repeat_round(s, s1).notes =~= s1.notes.push(ParseNote::BadInstStart));
            },
        }
        if let Ok((t1, j)) = inst_spec(toks, s1) {
            assert(t1 =~= repeat_round(s, s1));
            assert(j == i);
        }
    }
}

/// A round of an operand list that consumes no token ends on a comma
/// again, and the same round from there gives the same state and the same
/// diagnostics again.
pub proof fn law_stalled_operand_round_repeats<'a>(toks: Seq<Lexed<'a>>, s: PState<'a>)
    requires
        0 <= s.pos <= toks.len(),
        op_spec(toks, s).lookahead matches Some(TokKind::Comma),
        ops_round_spec(toks, s).pos == s.pos,
    ensures
        op_spec(toks, ops_round_spec(toks, s)).lookahead matches Some(TokKind::Comma),
        ops_round_spec(toks, ops_round_spec(toks, s)) == repeat_round(s, ops_round_spec(toks, s)),
{
    let s2 = ops_round_spec(toks, s);
    assert(s2.notes =~= s.notes + seq![ParseNote::UnexpectedOp, ParseNote::InvalidToken]);
    assert(repeat_round(s, s2).notes =~= s2.notes + seq![ParseNote::UnexpectedOp, ParseNote::InvalidToken]);
}

proof fn lemma_ops_move_forward<'a>(toks: Seq<Lexed<'a>>, s: PState<'a>)
    ensures
        ops_spec(toks, s) matches Ok(s1) ==> s1.pos >= s.pos,
    decreases toks.len() - s.pos,
{
    let s1 = op_spec(toks, s);
    if s1.lookahead matches Some(TokKind::Comma) {
        let s2 = consume_spec(toks, s1);
        if s.pos < s2.pos <= toks.len() {
            lemma_ops_move_forward(toks, s2);
        }
    }
}

/// An instruction name denotes an addition exactly when it is `add`, a
/// variable exactly when it is `var`, a multiplication exactly when it is
/// `mul`; every other name denotes no known kind.
pub proof fn law_instruction_names(name: Seq<char>)
    ensures
        (inst_kind_of(name) == InstKind::Add) <==> name == "add"@,
        (inst_kind_of(name) == InstKind::Var) <==> name == "var"@,
        (inst_kind_of(name) == InstKind::Mul) <==> name == "mul"@,
        (inst_kind_of(name) == InstKind::NoneType) <==> (name != "add"@ && name != "var"@ && name != "mul"@),
{
    reveal_strlit("add");
    reveal_strlit("var");
    reveal_strlit("mul");
    assert("add"@[0] != "var"@[0]);
    assert("add"@[0] != "mul"@[0]);
    assert("var"@[0] != "mul"@[0]);
}

/// The instruction built for `%x = name ...` has the kind that the name
/// denotes: an addition only for `add`, a variable only for `var`, a
/// multiplication only for `mul`, and no known kind otherwise.
pub proof fn law_parsed_kind_follows_name<'a>(toks: Seq<Lexed<'a>>, s: PState<'a>, name: &'a str)
    requires
        s.lookahead == Some(TokKind::Ident(name)),
    ensures
        inst_types_spec(toks, s) matches Ok((_, Some(inst))) ==> {
            &&& (inst.kind == InstKind::Add) <==> name@ == "add"@
            &&& (inst.kind == InstKind::Var) <==> name@ == "var"@
            &&& (inst.kind == InstKind::Mul) <==> name@ == "mul"@
            &&& (inst.kind == InstKind::NoneType) <==> (name@ != "add"@ && name@ != "var"@ && name@ != "mul"@)
        },
{
    law_instruction_names(name@);
}

/// An instruction lowers to a binary `iadd` result exactly when it is an
/// addition; every other instruction, and a missing one, lowers to a
/// parameter with kind and opcode `Var`. The name of the defined value is
/// kept, and is empty for a missing instruction.
pub proof fn law_lowering_by_kind<'a>(i: Option<Inst<'a>>)
    ensures
        (cton_of(i).opcode == CtonOpcode::Iadd) <==> (i matches Some(inst) && inst.kind == InstKind::Add),
        (cton_of(i).kind == CtonInstKind::Binary) <==> (i matches Some(inst) && inst.kind == InstKind::Add),
        (cton_of(i).valuedef == CtonValueDef::Result) <==> (i matches Some(inst) && inst.kind == InstKind::Add),
        !(i matches Some(inst) && inst.kind == InstKind::Add) ==> {
            &&& cton_of(i).opcode == CtonOpcode::Var
            &&& cton_of(i).kind == CtonInstKind::Var
            &&& cton_of(i).valuedef == CtonValueDef::Param
        },
        i matches Some(inst) ==> cton_of(i).lhs == inst.lhs,
        i is None ==> cton_of(i).lhs@ == ""@,
{
}

/// What one request for a token does: while the lookahead is an error
/// token, nothing; otherwise the lexer's next answer is taken. A token
/// becomes the lookahead, at its location; a lexer error is recorded at its
/// location and leaves the lookahead; where the lexer has nothing, the
/// lookahead stays and that is reported. The value name and the earlier
/// diagnostics are kept.
pub proof fn law_token_request<'a>(toks: Seq<Lexed<'a>>, s: PState<'a>)
    requires
        0 <= s.pos <= toks.len(),
    ensures
        s.lookahead matches Some(TokKind::Error) ==> consume_spec(toks, s) == s,
        !(s.lookahead matches Some(TokKind::Error)) && s.pos < toks.len() ==> match toks[s.pos] {
            Lexed::Token(kind, location) => {
                &&& consume_spec(toks, s).lookahead == Some(kind)
                &&& consume_spec(toks, s).loc == location
                &&& consume_spec(toks, s).notes == s.notes
                &&& consume_spec(toks, s).lex_error == s.lex_error
            },
            Lexed::Failure(location) => {
                &&& consume_spec(toks, s).lookahead == s.lookahead
                &&& consume_spec(toks, s).loc == location
                &&& consume_spec(toks, s).lex_error
                &&& consume_spec(toks, s).notes == s.notes
            },
            Lexed::Exhausted => {
                &&& consume_spec(toks, s).lookahead == s.lookahead
                &&& consume_spec(toks, s).notes == s.notes.push(ParseNote::InvalidToken)
            },
        },
        !(s.lookahead matches Some(TokKind::Error)) && s.pos < toks.len() ==> consume_spec(toks, s).pos == s.pos + 1,
        !(s.lookahead matches Some(TokKind::Error)) && s.pos == toks.len() ==> {
            &&& consume_spec(toks, s).pos == s.pos
            &&& consume_spec(toks, s).lookahead == s.lookahead
            &&& consume_spec(toks, s).notes == s.notes.push(ParseNote::InvalidToken)
        },
        consume_spec(toks, s).lhs_valname == s.lhs_valname,
{
}

/// An operand step takes exactly one token where the lookahead is a value
/// name, a typed or an untyped integer (and the lexer has an answer left),
/// and none otherwise; it reports exactly one operand diagnostic first.
pub proof fn law_operand_step<'a>(toks: Seq<Lexed<'a>>, s: PState<'a>)
    requires
        0 <= s.pos < toks.len(),
        !(s.lookahead matches Some(TokKind::Error)),
    ensures
        ({
            let operand = s.lookahead matches Some(TokKind::ValName(_)) || s.lookahead matches Some(TokKind::Int)
                || s.lookahead matches Some(TokKind::UntypedInt);
            &&& operand ==> op_spec(toks, s).pos == s.pos + 1
            &&& !operand ==> op_spec(toks, s) == note(s, ParseNote::UnexpectedOp)
            &&& op_spec(toks, s).notes.len() >= s.notes.len() + 1
            &&& op_spec(toks, s).notes.subrange(0, s.notes.len() as int) == s.notes
            &&& s.lookahead matches Some(TokKind::ValName(_)) ==> op_spec(toks, s).notes[s.notes.len() as int]
                == ParseNote::OpValName
            &&& s.lookahead matches Some(TokKind::Int) ==> op_spec(toks, s).notes[s.notes.len() as int]
                == ParseNote::OpInt
            &&& s.lookahead matches Some(TokKind::UntypedInt) ==> op_spec(toks, s).notes[s.notes.len() as int]
                == ParseNote::OpUntypedInt
        }),
{
    let t = op_spec(toks, s);
    assert(t.notes.subrange(0, s.notes.len() as int) =~= s.notes);
}

/// A parse that succeeds stops at the end of the input, and reads at most
/// one instruction per answer of the lexer: every round takes a token.
pub proof fn law_parse_reaches_the_end<'a>(toks: Seq<Lexed<'a>>)
    ensures
        parse_spec(toks) matches Ok((insts, last)) ==> {
            &&& last.lookahead matches Some(TokKind::Eof)
            &&& insts.len() <= toks.len()
        },
{
    let s1 = consume_spec(toks, initial_state());
    lemma_insts_reach_the_end(toks, s1);
}

proof fn lemma_insts_reach_the_end<'a>(toks: Seq<Lexed<'a>>, s: PState<'a>)
    requires
        0 <= s.pos <= toks.len(),
    ensures
        insts_spec(toks, s) matches Ok((insts, last)) ==> {
            &&& last.lookahead matches Some(TokKind::Eof)
            &&& insts.len() <= toks.len() - s.pos
        },
    decreases toks.len() - s.pos,
{
    if !(s.lookahead matches Some(TokKind::Eof)) {
        if let Ok((s1, inst)) = inst_spec(toks, s) {
            if s.pos < s1.pos <= toks.len() {
                lemma_insts_reach_the_end(toks, s1);
            }
        }
    }
}

/// `x` is the name in some value-name token that the lexer hands out.
pub open spec fn value_name_in_input<'a>(toks: Seq<Lexed<'a>>, x: &'a str) -> bool {
    exists|k: int| 0 <= k < toks.len() && (#[trigger] toks[k] matches Lexed::Token(TokKind::ValName(y), _) && y == x)
}

/// A value-name lookahead came from the input.
pub open spec fn lookahead_from_input<'a>(toks: Seq<Lexed<'a>>, s: PState<'a>) -> bool {
    s.lookahead matches Some(TokKind::ValName(x)) ==> value_name_in_input(toks, x)
}

proof fn lemma_consume_keeps_origin<'a>(toks: Seq<Lexed<'a>>, s: PState<'a>)
    requires
        lookahead_from_input(toks, s),
    ensures
        lookahead_from_input(toks, consume_spec(toks, s)),
{
    if !(s.lookahead matches Some(TokKind::Error)) && 0 <= s.pos < toks.len() {
        if let Lexed::Token(TokKind::ValName(x), _) = toks[s.pos] {
            assert(toks[s.pos] matches Lexed::Token(TokKind::ValName(y), _) && y == x);
        }
    }
}

proof fn lemma_ops_keep_origin<'a>(toks: Seq<Lexed<'a>>, s: PState<'a>)
    requires
        lookahead_from_input(toks, s),
    ensures
        ops_spec(toks, s) matches Ok(s1) ==> lookahead_from_input(toks, s1),
    decreases toks.len() - s.pos,
{
    let s1 = op_spec(toks, s);
    lemma_consume_keeps_origin(toks, note(s, ParseNote::OpValName));
    lemma_consume_keeps_origin(toks, note(s, ParseNote::OpInt));
    lemma_consume_keeps_origin(toks, note(s, ParseNote::OpUntypedInt));
    if s1.lookahead matches Some(TokKind::Comma) {
        let s2 = consume_spec(toks, s1);
        lemma_consume_keeps_origin(toks, s1);
        if s.pos < s2.pos <= toks.len() {
            lemma_ops_keep_origin(toks, s2);
        }
    }
}

proof fn lemma_inst_keeps_origin<'a>(toks: Seq<Lexed<'a>>, s: PState<'a>)
    requires
        lookahead_from_input(toks, s),
    ensures
        inst_spec(toks, s) matches Ok((s1, i)) ==> {
            &&& lookahead_from_input(toks, s1)
            &&& i matches Some(inst) ==> value_name_in_input(toks, inst.lhs)
        },
{
    match s.lookahead {
        Some(TokKind::ValName(x)) => {
            law_inst_defines_its_value_name(toks, s, x);
            let s0 = PState { pos: s.pos, lookahead: s.lookahead, loc: s.loc, lex_error: s.lex_error, lhs_valname: x, notes: s.notes };
            let c1 = consume_spec(toks, s0);
            lemma_consume_keeps_origin(toks, s0);
            let c2 = consume_spec(toks, c1);
            lemma_consume_keeps_origin(toks, c1);
            let c3 = consume_spec(toks, c2);
            lemma_consume_keeps_origin(toks, c2);
            lemma_ops_keep_origin(toks, c3);
        },
        Some(TokKind::Ident(_)) => {
            lemma_consume_keeps_origin(toks, note(s, ParseNote::IdentNotHandled));
        },
        _ => {},
    }
}

proof fn lemma_insts_name_input_values<'a>(toks: Seq<Lexed<'a>>, s: PState<'a>)
    requires
        lookahead_from_input(toks, s),
    ensures
        insts_spec(toks, s) matches Ok((insts, _)) ==> forall|j: int|
            0 <= j < insts.len() ==> (#[trigger] insts[j] matches Some(inst) ==> value_name_in_input(toks, inst.lhs)),
    decreases toks.len() - s.pos,
{
    if !(s.lookahead matches Some(TokKind::Eof)) {
        lemma_inst_keeps_origin(toks, s);
        if let Ok((s1, inst)) = inst_spec(toks, s) {
            if s.pos < s1.pos <= toks.len() {
                lemma_insts_name_input_values(toks, s1);
                if let Ok((rest, _)) = insts_spec(toks, s1) {
                    let all = seq![inst] + rest;
                    assert forall|j: int| 0 <= j < all.len() implies (#[trigger] all[j] matches Some(inst) ==> value_name_in_input(toks, inst.lhs)) by {
                        if j > 0 {
                            assert(all[j] == rest[j - 1]);
                        }
                    }
                }
            }
        }
    }
}

/// Every instruction that a parse builds defines a value name that occurs
/// in the input, in a value-name token.
pub proof fn law_parsed_names_come_from_input<'a>(toks: Seq<Lexed<'a>>)
    ensures
        parse_spec(toks) matches Ok((insts, _)) ==> forall|j: int|
            0 <= j < insts.len() ==> (#[trigger] insts[j] matches Some(inst) ==> value_name_in_input(toks, inst.lhs)),
{
    let s0 = initial_state::<'a>();
    lemma_consume_keeps_origin(toks, s0);
    lemma_insts_name_input_values(toks, consume_spec(toks, s0));
}

/// An instruction is built only from input of the shape `%x = name ...`:
/// the lookahead is the value name `%x`, which the instruction defines, the
/// lexer's next answer is `=` and the one after it is the instruction name,
/// whose kind the instruction has.
pub proof fn law_instruction_shape<'a>(toks: Seq<Lexed<'a>>, s: PState<'a>)
    requires
        0 <= s.pos <= toks.len(),
    ensures
        inst_spec(toks, s) matches Ok((_, Some(inst))) ==> {
            &&& s.lookahead == Some(TokKind::ValName(inst.lhs))
            &&& s.pos + 2 <= toks.len()
            &&& toks[s.pos] matches Lexed::Token(TokKind::Equal, _)
            &&& (toks[s.pos + 1] matches Lexed::Token(TokKind::Ident(name), _) && {
                &&& (inst.kind == InstKind::Add) <==> name@ == "add"@
                &&& (inst.kind == InstKind::Var) <==> name@ == "var"@
                &&& (inst.kind == InstKind::Mul) <==> name@ == "mul"@
            })
        },
{
    if let Some(TokKind::ValName(x)) = s.lookahead {
        law_inst_defines_its_value_name(toks, s, x);
        let s0 = PState { pos: s.pos, lookahead: s.lookahead, loc: s.loc, lex_error: s.lex_error, lhs_valname: x, notes: s.notes };
        let c1 = consume_spec(toks, s0);
        if c1.lookahead matches Some(TokKind::Equal) {
            let c2 = consume_spec(toks, c1);
            if let Some(TokKind::Ident(name)) = c2.lookahead {
                law_parsed_kind_follows_name(toks, c2, name);
            }
        }
    }
}

/// An operand list ends on a token that is not a comma, and never moves
/// back in the lexer's answers.
pub proof fn law_operands_end_without_comma<'a>(toks: Seq<Lexed<'a>>, s: PState<'a>)
    ensures
        ops_spec(toks, s) matches Ok(s1) ==> !(s1.lookahead matches Some(TokKind::Comma)) && s1.pos >= s.pos,
    decreases toks.len() - s.pos,
{
    lemma_ops_move_forward(toks, s);
    let s1 = op_spec(toks, s);
    if s1.lookahead matches Some(TokKind::Comma) {
        let s2 = consume_spec(toks, s1);
        if s.pos < s2.pos <= toks.len() {
            law_operands_end_without_comma(toks, s2);
        }
    }
}

/// An instruction that starts with an identifier builds nothing, takes
/// one token and reports that such instructions are not handled.
pub proof fn law_identifier_instruction<'a>(toks: Seq<Lexed<'a>>, s: PState<'a>, name: &'a str)
    requires
        0 <= s.pos < toks.len(),
        s.lookahead == Some(TokKind::Ident(name)),
    ensures
        inst_spec(toks, s) matches Ok((s1, i)) && i is None && s1.pos == s.pos + 1 && s1.notes.len() >= s.notes.len() + 1
            && s1.notes[s.notes.len() as int] == ParseNote::IdentNotHandled,
{
}

/// Taking a token never moves back in the lexer's answers, nor past them.
pub proof fn law_consume_moves_forward<'a>(toks: Seq<Lexed<'a>>, s: PState<'a>)
    requires
        0 <= s.pos <= toks.len(),
    ensures
        s.pos <= consume_spec(toks, s).pos <= toks.len(),
        consume_spec(toks, s).pos <= s.pos + 1,
        consume_spec(toks, s).lhs_valname == s.lhs_valname,
{
}

/// Lowering keeps the number and the order of the instructions: lowering a
/// concatenation is the concatenation of the lowerings.
pub proof fn law_lowering_is_elementwise<'a>(a: Seq<Option<Inst<'a>>>, b: Seq<Option<Inst<'a>>>)
    ensures
        lower_spec(a + b) == lower_spec(a) + lower_spec(b),
        lower_spec(a).len() == a.len(),
{
    assert(lower_spec(a + b) =~= lower_spec(a) + lower_spec(b));
}

/// A lowered instruction is a result exactly where it comes from an
/// addition, and it keeps the name of the value it defines.
pub proof fn law_only_additions_become_results<'a>(insts: Seq<Option<Inst<'a>>>, i: int)
    requires
        0 <= i < insts.len(),
    ensures
        (lower_spec(insts)[i].valuedef == CtonValueDef::Result) <==> (insts[i] matches Some(inst)
            && inst.kind == InstKind::Add),
        (lower_spec(insts)[i].opcode == CtonOpcode::Iadd) <==> (insts[i] matches Some(inst) && inst.kind
            == InstKind::Add),
        (lower_spec(insts)[i].kind == CtonInstKind::Binary) <==> (insts[i] matches Some(inst) && inst.kind
            == InstKind::Add),
        insts[i] matches Some(inst) ==> lower_spec(insts)[i].lhs == inst.lhs,
        insts[i] is None ==> lower_spec(insts)[i].lhs@ == ""@,
        lower_spec(insts).len() == insts.len(),
{
    law_lowering_by_kind(insts[i]);
}

/// The message that names a Cretonne opcode.
#[allow(non_snake_case)]
pub fn getCtonOpCodeName(opcode: CtonOpcode) -> (msg: &'static str)
    ensures
        msg@ == (if opcode == CtonOpcode::Iadd { "Cton: Iadd"@ } else { "Cton: other type yet to be handled"@ }),
{
    match opcode {
        CtonOpcode::Iadd => "Cton: Iadd",
        _ => "Cton: other type yet to be handled",
    }
}

/// The message that names a Cretonne value definition.
#[allow(non_snake_case)]
pub fn getCtonValDefName(vdef: CtonValueDef) -> (msg: &'static str)
    ensures
        msg@ == (if vdef == CtonValueDef::Result { "Cton: ValueDef"@ } else { "Cton: Param"@ }),
{
    match vdef {
        CtonValueDef::Result => "Cton: ValueDef",
        CtonValueDef::Param => "Cton: Param",
    }
}

/// The Cretonne instruction for a Souper instruction.
pub fn mapping_souper_to_cton_isa<'a>(souper_inst: Option<Inst<'a>>) -> (c: CtonInst<'a>)
    ensures
        c == cton_of(souper_inst),
{
    match souper_inst {
        Some(Inst { kind, lhs }) => {
            match kind {
                InstKind::Add => CtonInst {
                    valuedef: CtonValueDef::Result,
                    kind: CtonInstKind::Binary,
                    opcode: CtonOpcode::Iadd,
                    lhs: lhs,
                },
                InstKind::Var => CtonInst {
                    valuedef: CtonValueDef::Param,
                    kind: CtonInstKind::Var,
                    opcode: CtonOpcode::Var,
                    lhs: lhs,
                },
                _ => CtonInst {
                    valuedef: CtonValueDef::Param,
                    kind: CtonInstKind::Var,
                    opcode: CtonOpcode::Var,
                    lhs: lhs,
                },
            }
        },
        _ => CtonInst {
            valuedef: CtonValueDef::Param,
            kind: CtonInstKind::Var,
            opcode: CtonOpcode::Var,
            lhs: "",
        },
    }
}

/// Lowers each Souper instruction to its Cretonne instruction, in order.
pub fn lowering_souper_isa_to_cton_isa<'a>(souper_insts: Vec<Option<Inst<'a>>>) -> (r: Vec<CtonInst<'a>>)
    ensures
        r@ == lower_spec(souper_insts@),
{
    let mut cton_insts: Vec<CtonInst<'a>> = Vec::new();
    let n = souper_insts.len();
    let mut i: usize = 0;
    while i < n
        invariant
            n == souper_insts@.len(),
            0 <= i <= n,
            cton_insts@ =~= lower_spec(souper_insts@.take(i as int)),
        decreases n - i,
    {
        let cton_inst = mapping_souper_to_cton_isa(souper_insts[i]);
        cton_insts.push(cton_inst);
        assert(souper_insts@.take(i + 1) =~= souper_insts@.take(i as int).push(souper_insts@[i as int]));
        i = i + 1;
    }
    assert(souper_insts@.take(n as int) =~= souper_insts@);
    cton_insts
}

} // verus!
