//! Recursive-descent parser: wraps a tokenizer, keeps a two-token lookahead
//! window, and assembles `let` and `return` statements into a program.
//!
//! The mathematical model is a small-step state `ParseState` — the source
//! text, the tokenizer cursor and the two lookahead token values — together
//! with spec functions (`parse_program_at`, `parse_statement_at`, ...) that
//! mirror each parsing operation.  Every `Parser` method is proved to follow
//! its spec function exactly, so `parse_program`'s result and error list are
//! pinned down for every input.

use vstd::prelude::*;
use crate::ast::IdentV;
use crate::ast::LetV;
use crate::ast::Program;
use crate::ast::RetV;
use crate::ast::Statements;
use crate::ast::StmtV;
use crate::ast::Identifier;
use crate::ast::LetStatement;
use crate::ast::ReturnStatement;
use crate::lexer::Lexer;
use crate::lexer::Token;
use crate::lexer::TokenKind;
use crate::lexer::TokenV;
use crate::lexer::lemma_next_token_at_bounds;
use crate::lexer::next_token_at;
use crate::lexer::token_kind;
use crate::lexer::token_name;

verus! {

/// The parser's mathematical state: the source, the tokenizer cursor, and
/// the current and lookahead token values.
pub struct ParseState {
    pub src: Seq<char>,
    pub pos: int,
    pub curr: TokenV,
    pub peek: TokenV,
}

/// The cursor stays within the source text.
pub open spec fn wf_state(st: ParseState) -> bool {
    0 <= st.pos <= st.src.len()
}

/// Shifting the lookahead window: the lookahead becomes current and the
/// tokenizer produces one more token.
pub open spec fn advance_state(st: ParseState) -> ParseState {
    ParseState {
        src: st.src,
        pos: next_token_at(st.src, st.pos).1,
        curr: st.peek,
        peek: next_token_at(st.src, st.pos).0,
    }
}

/// A termination measure for parsing: advancing shrinks it as long as the
/// current token is not end-of-stream.
pub open spec fn state_fuel(st: ParseState) -> int {
    2 * (st.src.len() - st.pos) + (if st.curr is EOF {
        0int
    } else {
        1int
    }) + (if st.peek is EOF {
        0int
    } else {
        1int
    })
}

/// Advancing never grows the fuel, and strictly shrinks it unless the
/// current token is end-of-stream.
pub proof fn lemma_advance_state(st: ParseState)
    requires
        wf_state(st),
    ensures
        wf_state(advance_state(st)),
        state_fuel(advance_state(st)) <= state_fuel(st),
        !(st.curr is EOF) ==> state_fuel(advance_state(st)) < state_fuel(st),
{
    lemma_next_token_at_bounds(st.src, st.pos);
}

/// The error message recorded when the lookahead has the wrong shape.
pub open spec fn expect_msg(expected: TokenV, found: TokenV) -> Seq<char> {
    "Expected "@ + token_name(expected) + " but found "@ + token_name(found)
}

/// The state after discarding tokens up to and including the next statement
/// terminator (or up to end-of-stream when no terminator follows).
pub open spec fn skip_to_semicolon(st: ParseState) -> ParseState
    decreases state_fuel(st),
    when wf_state(st)
    via skip_to_semicolon_decreases
{
    if st.curr is SEMICOLON || st.curr is EOF {
        st
    } else {
        skip_to_semicolon(advance_state(st))
    }
}

#[via_fn]
proof fn skip_to_semicolon_decreases(st: ParseState) {
    if !(st.curr is SEMICOLON || st.curr is EOF) {
        lemma_advance_state(st);
    }
}

/// Skipping to the terminator preserves well-formedness and the source, and
/// never grows the fuel.
pub proof fn lemma_skip_to_semicolon(st: ParseState)
    requires
        wf_state(st),
    ensures
        wf_state(skip_to_semicolon(st)),
        skip_to_semicolon(st).src == st.src,
        state_fuel(skip_to_semicolon(st)) <= state_fuel(st),
    decreases state_fuel(st),
{
    if !(st.curr is SEMICOLON || st.curr is EOF) {
        lemma_advance_state(st);
        lemma_skip_to_semicolon(advance_state(st));
    }
}

/// One `let` statement parse: the produced statement (if any), the recorded
/// error messages, and the state left behind.  Requires an identifier and
/// then an assignment in the lookahead; the bound value is skipped up to the
/// terminator, since expression parsing is not implemented.
pub open spec fn parse_let_at(st: ParseState) -> (Option<StmtV>, Seq<Seq<char>>, ParseState) {
    if !(st.peek is IDENT) {
        (None, seq![expect_msg(TokenV::IDENT(Seq::empty()), st.peek)], st)
    } else {
        let w = st.peek->IDENT_0;
        let st1 = advance_state(st);
        if !(st1.peek is ASSIGN) {
            (None, seq![expect_msg(TokenV::ASSIGN, st1.peek)], st1)
        } else {
            let st2 = advance_state(st1);
            let st3 = skip_to_semicolon(st2);
            (
                Some(
                    StmtV::LetNode(
                        LetV {
                            token: TokenV::LET,
                            name: Some(IdentV { token: TokenV::IDENT(w), value: w }),
                            value: None,
                        },
                    ),
                ),
                Seq::empty(),
                st3,
            )
        }
    }
}

/// One `return` statement parse: the returned value is skipped up to the
/// terminator, since expression parsing is not implemented.
pub open spec fn parse_return_at(st: ParseState) -> (Option<StmtV>, Seq<Seq<char>>, ParseState) {
    let st1 = advance_state(st);
    let st2 = skip_to_semicolon(st1);
    (
        Some(StmtV::ReturnNode(RetV { token: TokenV::RETURN, return_value: None })),
        Seq::empty(),
        st2,
    )
}

/// One statement parse, dispatching on the current token.  A token that
/// introduces no statement is silently skipped: no statement and no error.
pub open spec fn parse_statement_at(st: ParseState) -> (Option<StmtV>, Seq<Seq<char>>, ParseState) {
    if st.curr is LET {
        parse_let_at(st)
    } else if st.curr is RETURN {
        parse_return_at(st)
    } else {
        (None, Seq::empty(), st)
    }
}

/// A statement parse preserves well-formedness and the source and never
/// grows the fuel; advancing afterwards strictly shrinks it whenever the
/// current token was not end-of-stream.
pub proof fn lemma_parse_statement_at(st: ParseState)
    requires
        wf_state(st),
    ensures
        wf_state(parse_statement_at(st).2),
        parse_statement_at(st).2.src == st.src,
        state_fuel(parse_statement_at(st).2) <= state_fuel(st),
        !(st.curr is EOF) ==> state_fuel(advance_state(parse_statement_at(st).2)) < state_fuel(st),
{
    if st.curr is LET {
        if st.peek is IDENT {
            lemma_advance_state(st);
            let st1 = advance_state(st);
            if st1.peek is ASSIGN {
                lemma_advance_state(st1);
                let st2 = advance_state(st1);
                lemma_skip_to_semicolon(st2);
                lemma_advance_state(skip_to_semicolon(st2));
            } else {
                lemma_advance_state(st1);
            }
        } else {
            lemma_advance_state(st);
        }
    } else if st.curr is RETURN {
        lemma_advance_state(st);
        let st1 = advance_state(st);
        lemma_skip_to_semicolon(st1);
        lemma_advance_state(skip_to_semicolon(st1));
    } else {
        if !(st.curr is EOF) {
            lemma_advance_state(st);
        }
    }
}

/// A whole-program parse from a state: the statements produced and the
/// errors recorded, one statement per iteration until the current token is
/// end-of-stream.
pub open spec fn parse_program_at(st: ParseState) -> (Seq<StmtV>, Seq<Seq<char>>)
    decreases state_fuel(st),
    when wf_state(st)
    via parse_program_at_decreases
{
    if st.curr is EOF {
        (Seq::empty(), Seq::empty())
    } else {
        let r = parse_statement_at(st);
        let st2 = advance_state(r.2);
        let rest = parse_program_at(st2);
        (
            match r.0 {
                Some(v) => seq![v] + rest.0,
                None => rest.0,
            },
            r.1 + rest.1,
        )
    }
}

#[via_fn]
proof fn parse_program_at_decreases(st: ParseState) {
    if !(st.curr is EOF) {
        lemma_parse_statement_at(st);
        lemma_advance_state(parse_statement_at(st).2);
    }
}

/// The state a parser primed from tokenizer position `pos` starts in: both
/// lookahead slots filled by advancing twice.
pub open spec fn start_state(s: Seq<char>, pos: int) -> ParseState {
    advance_state(advance_state(ParseState { src: s, pos: pos, curr: TokenV::EOF, peek: TokenV::EOF }))
}

/// The state a parser over a fresh tokenizer starts in.
pub open spec fn initial_state(s: Seq<char>) -> ParseState {
    start_state(s, 0)
}

/// The error list rendered as one string, messages separated by spaces.
pub open spec fn joined_errors(es: Seq<Seq<char>>) -> Seq<char>
    decreases es.len(),
{
    if es.len() == 0 {
        Seq::empty()
    } else {
        joined_errors(es.drop_last()) + (if es.len() == 1 {
            Seq::<char>::empty()
        } else {
            " "@
        }) + es.last()
    }
}

/// Consumes tokens from an owned tokenizer and produces either a complete
/// program or none, plus a list of error messages.
pub struct Parser {
    pub lexer: Lexer,
    pub curr_token: Token,
    pub peek_token: Token,
    pub errors: Vec<String>,
}

impl Parser {
    /// This parser's mathematical state.
    pub open spec fn st(self) -> ParseState {
        ParseState {
            src: self.lexer.input@,
            pos: self.lexer.position as int,
            curr: self.curr_token@,
            peek: self.peek_token@,
        }
    }

    pub open spec fn wf(self) -> bool {
        self.lexer.wf()
    }

    /// Wraps a tokenizer and primes both lookahead slots, so the first real
    /// token is current before parsing begins.
    pub fn new(lexer: Lexer) -> (p: Parser)
        requires
            lexer.wf(),
        ensures
            p.wf(),
            p.errors@.len() == 0,
            p.st() == start_state(lexer.input@, lexer.position as int),
            lexer.position == 0 ==> p.st() == initial_state(lexer.input@),
    {
        let mut parser = Parser {
            lexer,
            curr_token: Token::EOF,
            peek_token: Token::EOF,
            errors: Vec::new(),
        };
        parser.next_token();
        parser.next_token();
        parser
    }

    /// Records an error: the lookahead did not have the expected shape.
    pub fn peek_error(&mut self, expected: Token)
        ensures
            final(self).lexer == old(self).lexer,
            final(self).curr_token == old(self).curr_token,
            final(self).peek_token == old(self).peek_token,
            final(self).errors.deep_view() == old(self).errors.deep_view().push(
                expect_msg(expected@, old(self).peek_token@),
            ),
    {
        let msg = String::from_str("Expected ").concat(expected.name().as_str()).concat(
            " but found ",
        ).concat(self.peek_token.name().as_str());
        self.errors.push(msg);
        proof {
            assert(self.errors.deep_view() =~= old(self).errors.deep_view().push(
                expect_msg(expected@, old(self).peek_token@),
            ));
        }
    }

    /// Whether any syntax error has been recorded.
    pub fn has_error(&self) -> (b: bool)
        ensures
            b == (self.errors@.len() > 0),
    {
        !self.errors.is_empty()
    }

    /// All recorded errors as one string, messages separated by spaces.
    pub fn get_errors(&self) -> (s: String)
        ensures
            s@ == joined_errors(self.errors.deep_view()),
    {
        let mut out = String::new();
        let mut i: usize = 0;
        while i < self.errors.len()
            invariant
                0 <= i <= self.errors@.len(),
                out@ == joined_errors(self.errors.deep_view().take(i as int)),
            decreases self.errors@.len() - i,
        {
            if i > 0 {
                out.append(" ");
            }
            out.append(self.errors[i].as_str());
            proof {
                assert(self.errors.deep_view().take(i + 1).drop_last() =~= self.errors.deep_view()
                    .take(i as int));
                assert(self.errors.deep_view().take(i + 1).last() == self.errors@[i as int]@);
            }
            i = i + 1;
        }
        proof {
            assert(self.errors.deep_view().take(self.errors@.len() as int) =~= self.errors
                .deep_view());
        }
        out
    }

    /// Shifts the lookahead window: the lookahead becomes current and the
    /// tokenizer produces one more token.
    pub fn next_token(&mut self)
        requires
            old(self).wf(),
        ensures
            final(self).wf(),
            final(self).st() == advance_state(old(self).st()),
            final(self).errors == old(self).errors,
    {
        self.curr_token = self.peek_token.clone();
        self.peek_token = self.lexer.next_token();
    }

    /// Checks whether the lookahead matches the shape of `expected`
    /// (ignoring any carried payload).  On match, advances and reports
    /// success; on mismatch, records an error and stays put.
    pub fn peek_token(&mut self, expected: Token) -> (b: bool)
        requires
            old(self).wf(),
        ensures
            final(self).wf(),
            b == (token_kind(old(self).peek_token@) == token_kind(expected@)),
            b ==> final(self).st() == advance_state(old(self).st()) && final(self).errors == old(
                self,
            ).errors,
            !b ==> final(self).st() == old(self).st() && final(self).errors.deep_view() == old(
                self,
            ).errors.deep_view().push(expect_msg(expected@, old(self).peek_token@)),
    {
        if self.peek_token.kind() == expected.kind() {
            self.next_token();
            true
        } else {
            self.peek_error(expected);
            false
        }
    }

    /// Parses one statement, dispatching on the current token; a token that
    /// introduces no statement yields nothing.
    pub fn parse_statment(&mut self) -> (r: Option<Statements>)
        requires
            old(self).wf(),
        ensures
            final(self).wf(),
            final(self).st() == parse_statement_at(old(self).st()).2,
            final(self).errors.deep_view() == old(self).errors.deep_view() + parse_statement_at(
                old(self).st(),
            ).1,
            (match r {
                Some(stm) => parse_statement_at(old(self).st()).0 == Some(stm@),
                None => parse_statement_at(old(self).st()).0 is None,
            }),
    {
        match self.curr_token {
            Token::LET => self.parse_let_statement(),
            Token::RETURN => self.parse_return_statement(),
            _ => {
                proof {
                    assert(self.errors.deep_view() + Seq::<Seq<char>>::empty() =~= self.errors
                        .deep_view());
                }
                None
            },
        }
    }

    /// Parses a `let` statement: requires an identifier and then the
    /// assignment operator in the lookahead, then discards tokens up to the
    /// statement terminator, since expression parsing is not implemented.
    pub fn parse_let_statement(&mut self) -> (r: Option<Statements>)
        requires
            old(self).wf(),
        ensures
            final(self).wf(),
            final(self).st() == parse_let_at(old(self).st()).2,
            final(self).errors.deep_view() == old(self).errors.deep_view() + parse_let_at(
                old(self).st(),
            ).1,
            (match r {
                Some(stm) => parse_let_at(old(self).st()).0 == Some(stm@),
                None => parse_let_at(old(self).st()).0 is None,
            }),
    {
        let ghost st0 = self.st();
        if !self.peek_token(Token::IDENT(String::new())) {
            proof {
                assert(self.errors.deep_view() =~= old(self).errors.deep_view() + seq![
                    expect_msg(TokenV::IDENT(Seq::empty()), st0.peek),
                ]);
            }
            return None;
        }
        let ident = match Identifier::new(&self.curr_token) {
            Some(ident) => ident,
            None => {
                return None;
            },
        };
        let stm = LetStatement::new(Token::LET, ident);
        if !self.peek_token(Token::ASSIGN) {
            proof {
                assert(self.errors.deep_view() =~= old(self).errors.deep_view() + seq![
                    expect_msg(TokenV::ASSIGN, advance_state(st0).peek),
                ]);
            }
            return None;
        }
        let ghost st2 = self.st();
        while self.curr_token.kind() != TokenKind::SEMICOLON && self.curr_token.kind()
            != TokenKind::EOF
            invariant
                self.wf(),
                wf_state(self.st()),
                skip_to_semicolon(self.st()) == skip_to_semicolon(st2),
                self.errors == old(self).errors,
            decreases state_fuel(self.st()),
        {
            proof {
                lemma_advance_state(self.st());
            }
            self.next_token();
        }
        proof {
            assert(self.errors.deep_view() + Seq::<Seq<char>>::empty() =~= self.errors.deep_view());
        }
        Some(Statements::LetNode(stm))
    }

    /// Parses a `return` statement: advances past `return`, then discards
    /// tokens up to the statement terminator, since expression parsing is
    /// not implemented.
    pub fn parse_return_statement(&mut self) -> (r: Option<Statements>)
        requires
            old(self).wf(),
        ensures
            final(self).wf(),
            final(self).st() == parse_return_at(old(self).st()).2,
            final(self).errors.deep_view() == old(self).errors.deep_view() + parse_return_at(
                old(self).st(),
            ).1,
            (match r {
                Some(stm) => parse_return_at(old(self).st()).0 == Some(stm@),
                None => parse_return_at(old(self).st()).0 is None,
            }),
    {
        let stm = ReturnStatement::new(Token::RETURN);
        self.next_token();
        let ghost st1 = self.st();
        while self.curr_token.kind() != TokenKind::SEMICOLON && self.curr_token.kind()
            != TokenKind::EOF
            invariant
                self.wf(),
                wf_state(self.st()),
                skip_to_semicolon(self.st()) == skip_to_semicolon(st1),
                self.errors == old(self).errors,
            decreases state_fuel(self.st()),
        {
            proof {
                lemma_advance_state(self.st());
            }
            self.next_token();
        }
        proof {
            assert(self.errors.deep_view() + Seq::<Seq<char>>::empty() =~= self.errors.deep_view());
        }
        Some(Statements::ReturnNode(stm))
    }

    /// Parses statements until end-of-stream.  When any syntax error was
    /// recorded the whole parse fails and the statement list is discarded;
    /// otherwise the complete program is returned.
    pub fn parse_program(&mut self) -> (res: Option<Program>)
        requires
            old(self).wf(),
        ensures
            final(self).wf(),
            final(self).errors.deep_view() == old(self).errors.deep_view() + parse_program_at(
                old(self).st(),
            ).1,
            (match res {
                Some(prog) => final(self).errors@.len() == 0 && prog@ == parse_program_at(
                    old(self).st(),
                ).0,
                None => final(self).errors@.len() > 0,
            }),
    {
        let mut program = Program::new();
        let ghost st0 = self.st();
        let ghost base = self.errors.deep_view();
        while self.curr_token.kind() != TokenKind::EOF
            invariant
                self.wf(),
                wf_state(self.st()),
                parse_program_at(st0).0 == program@ + parse_program_at(self.st()).0,
                base + parse_program_at(st0).1 == self.errors.deep_view() + parse_program_at(
                    self.st(),
                ).1,
            decreases state_fuel(self.st()),
        {
            let ghost stc = self.st();
            let ghost prog0 = program@;
            let ghost errs0 = self.errors.deep_view();
            proof {
                lemma_parse_statement_at(stc);
                lemma_advance_state(parse_statement_at(stc).2);
            }
            let r = self.parse_statment();
            let ghost sv = parse_statement_at(stc).0;
            let ghost es = parse_statement_at(stc).1;
            let ghost st2 = advance_state(parse_statement_at(stc).2);
            if let Some(stm) = r {
                program.statements.push(stm);
                proof {
                    assert(program@ =~= prog0.push(stm@));
                    assert(prog0 + (seq![stm@] + parse_program_at(st2).0) =~= program@
                        + parse_program_at(st2).0);
                }
            }
            self.next_token();
            proof {
                assert((errs0 + es) + parse_program_at(st2).1 =~= errs0 + (es + parse_program_at(
                    st2,
                ).1));
            }
        }
        proof {
            assert(program@ + Seq::<StmtV>::empty() =~= program@);
            assert(self.errors.deep_view() + Seq::<Seq<char>>::empty() =~= self.errors.deep_view());
        }
        if self.has_error() {
            return None;
        }
        Some(program)
    }
}

} // verus!
