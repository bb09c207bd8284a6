//! Abstract syntax tree: expressions, statements and the program root.
//!
//! Each node type has a mathematical view (`IdentV`, `StmtV`, ...) over
//! token values and character sequences; the parser's contracts speak of
//! those views.

use vstd::prelude::*;
use crate::lexer::Token;
use crate::lexer::TokenV;

verus! {

/// The mathematical value of an identifier node.
pub struct IdentV {
    pub token: TokenV,
    pub value: Seq<char>,
}

/// The mathematical value of an expression node.
pub enum ExprV {
    Identifier(IdentV),
}

/// The mathematical value of a `let` statement.
pub struct LetV {
    pub token: TokenV,
    pub name: Option<IdentV>,
    pub value: Option<ExprV>,
}

/// The mathematical value of a `return` statement.
pub struct RetV {
    pub token: TokenV,
    pub return_value: Option<ExprV>,
}

/// The mathematical value of a statement node.
pub enum StmtV {
    LetNode(LetV),
    ReturnNode(RetV),
}

/// An AST node: every node records the token that introduced it.
pub trait Node {
    /// The introducing token, at the specification level.
    spec fn spec_token_literal(&self) -> TokenV;

    /// The token that introduced this node.
    fn token_literal(&self) -> (t: Token)
        ensures
            t@ == self.spec_token_literal(),
    ;
}

/// An identifier expression: the literal name text, duplicated from the
/// token for convenience.
#[derive(Clone, Debug, PartialEq)]
pub struct Identifier {
    pub token: Token,
    pub value: String,
}

impl View for Identifier {
    type V = IdentV;

    open spec fn view(&self) -> IdentV {
        IdentV { token: self.token@, value: self.value@ }
    }
}

impl Identifier {
    /// Builds an identifier node from an identifier token; any other token
    /// yields nothing.
    pub fn new(tok: &Token) -> (r: Option<Identifier>)
        ensures
            (tok@ is IDENT) <==> (r is Some),
            tok@ matches TokenV::IDENT(w) ==> r matches Some(id) && id@ == (IdentV {
                token: tok@,
                value: w,
            }),
    {
        match tok {
            Token::IDENT(ident) => Some(
                Identifier { token: tok.clone(), value: ident.clone() },
            ),
            _ => None,
        }
    }
}

/// Expression nodes.
#[derive(Clone, Debug, PartialEq)]
pub enum Expressions {
    Identifier(Identifier),
}

impl View for Expressions {
    type V = ExprV;

    open spec fn view(&self) -> ExprV {
        match self {
            Expressions::Identifier(ident) => ExprV::Identifier(ident@),
        }
    }
}

impl Node for Expressions {
    open spec fn spec_token_literal(&self) -> TokenV {
        match self {
            Expressions::Identifier(ident) => ident.token@,
        }
    }

    fn token_literal(&self) -> (t: Token) {
        match self {
            Expressions::Identifier(ident) => ident.token.clone(),
        }
    }
}

/// A `let` binding.  The bound value is absent until expression parsing
/// exists.
#[derive(Clone, Debug)]
pub struct LetStatement {
    pub token: Token,
    pub name: Option<Identifier>,
    pub value: Option<Expressions>,
}

impl View for LetStatement {
    type V = LetV;

    open spec fn view(&self) -> LetV {
        LetV {
            token: self.token@,
            name: match self.name {
                Some(i) => Some(i@),
                None => None,
            },
            value: match self.value {
                Some(e) => Some(e@),
                None => None,
            },
        }
    }
}

impl LetStatement {
    pub fn new(token: Token, ident: Identifier) -> (s: LetStatement)
        ensures
            s@ == (LetV { token: token@, name: Some(ident@), value: None }),
    {
        LetStatement { token, name: Some(ident), value: None }
    }
}

/// A `return` statement.  The returned value is absent until expression
/// parsing exists.
#[derive(Clone, Debug)]
pub struct ReturnStatement {
    pub token: Token,
    pub return_value: Option<Expressions>,
}

impl View for ReturnStatement {
    type V = RetV;

    open spec fn view(&self) -> RetV {
        RetV {
            token: self.token@,
            return_value: match self.return_value {
                Some(e) => Some(e@),
                None => None,
            },
        }
    }
}

impl ReturnStatement {
    pub fn new(token: Token) -> (s: ReturnStatement)
        ensures
            s@ == (RetV { token: token@, return_value: None }),
    {
        ReturnStatement { token, return_value: None }
    }
}

/// Statement nodes.
#[derive(Clone, Debug)]
pub enum Statements {
    LetNode(LetStatement),
    ReturnNode(ReturnStatement),
}

impl View for Statements {
    type V = StmtV;

    open spec fn view(&self) -> StmtV {
        match self {
            Statements::LetNode(l) => StmtV::LetNode(l@),
            Statements::ReturnNode(r) => StmtV::ReturnNode(r@),
        }
    }
}

impl Node for Statements {
    open spec fn spec_token_literal(&self) -> TokenV {
        match self {
            Statements::LetNode(l) => l.token@,
            Statements::ReturnNode(r) => r.token@,
        }
    }

    fn token_literal(&self) -> (t: Token) {
        match self {
            Statements::LetNode(l) => l.token.clone(),
            Statements::ReturnNode(r) => r.token.clone(),
        }
    }
}

/// An ordered sequence of statements: the root of a successful parse.
#[derive(Debug)]
pub struct Program {
    pub statements: Vec<Statements>,
}

impl View for Program {
    type V = Seq<StmtV>;

    open spec fn view(&self) -> Seq<StmtV> {
        Seq::new(self.statements@.len(), |i: int| self.statements@[i]@)
    }
}

impl Program {
    pub fn new() -> (p: Program)
        ensures
            p.statements@.len() == 0,
            p@ =~= Seq::<StmtV>::empty(),
    {
        Program { statements: Vec::new() }
    }
}

impl Node for Program {
    open spec fn spec_token_literal(&self) -> TokenV {
        if self.statements@.len() > 0 {
            self.statements@[0].spec_token_literal()
        } else {
            TokenV::ILLEGAL
        }
    }

    fn token_literal(&self) -> (t: Token) {
        if self.statements.len() > 0 {
            self.statements[0].token_literal()
        } else {
            Token::ILLEGAL
        }
    }
}

} // verus!
