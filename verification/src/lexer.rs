//! Tokenizer: turns source text into a lazy stream of lexical tokens.
//!
//! The mathematical model of one tokenization step is `next_token_at`: given
//! the source as a `Seq<char>` and a cursor, it returns the token that starts
//! there and the cursor after it.  `Lexer::next_token` is proved to follow
//! that model exactly.

use vstd::prelude::*;
use vstd::string::StrSliceExecFns;
use vstd::string::StringExecFns;

verus! {

/// The shape of a token: its variant with any payload forgotten.
///
/// The parser matches lookahead tokens by shape (any identifier satisfies an
/// identifier expectation, whatever its text), so shapes get an explicit type
/// rather than a payload comparison.
#[allow(non_camel_case_types)]
#[derive(Clone, Copy, Debug, PartialEq, Eq, Structural)]
pub enum TokenKind {
    ILLEGAL,
    EOF,
    IDENT,
    INT,
    ASSIGN,
    PLUS,
    MINUS,
    BANG,
    ASTERISK,
    SLASH,
    LT,
    GT,
    EQ,
    NotEq,
    COMMA,
    SEMICOLON,
    LPAREN,
    RPAREN,
    LBRACE,
    RBRACE,
    FUNCTION,
    LET,
    TRUE,
    FALSE,
    IF,
    ELSE,
    RETURN,
}

/// The mathematical value of a token: identifier text as a `Seq<char>`.
#[allow(non_camel_case_types)]
pub enum TokenV {
    ILLEGAL,
    EOF,
    IDENT(Seq<char>),
    INT(i64),
    ASSIGN,
    PLUS,
    MINUS,
    BANG,
    ASTERISK,
    SLASH,
    LT,
    GT,
    EQ,
    NotEq,
    COMMA,
    SEMICOLON,
    LPAREN,
    RPAREN,
    LBRACE,
    RBRACE,
    FUNCTION,
    LET,
    TRUE,
    FALSE,
    IF,
    ELSE,
    RETURN,
}

/// One lexical unit of source text.
#[allow(non_camel_case_types)]
#[derive(Debug)]
pub enum Token {
    ILLEGAL,
    EOF,
    /// An identifier, carrying its text.
    IDENT(String),
    /// An integer literal, carrying its parsed 64-bit signed value.
    INT(i64),
    ASSIGN,
    PLUS,
    MINUS,
    BANG,
    ASTERISK,
    SLASH,
    LT,
    GT,
    EQ,
    NotEq,
    COMMA,
    SEMICOLON,
    LPAREN,
    RPAREN,
    LBRACE,
    RBRACE,
    FUNCTION,
    LET,
    TRUE,
    FALSE,
    IF,
    ELSE,
    RETURN,
}

impl View for Token {
    type V = TokenV;

    open spec fn view(&self) -> TokenV {
        match self {
            Token::ILLEGAL => TokenV::ILLEGAL,
            Token::EOF => TokenV::EOF,
            Token::IDENT(s) => TokenV::IDENT(s@),
            Token::INT(n) => TokenV::INT(*n),
            Token::ASSIGN => TokenV::ASSIGN,
            Token::PLUS => TokenV::PLUS,
            Token::MINUS => TokenV::MINUS,
            Token::BANG => TokenV::BANG,
            Token::ASTERISK => TokenV::ASTERISK,
            Token::SLASH => TokenV::SLASH,
            Token::LT => TokenV::LT,
            Token::GT => TokenV::GT,
            Token::EQ => TokenV::EQ,
            Token::NotEq => TokenV::NotEq,
            Token::COMMA => TokenV::COMMA,
            Token::SEMICOLON => TokenV::SEMICOLON,
            Token::LPAREN => TokenV::LPAREN,
            Token::RPAREN => TokenV::RPAREN,
            Token::LBRACE => TokenV::LBRACE,
            Token::RBRACE => TokenV::RBRACE,
            Token::FUNCTION => TokenV::FUNCTION,
            Token::LET => TokenV::LET,
            Token::TRUE => TokenV::TRUE,
            Token::FALSE => TokenV::FALSE,
            Token::IF => TokenV::IF,
            Token::ELSE => TokenV::ELSE,
            Token::RETURN => TokenV::RETURN,
        }
    }
}

/// The shape of a token value.
pub open spec fn token_kind(t: TokenV) -> TokenKind {
    match t {
        TokenV::ILLEGAL => TokenKind::ILLEGAL,
        TokenV::EOF => TokenKind::EOF,
        TokenV::IDENT(_) => TokenKind::IDENT,
        TokenV::INT(_) => TokenKind::INT,
        TokenV::ASSIGN => TokenKind::ASSIGN,
        TokenV::PLUS => TokenKind::PLUS,
        TokenV::MINUS => TokenKind::MINUS,
        TokenV::BANG => TokenKind::BANG,
        TokenV::ASTERISK => TokenKind::ASTERISK,
        TokenV::SLASH => TokenKind::SLASH,
        TokenV::LT => TokenKind::LT,
        TokenV::GT => TokenKind::GT,
        TokenV::EQ => TokenKind::EQ,
        TokenV::NotEq => TokenKind::NotEq,
        TokenV::COMMA => TokenKind::COMMA,
        TokenV::SEMICOLON => TokenKind::SEMICOLON,
        TokenV::LPAREN => TokenKind::LPAREN,
        TokenV::RPAREN => TokenKind::RPAREN,
        TokenV::LBRACE => TokenKind::LBRACE,
        TokenV::RBRACE => TokenKind::RBRACE,
        TokenV::FUNCTION => TokenKind::FUNCTION,
        TokenV::LET => TokenKind::LET,
        TokenV::TRUE => TokenKind::TRUE,
        TokenV::FALSE => TokenKind::FALSE,
        TokenV::IF => TokenKind::IF,
        TokenV::ELSE => TokenKind::ELSE,
        TokenV::RETURN => TokenKind::RETURN,
    }
}

/// The display name of a token shape, used in parser error messages.
pub open spec fn token_name(t: TokenV) -> Seq<char> {
    match t {
        TokenV::ILLEGAL => "ILLEGAL"@,
        TokenV::EOF => "EOF"@,
        TokenV::IDENT(_) => "IDENT"@,
        TokenV::INT(_) => "INT"@,
        TokenV::ASSIGN => "="@,
        TokenV::PLUS => "+"@,
        TokenV::MINUS => "-"@,
        TokenV::BANG => "!"@,
        TokenV::ASTERISK => "*"@,
        TokenV::SLASH => "/"@,
        TokenV::LT => "<"@,
        TokenV::GT => ">"@,
        TokenV::EQ => "=="@,
        TokenV::NotEq => "!="@,
        TokenV::COMMA => ","@,
        TokenV::SEMICOLON => ";"@,
        TokenV::LPAREN => "("@,
        TokenV::RPAREN => ")"@,
        TokenV::LBRACE => "{"@,
        TokenV::RBRACE => "}"@,
        TokenV::FUNCTION => "FUNCTION"@,
        TokenV::LET => "LET"@,
        TokenV::TRUE => "TRUE"@,
        TokenV::FALSE => "FALSE"@,
        TokenV::IF => "IF"@,
        TokenV::ELSE => "ELSE"@,
        TokenV::RETURN => "RETURN"@,
    }
}

impl Token {
    /// The shape of this token, ignoring any carried payload.
    pub fn kind(&self) -> (k: TokenKind)
        ensures
            k == token_kind(self@),
    {
        match self {
            Token::ILLEGAL => TokenKind::ILLEGAL,
            Token::EOF => TokenKind::EOF,
            Token::IDENT(_) => TokenKind::IDENT,
            Token::INT(_) => TokenKind::INT,
            Token::ASSIGN => TokenKind::ASSIGN,
            Token::PLUS => TokenKind::PLUS,
            Token::MINUS => TokenKind::MINUS,
            Token::BANG => TokenKind::BANG,
            Token::ASTERISK => TokenKind::ASTERISK,
            Token::SLASH => TokenKind::SLASH,
            Token::LT => TokenKind::LT,
            Token::GT => TokenKind::GT,
            Token::EQ => TokenKind::EQ,
            Token::NotEq => TokenKind::NotEq,
            Token::COMMA => TokenKind::COMMA,
            Token::SEMICOLON => TokenKind::SEMICOLON,
            Token::LPAREN => TokenKind::LPAREN,
            Token::RPAREN => TokenKind::RPAREN,
            Token::LBRACE => TokenKind::LBRACE,
            Token::RBRACE => TokenKind::RBRACE,
            Token::FUNCTION => TokenKind::FUNCTION,
            Token::LET => TokenKind::LET,
            Token::TRUE => TokenKind::TRUE,
            Token::FALSE => TokenKind::FALSE,
            Token::IF => TokenKind::IF,
            Token::ELSE => TokenKind::ELSE,
            Token::RETURN => TokenKind::RETURN,
        }
    }

    /// The display name of this token's shape, used in parser error messages.
    pub fn name(&self) -> (n: String)
        ensures
            n@ == token_name(self@),
    {
        match self {
            Token::ILLEGAL => String::from_str("ILLEGAL"),
            Token::EOF => String::from_str("EOF"),
            Token::IDENT(_) => String::from_str("IDENT"),
            Token::INT(_) => String::from_str("INT"),
            Token::ASSIGN => String::from_str("="),
            Token::PLUS => String::from_str("+"),
            Token::MINUS => String::from_str("-"),
            Token::BANG => String::from_str("!"),
            Token::ASTERISK => String::from_str("*"),
            Token::SLASH => String::from_str("/"),
            Token::LT => String::from_str("<"),
            Token::GT => String::from_str(">"),
            Token::EQ => String::from_str("=="),
            Token::NotEq => String::from_str("!="),
            Token::COMMA => String::from_str(","),
            Token::SEMICOLON => String::from_str(";"),
            Token::LPAREN => String::from_str("("),
            Token::RPAREN => String::from_str(")"),
            Token::LBRACE => String::from_str("{"),
            Token::RBRACE => String::from_str("}"),
            Token::FUNCTION => String::from_str("FUNCTION"),
            Token::LET => String::from_str("LET"),
            Token::TRUE => String::from_str("TRUE"),
            Token::FALSE => String::from_str("FALSE"),
            Token::IF => String::from_str("IF"),
            Token::ELSE => String::from_str("ELSE"),
            Token::RETURN => String::from_str("RETURN"),
        }
    }
}

impl Clone for Token {
    fn clone(&self) -> (r: Token)
        ensures
            r == *self,
    {
        match self {
            Token::ILLEGAL => Token::ILLEGAL,
            Token::EOF => Token::EOF,
            Token::IDENT(s) => Token::IDENT(s.clone()),
            Token::INT(n) => Token::INT(*n),
            Token::ASSIGN => Token::ASSIGN,
            Token::PLUS => Token::PLUS,
            Token::MINUS => Token::MINUS,
            Token::BANG => Token::BANG,
            Token::ASTERISK => Token::ASTERISK,
            Token::SLASH => Token::SLASH,
            Token::LT => Token::LT,
            Token::GT => Token::GT,
            Token::EQ => Token::EQ,
            Token::NotEq => Token::NotEq,
            Token::COMMA => Token::COMMA,
            Token::SEMICOLON => Token::SEMICOLON,
            Token::LPAREN => Token::LPAREN,
            Token::RPAREN => Token::RPAREN,
            Token::LBRACE => Token::LBRACE,
            Token::RBRACE => Token::RBRACE,
            Token::FUNCTION => Token::FUNCTION,
            Token::LET => Token::LET,
            Token::TRUE => Token::TRUE,
            Token::FALSE => Token::FALSE,
            Token::IF => Token::IF,
            Token::ELSE => Token::ELSE,
            Token::RETURN => Token::RETURN,
        }
    }
}

impl PartialEq for Token {
    /// Tokens compare by value: same variant, and equal payload text or number.
    fn eq(&self, other: &Token) -> (r: bool) {
        match (self, other) {
            (Token::ILLEGAL, Token::ILLEGAL) => true,
            (Token::EOF, Token::EOF) => true,
            (Token::IDENT(a), Token::IDENT(b)) => String::eq(a, b),
            (Token::INT(a), Token::INT(b)) => *a == *b,
            (Token::ASSIGN, Token::ASSIGN) => true,
            (Token::PLUS, Token::PLUS) => true,
            (Token::MINUS, Token::MINUS) => true,
            (Token::BANG, Token::BANG) => true,
            (Token::ASTERISK, Token::ASTERISK) => true,
            (Token::SLASH, Token::SLASH) => true,
            (Token::LT, Token::LT) => true,
            (Token::GT, Token::GT) => true,
            (Token::EQ, Token::EQ) => true,
            (Token::NotEq, Token::NotEq) => true,
            (Token::COMMA, Token::COMMA) => true,
            (Token::SEMICOLON, Token::SEMICOLON) => true,
            (Token::LPAREN, Token::LPAREN) => true,
            (Token::RPAREN, Token::RPAREN) => true,
            (Token::LBRACE, Token::LBRACE) => true,
            (Token::RBRACE, Token::RBRACE) => true,
            (Token::FUNCTION, Token::FUNCTION) => true,
            (Token::LET, Token::LET) => true,
            (Token::TRUE, Token::TRUE) => true,
            (Token::FALSE, Token::FALSE) => true,
            (Token::IF, Token::IF) => true,
            (Token::ELSE, Token::ELSE) => true,
            (Token::RETURN, Token::RETURN) => true,
            _ => false,
        }
    }
}

impl vstd::std_specs::cmp::PartialEqSpecImpl for Token {
    open spec fn obeys_eq_spec() -> bool {
        true
    }

    open spec fn eq_spec(&self, other: &Token) -> bool {
        self@ == other@
    }
}

/// An ASCII letter or the underscore: what may start an identifier or keyword.
pub open spec fn is_letter_char(c: char) -> bool {
    ('a' as int <= c as int && c as int <= 'z' as int) || ('A' as int <= c as int && c as int
        <= 'Z' as int) || c == '_'
}

/// An ASCII decimal digit.
pub open spec fn is_digit_char(c: char) -> bool {
    '0' as int <= c as int && c as int <= '9' as int
}

/// ASCII whitespace: space, tab, line feed, form feed, carriage return.
pub open spec fn is_space_char(c: char) -> bool {
    c == ' ' || c == '\t' || c == '\n' || c == '\x0C' || c == '\r'
}

/// The character class a word scan runs over: identifier runs continue
/// through letters, digits and underscores; number runs through digits only.
pub open spec fn word_char(letters: bool, c: char) -> bool {
    if letters {
        is_letter_char(c) || is_digit_char(c)
    } else {
        is_digit_char(c)
    }
}

/// The character at `i`, with the 0 sentinel past either end.
pub open spec fn char_at(s: Seq<char>, i: int) -> char {
    if 0 <= i < s.len() {
        s[i]
    } else {
        '\0'
    }
}

/// The cursor after greedily skipping whitespace from `pos`.
pub open spec fn skip_ws_end(s: Seq<char>, pos: int) -> int
    decreases s.len() - pos,
    when 0 <= pos <= s.len()
{
    if pos < s.len() && is_space_char(s[pos]) {
        skip_ws_end(s, pos + 1)
    } else {
        pos
    }
}

/// The cursor after the maximal run of word characters starting at `pos`.
pub open spec fn run_end(s: Seq<char>, pos: int, letters: bool) -> int
    decreases s.len() - pos,
    when 0 <= pos <= s.len()
{
    if pos < s.len() && word_char(letters, s[pos]) {
        run_end(s, pos + 1, letters)
    } else {
        pos
    }
}

/// The base-10 value of a digit character.
pub open spec fn digit_val(c: char) -> int {
    c as int - '0' as int
}

/// The base-10 value of a run of digit characters.
pub open spec fn digits_value(w: Seq<char>) -> int
    decreases w.len(),
{
    if w.len() == 0 {
        0
    } else {
        digits_value(w.drop_last()) * 10 + digit_val(w.last())
    }
}

/// The payload of the integer token emitted for digit run `w`: its base-10
/// value, or 0 when that value does not fit in a 64-bit signed integer.
pub open spec fn int_token_value(w: Seq<char>) -> i64 {
    if 0 <= digits_value(w) <= i64::MAX {
        digits_value(w) as i64
    } else {
        0
    }
}

/// Whether `w` is one of the reserved keywords.
pub open spec fn is_keyword_word(w: Seq<char>) -> bool {
    w == "let"@ || w == "fn"@ || w == "true"@ || w == "false"@ || w == "if"@ || w == "else"@ || w
        == "return"@
}

/// Whether `t` is a keyword token.
pub open spec fn is_keyword_token(t: TokenV) -> bool {
    t is LET || t is FUNCTION || t is TRUE || t is FALSE || t is IF || t is ELSE || t is RETURN
}

/// The token emitted for a maximal word run: the matching keyword token, or
/// an identifier token carrying the run's exact text.
pub open spec fn word_token(w: Seq<char>) -> TokenV {
    if w == "let"@ {
        TokenV::LET
    } else if w == "fn"@ {
        TokenV::FUNCTION
    } else if w == "true"@ {
        TokenV::TRUE
    } else if w == "false"@ {
        TokenV::FALSE
    } else if w == "if"@ {
        TokenV::IF
    } else if w == "else"@ {
        TokenV::ELSE
    } else if w == "return"@ {
        TokenV::RETURN
    } else {
        TokenV::IDENT(w)
    }
}

/// One tokenization step: the token starting at `pos` (after whitespace) and
/// the cursor after it.  This is the model `Lexer::next_token` is proved
/// against.
pub open spec fn next_token_at(s: Seq<char>, pos: int) -> (TokenV, int) {
    let p = skip_ws_end(s, pos);
    if p >= s.len() {
        (TokenV::EOF, p)
    } else {
        let c = s[p];
        if is_letter_char(c) {
            let e = run_end(s, p, true);
            (word_token(s.subrange(p, e)), e)
        } else if is_digit_char(c) {
            let e = run_end(s, p, false);
            (TokenV::INT(int_token_value(s.subrange(p, e))), e)
        } else if c == '=' {
            if p + 1 < s.len() && s[p + 1] == '=' {
                (TokenV::EQ, p + 2)
            } else {
                (TokenV::ASSIGN, p + 1)
            }
        } else if c == '!' {
            if p + 1 < s.len() && s[p + 1] == '=' {
                (TokenV::NotEq, p + 2)
            } else {
                (TokenV::BANG, p + 1)
            }
        } else if c == '+' {
            (TokenV::PLUS, p + 1)
        } else if c == '-' {
            (TokenV::MINUS, p + 1)
        } else if c == '*' {
            (TokenV::ASTERISK, p + 1)
        } else if c == '/' {
            (TokenV::SLASH, p + 1)
        } else if c == '<' {
            (TokenV::LT, p + 1)
        } else if c == '>' {
            (TokenV::GT, p + 1)
        } else if c == ',' {
            (TokenV::COMMA, p + 1)
        } else if c == ';' {
            (TokenV::SEMICOLON, p + 1)
        } else if c == '(' {
            (TokenV::LPAREN, p + 1)
        } else if c == ')' {
            (TokenV::RPAREN, p + 1)
        } else if c == '{' {
            (TokenV::LBRACE, p + 1)
        } else if c == '}' {
            (TokenV::RBRACE, p + 1)
        } else if c == '\0' {
            (TokenV::EOF, p + 1)
        } else {
            (TokenV::ILLEGAL, p + 1)
        }
    }
}

/// Skipping whitespace stays within the text and never moves backwards.
pub proof fn lemma_skip_ws_end_bounds(s: Seq<char>, pos: int)
    requires
        0 <= pos <= s.len(),
    ensures
        pos <= skip_ws_end(s, pos) <= s.len(),
    decreases s.len() - pos,
{
    if pos < s.len() && is_space_char(s[pos]) {
        lemma_skip_ws_end_bounds(s, pos + 1);
    }
}

/// A word run stays within the text, consists of word characters only, and
/// is maximal: the character after it (if any) is not a word character.
pub proof fn lemma_run_end_bounds(s: Seq<char>, pos: int, letters: bool)
    requires
        0 <= pos <= s.len(),
    ensures
        pos <= run_end(s, pos, letters) <= s.len(),
        forall|i: int| pos <= i < run_end(s, pos, letters) ==> word_char(letters, #[trigger] s[i]),
        run_end(s, pos, letters) == s.len() || !word_char(letters, s[run_end(s, pos, letters)]),
    decreases s.len() - pos,
{
    if pos < s.len() && word_char(letters, s[pos]) {
        lemma_run_end_bounds(s, pos + 1, letters);
    }
}

/// The value of a run of digits is never negative.
pub proof fn lemma_digits_value_nonneg(w: Seq<char>)
    requires
        forall|i: int| 0 <= i < w.len() ==> is_digit_char(#[trigger] w[i]),
    ensures
        0 <= digits_value(w),
    decreases w.len(),
{
    if w.len() > 0 {
        lemma_digits_value_nonneg(w.drop_last());
    }
}

/// Whether `ch` may start an identifier or keyword.
pub fn is_letter(ch: char) -> (b: bool)
    ensures
        b == is_letter_char(ch),
{
    let u: u32 = ch as u32;
    (97 <= u && u <= 122) || (65 <= u && u <= 90) || u == 95
}

/// Whether `ch` is an ASCII decimal digit.
pub fn is_digit(ch: char) -> (b: bool)
    ensures
        b == is_digit_char(ch),
{
    let u: u32 = ch as u32;
    48 <= u && u <= 57
}

/// Whether `ch` may continue an identifier: a letter, digit or underscore.
pub fn is_word(ch: char) -> (b: bool)
    ensures
        b == word_char(true, ch),
{
    is_letter(ch) || is_digit(ch)
}

/// Whether `ch` is ASCII whitespace.
pub fn is_whitespace(ch: char) -> (b: bool)
    ensures
        b == is_space_char(ch),
{
    ch == ' ' || ch == '\t' || ch == '\n' || ch == '\x0C' || ch == '\r'
}

/// Parses a run of ASCII digits as a base-10 signed 64-bit integer; a run
/// whose value overflows yields 0.
fn parse_int_digits(s: &str) -> (v: i64)
    requires
        forall|i: int| 0 <= i < s@.len() ==> is_digit_char(#[trigger] s@[i]),
    ensures
        v == int_token_value(s@),
{
    let n: usize = s.unicode_len();
    let mut i: usize = 0;
    let mut val: i64 = 0;
    let mut over: bool = false;
    while i < n
        invariant
            n == s@.len(),
            0 <= i <= n,
            forall|k: int| 0 <= k < s@.len() ==> is_digit_char(#[trigger] s@[k]),
            !over ==> 0 <= val && val == digits_value(s@.take(i as int)),
            over ==> digits_value(s@.take(i as int)) > i64::MAX,
        decreases n - i,
    {
        let c: char = s.get_char(i);
        let d: i64 = ((c as u32) - 48) as i64;
        proof {
            assert(s@.take(i + 1).drop_last() =~= s@.take(i as int));
            assert(s@.take(i + 1).last() == s@[i as int]);
            assert(digits_value(s@.take(i + 1)) == digits_value(s@.take(i as int)) * 10 + d);
        }
        if !over {
            if val < 922337203685477580 || (val == 922337203685477580 && d <= 7) {
                val = val * 10 + d;
            } else {
                proof {
                    assert(digits_value(s@.take(i as int)) * 10 + d > i64::MAX);
                }
                over = true;
            }
        } else {
            proof {
                let prev = digits_value(s@.take(i as int));
                assert(prev * 10 > i64::MAX) by (nonlinear_arith)
                    requires
                        prev > i64::MAX,
                ;
            }
        }
        i = i + 1;
    }
    proof {
        assert(s@.take(n as int) =~= s@);
    }
    if over {
        0
    } else {
        val
    }
}

/// One tokenization step stays within the text, and moves the cursor
/// strictly forward unless it produced end-of-stream.
pub proof fn lemma_next_token_at_bounds(s: Seq<char>, pos: int)
    requires
        0 <= pos <= s.len(),
    ensures
        pos <= next_token_at(s, pos).1 <= s.len(),
        !(next_token_at(s, pos).0 is EOF) ==> next_token_at(s, pos).1 > pos,
{
    let p = skip_ws_end(s, pos);
    lemma_skip_ws_end_bounds(s, pos);
    if p < s.len() {
        let c = s[p];
        if is_letter_char(c) {
            lemma_run_end_bounds(s, p, true);
            assert(run_end(s, p, true) == run_end(s, p + 1, true));
            lemma_run_end_bounds(s, p + 1, true);
        } else if is_digit_char(c) {
            lemma_run_end_bounds(s, p, false);
            assert(run_end(s, p, false) == run_end(s, p + 1, false));
            lemma_run_end_bounds(s, p + 1, false);
        }
    }
}

/// Law: tokenization is idempotent at end-of-stream.  Once a step yields the
/// end-of-stream token with the cursor at the end of the text, every later
/// step yields end-of-stream again without moving the cursor.  (A 0 sentinel
/// character inside the text also tokenizes as end-of-stream but leaves
/// characters after it; the premise on the cursor leaves that case out.)
pub proof fn lemma_end_of_stream_idempotent(s: Seq<char>, pos: int)
    requires
        0 <= pos <= s.len(),
        next_token_at(s, pos).0 is EOF,
        next_token_at(s, pos).1 == s.len(),
    ensures
        next_token_at(s, next_token_at(s, pos).1) == (TokenV::EOF, s.len() as int),
{
    assert(skip_ws_end(s, s.len() as int) == s.len());
}

/// Law: keywords and identifiers partition the word runs.  When the first
/// character after whitespace starts a word, the emitted token covers the
/// maximal run of letters, digits and underscores; it is a keyword token if
/// and only if the run is one of `let fn true false if else return`, and
/// otherwise an identifier token carrying the run's exact text.
pub proof fn lemma_keyword_identifier_partition(s: Seq<char>, pos: int)
    requires
        0 <= pos <= s.len(),
        ({
            let p = skip_ws_end(s, pos);
            p < s.len() && is_letter_char(s[p])
        }),
    ensures
        ({
            let p = skip_ws_end(s, pos);
            let e = run_end(s, p, true);
            let w = s.subrange(p, e);
            let t = next_token_at(s, pos).0;
            &&& next_token_at(s, pos).1 == e
            &&& p < e <= s.len()
            &&& (forall|i: int| p <= i < e ==> word_char(true, #[trigger] s[i]))
            &&& (e == s.len() || !word_char(true, s[e]))
            &&& (is_keyword_token(t) <==> is_keyword_word(w))
            &&& (!is_keyword_word(w) ==> t == TokenV::IDENT(w))
        }),
{
    let p = skip_ws_end(s, pos);
    lemma_skip_ws_end_bounds(s, pos);
    lemma_run_end_bounds(s, p, true);
    assert(run_end(s, p, true) == run_end(s, p + 1, true));
    lemma_run_end_bounds(s, p + 1, true);
}

/// Law: two-character operators win over their one-character prefixes.  An
/// `==` after whitespace tokenizes as one equality token consuming both
/// characters, never as two assignments; a `!=` as one not-equal token,
/// never as negation followed by assignment.
pub proof fn lemma_two_char_operators(s: Seq<char>, pos: int)
    requires
        0 <= pos <= s.len(),
    ensures
        ({
            let p = skip_ws_end(s, pos);
            &&& (p + 1 < s.len() && s[p] == '=' && s[p + 1] == '=' ==> next_token_at(s, pos) == (
                TokenV::EQ,
                p + 2,
            ))
            &&& (p + 1 < s.len() && s[p] == '!' && s[p + 1] == '=' ==> next_token_at(s, pos) == (
                TokenV::NotEq,
                p + 2,
            ))
        }),
{
    lemma_skip_ws_end_bounds(s, pos);
}

/// Law: numeric round-trip.  When the first character after whitespace is a
/// digit, the emitted token is an integer token covering the maximal digit
/// run, and — whenever the run's base-10 value fits in a 64-bit signed
/// integer — carrying exactly that value.
pub proof fn lemma_numeric_round_trip(s: Seq<char>, pos: int)
    requires
        0 <= pos <= s.len(),
        ({
            let p = skip_ws_end(s, pos);
            p < s.len() && is_digit_char(s[p])
        }),
        digits_value(
            s.subrange(skip_ws_end(s, pos), run_end(s, skip_ws_end(s, pos), false)),
        ) <= i64::MAX,
    ensures
        ({
            let p = skip_ws_end(s, pos);
            let e = run_end(s, p, false);
            let w = s.subrange(p, e);
            &&& p < e <= s.len()
            &&& (forall|i: int| p <= i < e ==> is_digit_char(#[trigger] s[i]))
            &&& (e == s.len() || !is_digit_char(s[e]))
            &&& next_token_at(s, pos) == (TokenV::INT(digits_value(w) as i64), e)
        }),
{
    let p = skip_ws_end(s, pos);
    lemma_skip_ws_end_bounds(s, pos);
    lemma_run_end_bounds(s, p, false);
    assert(run_end(s, p, false) == run_end(s, p + 1, false));
    lemma_run_end_bounds(s, p + 1, false);
    let e = run_end(s, p, false);
    let w = s.subrange(p, e);
    assert(forall|i: int| 0 <= i < w.len() ==> is_digit_char(#[trigger] w[i]));
    lemma_digits_value_nonneg(w);
}

/// Scans source text one token at a time.
///
/// `position` points at the current character, `read_position` one past it
/// (capped at the text's length), and `ch` caches the current character,
/// with the 0 sentinel past end of input.
#[derive(Debug)]
pub struct Lexer {
    pub input: String,
    /// current position in the input (points to current char)
    pub position: usize,
    /// current reading position in the input (after the current char)
    pub read_position: usize,
    /// current char
    pub ch: char,
}

impl Lexer {
    /// The cursor bookkeeping every operation preserves.
    pub open spec fn wf(self) -> bool {
        &&& self.position as int <= self.input@.len()
        &&& self.read_position as int == if (self.position as int) < self.input@.len() {
            self.position as int + 1
        } else {
            self.input@.len() as int
        }
        &&& self.ch == char_at(self.input@, self.position as int)
    }

    pub fn new(input: String) -> (l: Lexer)
        ensures
            l.wf(),
            l.input@ == input@,
            l.position == 0,
    {
        let mut lex = Lexer { input, position: 0, read_position: 0, ch: '\0' };
        lex.read_char();
        lex
    }

    /// Moves the cursor forward by one character, refreshing `ch`; at end of
    /// input it stays put and `ch` holds the 0 sentinel.
    pub fn read_char(&mut self)
        requires
            old(self).read_position as int <= old(self).input@.len(),
        ensures
            final(self).input == old(self).input,
            final(self).position == old(self).read_position,
            final(self).ch == char_at(old(self).input@, old(self).read_position as int),
            final(self).read_position as int == if (old(self).read_position as int)
                < old(self).input@.len() {
                old(self).read_position as int + 1
            } else {
                old(self).input@.len() as int
            },
            final(self).wf(),
            old(self).wf() ==> final(self).position as int == if (old(self).position as int)
                < old(self).input@.len() {
                old(self).position as int + 1
            } else {
                old(self).position as int
            },
    {
        let n: usize = self.input.as_str().unicode_len();
        if self.read_position < n {
            self.ch = self.input.as_str().get_char(self.read_position);
        } else {
            self.ch = '\0';
        }
        self.position = self.read_position;
        if self.read_position < n {
            self.read_position = self.read_position + 1;
        }
    }

    /// Returns the character at the read cursor without consuming it.
    pub fn peek_char(&self) -> (c: char)
        requires
            self.read_position as int <= self.input@.len(),
        ensures
            c == char_at(self.input@, self.read_position as int),
            self.wf() ==> c == char_at(self.input@, self.position as int + 1),
    {
        let n: usize = self.input.as_str().unicode_len();
        if self.read_position < n {
            self.input.as_str().get_char(self.read_position)
        } else {
            '\0'
        }
    }

    /// Consumes contiguous whitespace greedily.
    pub fn skip_whitespaces(&mut self)
        requires
            old(self).wf(),
        ensures
            final(self).wf(),
            final(self).input == old(self).input,
            final(self).position as int == skip_ws_end(old(self).input@, old(self).position as int),
    {
        while is_whitespace(self.ch)
            invariant
                self.wf(),
                self.input == old(self).input,
                skip_ws_end(self.input@, self.position as int) == skip_ws_end(
                    old(self).input@,
                    old(self).position as int,
                ),
            decreases self.input@.len() - self.position as int,
        {
            self.read_char();
        }
    }

    /// Consumes the maximal run of characters satisfying `cond` and returns
    /// its text.  The ghost flag says which word class `cond` decides.
    pub fn read_word<F: Fn(char) -> bool>(&mut self, cond: F, letters: Ghost<bool>) -> (w: String)
        requires
            old(self).wf(),
            forall|c: char| #[trigger] call_requires(cond, (c,)),
            forall|c: char, b: bool| #[trigger] call_ensures(cond, (c,), b) ==> b == word_char(
                letters@,
                c,
            ),
        ensures
            final(self).wf(),
            final(self).input == old(self).input,
            final(self).position as int == run_end(
                old(self).input@,
                old(self).position as int,
                letters@,
            ),
            w@ == old(self).input@.subrange(
                old(self).position as int,
                final(self).position as int,
            ),
    {
        let start: usize = self.position;
        while cond(self.ch)
            invariant
                self.wf(),
                self.input == old(self).input,
                start as int <= self.position as int,
                forall|c: char| #[trigger] call_requires(cond, (c,)),
                forall|c: char, b: bool| #[trigger] call_ensures(cond, (c,), b) ==> b == word_char(
                    letters@,
                    c,
                ),
                run_end(self.input@, self.position as int, letters@) == run_end(
                    old(self).input@,
                    start as int,
                    letters@,
                ),
            decreases self.input@.len() - self.position as int,
        {
            self.read_char();
        }
        let endpos: usize = self.position;
        self.input.as_str().substring_char(start, endpos).to_owned()
    }

    /// Consumes a maximal word run and classifies it: a keyword token when
    /// the text matches a reserved keyword, else an identifier token.
    pub fn read_identifier(&mut self) -> (t: Token)
        requires
            old(self).wf(),
        ensures
            final(self).wf(),
            final(self).input == old(self).input,
            final(self).position as int == run_end(
                old(self).input@,
                old(self).position as int,
                true,
            ),
            t@ == word_token(
                old(self).input@.subrange(old(self).position as int, final(self).position as int),
            ),
    {
        let w = self.read_word(is_word, Ghost(true));
        if w == String::from_str("let") {
            Token::LET
        } else if w == String::from_str("fn") {
            Token::FUNCTION
        } else if w == String::from_str("true") {
            Token::TRUE
        } else if w == String::from_str("false") {
            Token::FALSE
        } else if w == String::from_str("if") {
            Token::IF
        } else if w == String::from_str("else") {
            Token::ELSE
        } else if w == String::from_str("return") {
            Token::RETURN
        } else {
            Token::IDENT(w)
        }
    }

    /// Consumes a maximal digit run and emits its integer token.
    pub fn read_number(&mut self) -> (t: Token)
        requires
            old(self).wf(),
        ensures
            final(self).wf(),
            final(self).input == old(self).input,
            final(self).position as int == run_end(
                old(self).input@,
                old(self).position as int,
                false,
            ),
            t@ == TokenV::INT(
                int_token_value(
                    old(self).input@.subrange(
                        old(self).position as int,
                        final(self).position as int,
                    ),
                ),
            ),
    {
        proof {
            lemma_run_end_bounds(self.input@, self.position as int, false);
        }
        let w = self.read_word(is_digit, Ghost(false));
        Token::INT(parse_int_digits(w.as_str()))
    }

    /// Produces the next token and advances past it; after the end of the
    /// input it keeps producing the end-of-stream token.
    pub fn next_token(&mut self) -> (t: Token)
        requires
            old(self).wf(),
        ensures
            final(self).wf(),
            final(self).input == old(self).input,
            t@ == next_token_at(old(self).input@, old(self).position as int).0,
            final(self).position as int == next_token_at(
                old(self).input@,
                old(self).position as int,
            ).1,
    {
        self.skip_whitespaces();
        if is_letter(self.ch) {
            return self.read_identifier();
        }
        if is_digit(self.ch) {
            return self.read_number();
        }
        let tok = if self.ch == '=' {
            if self.peek_char() == '=' {
                self.read_char();
                Token::EQ
            } else {
                Token::ASSIGN
            }
        } else if self.ch == '!' {
            if self.peek_char() == '=' {
                self.read_char();
                Token::NotEq
            } else {
                Token::BANG
            }
        } else if self.ch == '+' {
            Token::PLUS
        } else if self.ch == '-' {
            Token::MINUS
        } else if self.ch == '*' {
            Token::ASTERISK
        } else if self.ch == '/' {
            Token::SLASH
        } else if self.ch == '<' {
            Token::LT
        } else if self.ch == '>' {
            Token::GT
        } else if self.ch == ',' {
            Token::COMMA
        } else if self.ch == ';' {
            Token::SEMICOLON
        } else if self.ch == '(' {
            Token::LPAREN
        } else if self.ch == ')' {
            Token::RPAREN
        } else if self.ch == '{' {
            Token::LBRACE
        } else if self.ch == '}' {
            Token::RBRACE
        } else if self.ch == '\0' {
            Token::EOF
        } else {
            Token::ILLEGAL
        };
        self.read_char();
        tok
    }
}

} // verus!

