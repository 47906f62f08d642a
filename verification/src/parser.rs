//! A recursive-descent parser over the token stream: expressions by
//! operator precedence, blocks, and the `for` loop form.

use crate::strcmp::str_eq;
use crate::token::kind_spec;
use crate::token::Keyword;
use crate::token::Token;
use crate::token::TokenKind;
use crate::token::TokenV;
use vstd::prelude::*;
use vstd::string::StrSliceExecFns;
use vstd::string::StringSliceAdditionalSpecFns;

verus! {

/// A failure to parse.
#[derive(Clone, Copy, PartialEq, Eq, Structural, Debug)]
pub enum ParserError {
    /// A token stood where the grammar does not allow it.
    UnexpectedToken,
    /// The input ended inside an unfinished form.
    UnexpectedEndOfInput,
}

/// An infix operator of an expression.
#[derive(Clone, Copy, PartialEq, Eq, Structural, Debug)]
pub enum InfixOp {
    Add,
    Subtract,
    Multiply,
    Divide,
    Equal,
    NotEqual,
    Less,
    LessEqual,
    Greater,
    GreaterEqual,
    And,
    Xor,
    Or,
    Assign,
}

/// A parsed expression.
#[derive(Debug)]
pub enum ExpressionKind {
    /// A variable by name.
    Ident(String),
    /// An integer literal.
    Literal(u128),
    /// A binary operation.
    Binary { operator: InfixOp, lhs: Box<ExpressionKind>, rhs: Box<ExpressionKind> },
    /// A `for` loop.
    For(Box<ForExpression>),
}

/// The body of a block: its statements in order.
#[derive(Debug)]
pub struct BlockExpression {
    pub statements: Vec<ExpressionKind>,
}

/// A `for IDENT in START..END { .. }` form.
#[derive(Debug)]
pub struct ForExpression {
    pub identifier: String,
    pub start_range: ExpressionKind,
    pub end_range: ExpressionKind,
    pub block: BlockExpression,
}

/// Binding strength of infix operators: the higher, the tighter.
#[derive(Debug, Copy, Clone, PartialEq, Eq, Structural)]
pub enum Precedence {
    Lowest,
    LessGreater,
    Sum,
    Product,
    Highest,
}

/// Numeric order of the precedence levels.
pub open spec fn prec_rank(p: Precedence) -> int {
    match p {
        Precedence::Lowest => 0,
        Precedence::LessGreater => 1,
        Precedence::Sum => 2,
        Precedence::Product => 3,
        Precedence::Highest => 4,
    }
}

/// The precedence an infix token binds with, `None` for any token that is
/// no infix operator.
pub open spec fn token_precedence_spec(t: TokenV) -> Option<Precedence> {
    match t {
        TokenV::Assign => Some(Precedence::Lowest),
        TokenV::Equal => Some(Precedence::Lowest),
        TokenV::NotEqual => Some(Precedence::Lowest),
        TokenV::Less => Some(Precedence::LessGreater),
        TokenV::LessEqual => Some(Precedence::LessGreater),
        TokenV::Greater => Some(Precedence::LessGreater),
        TokenV::GreaterEqual => Some(Precedence::LessGreater),
        TokenV::Ampersand => Some(Precedence::Sum),
        TokenV::Caret => Some(Precedence::Sum),
        TokenV::Pipe => Some(Precedence::Sum),
        TokenV::Plus => Some(Precedence::Sum),
        TokenV::Minus => Some(Precedence::Sum),
        TokenV::Slash => Some(Precedence::Product),
        TokenV::Star => Some(Precedence::Product),
        _ => None,
    }
}

impl Precedence {
    /// See [`prec_rank`].
    pub fn rank(self) -> (r: u8)
        ensures
            r == prec_rank(self),
    {
        match self {
            Precedence::Lowest => 0,
            Precedence::LessGreater => 1,
            Precedence::Sum => 2,
            Precedence::Product => 3,
            Precedence::Highest => 4,
        }
    }

    /// See [`token_precedence_spec`].
    pub fn token_precedence(tok: &Token) -> (r: Option<Precedence>)
        ensures
            r == token_precedence_spec(tok@),
    {
        match tok {
            Token::Assign => Some(Precedence::Lowest),
            Token::Equal => Some(Precedence::Lowest),
            Token::NotEqual => Some(Precedence::Lowest),
            Token::Less => Some(Precedence::LessGreater),
            Token::LessEqual => Some(Precedence::LessGreater),
            Token::Greater => Some(Precedence::LessGreater),
            Token::GreaterEqual => Some(Precedence::LessGreater),
            Token::Ampersand => Some(Precedence::Sum),
            Token::Caret => Some(Precedence::Sum),
            Token::Pipe => Some(Precedence::Sum),
            Token::Plus => Some(Precedence::Sum),
            Token::Minus => Some(Precedence::Sum),
            Token::Slash => Some(Precedence::Product),
            Token::Star => Some(Precedence::Product),
            _ => None,
        }
    }

    /// The next higher precedence level.
    pub fn higher(self) -> (r: Precedence)
        ensures
            prec_rank(r) >= prec_rank(self),
            self != Precedence::Highest ==> prec_rank(r) == prec_rank(self) + 1,
    {
        match self {
            Precedence::Lowest => Precedence::LessGreater,
            Precedence::LessGreater => Precedence::Sum,
            Precedence::Sum => Precedence::Product,
            Precedence::Product => Precedence::Highest,
            Precedence::Highest => Precedence::Highest,
        }
    }
}

/// A lexed token stream is well formed: it ends with its only `EndOfInput`.
pub open spec fn tokens_wf(ts: Seq<Token>) -> bool {
    &&& ts.len() >= 1
    &&& ts.last()@ is EndOfInput
    &&& forall|i: int| 0 <= i < ts.len() - 1 ==> !((#[trigger] ts[i]@) is EndOfInput)
}

/// Lexes a source text.  Identifiers, integers, the punctuation of the
/// expression grammar and the `for`/`in` keywords become their tokens, any
/// other character an `Unknown`, and the stream ends with `EndOfInput`.
pub fn lex(src: &str) -> (r: Vec<Token>)
    ensures
        tokens_wf(r@),
{
    let mut out: Vec<Token> = Vec::new();
    if !src.is_ascii() {
        out.push(Token::Unknown('?'));
        out.push(Token::EndOfInput);
        proof {
            assert(out@[0]@ is Unknown);
        }
        return out;
    }
    proof {
        broadcast use vstd::string::is_ascii_spec_bytes;

    }
    let n = src.unicode_len();
    let mut i: usize = 0;
    while i < n
        invariant
            src.is_ascii(),
            n == src@.len(),
            i <= n,
            forall|k: int| 0 <= k < out@.len() ==> !((#[trigger] out@[k]@) is EndOfInput),
        decreases n - i,
    {
        let c = src.get_char(i);
        if c == ' ' || c == '\t' || c == '\n' || c == '\r' {
            i += 1;
        } else if is_ident_start(c) {
            let mut j: usize = i + 1;
            while j < n && is_ident_char(src.get_char(j))
                invariant
                    src.is_ascii(),
                    n == src@.len(),
                    i < j <= n,
                decreases n - j,
            {
                j += 1;
            }
            let word = src.substring_ascii(i, j).to_owned();
            let token = if str_eq(word.as_str(), "for") {
                Token::Keyword(Keyword::For)
            } else if str_eq(word.as_str(), "in") {
                Token::Keyword(Keyword::In)
            } else {
                Token::Ident(word)
            };
            out.push(token);
            i = j;
        } else if is_digit(c) {
            let mut value: u128 = digit_value(c) as u128;
            let mut j: usize = i + 1;
            while j < n && is_digit(src.get_char(j))
                invariant
                    src.is_ascii(),
                    n == src@.len(),
                    i < j <= n,
                decreases n - j,
            {
                let d = digit_value(src.get_char(j));
                value = match value.checked_mul(10) {
                    Some(v) => match v.checked_add(d as u128) {
                        Some(v2) => v2,
                        None => u128::MAX,
                    },
                    None => u128::MAX,
                };
                j += 1;
            }
            out.push(Token::Int(value));
            i = j;
        } else if c == '.' {
            if i + 1 < n && src.get_char(i + 1) == '.' {
                out.push(Token::DoubleDot);
                i += 2;
            } else {
                out.push(Token::Dot);
                i += 1;
            }
        } else if c == '=' {
            if i + 1 < n && src.get_char(i + 1) == '=' {
                out.push(Token::Equal);
                i += 2;
            } else {
                out.push(Token::Assign);
                i += 1;
            }
        } else if c == '!' {
            if i + 1 < n && src.get_char(i + 1) == '=' {
                out.push(Token::NotEqual);
                i += 2;
            } else {
                out.push(Token::Unknown('!'));
                i += 1;
            }
        } else if c == '<' {
            if i + 1 < n && src.get_char(i + 1) == '=' {
                out.push(Token::LessEqual);
                i += 2;
            } else {
                out.push(Token::Less);
                i += 1;
            }
        } else if c == '>' {
            if i + 1 < n && src.get_char(i + 1) == '=' {
                out.push(Token::GreaterEqual);
                i += 2;
            } else {
                out.push(Token::Greater);
                i += 1;
            }
        } else {
            let token = match c {
                '+' => Token::Plus,
                '-' => Token::Minus,
                '*' => Token::Star,
                '/' => Token::Slash,
                '&' => Token::Ampersand,
                '^' => Token::Caret,
                '|' => Token::Pipe,
                '{' => Token::LeftBrace,
                '}' => Token::RightBrace,
                '(' => Token::LeftParen,
                ')' => Token::RightParen,
                ';' => Token::Semicolon,
                ',' => Token::Comma,
                _ => Token::Unknown(c),
            };
            out.push(token);
            i += 1;
        }
    }
    out.push(Token::EndOfInput);
    out
}

/// Whether a character can start an identifier.
fn is_ident_start(c: char) -> bool {
    (c >= 'a' && c <= 'z') || (c >= 'A' && c <= 'Z') || c == '_'
}

/// Whether a character can continue an identifier.
fn is_ident_char(c: char) -> bool {
    (c >= 'a' && c <= 'z') || (c >= 'A' && c <= 'Z') || (c >= '0' && c <= '9') || c == '_'
}

/// Whether a character is a decimal digit.
fn is_digit(c: char) -> bool {
    c >= '0' && c <= '9'
}

/// The value of a decimal digit, and zero for anything else.
fn digit_value(c: char) -> (r: u8)
    ensures
        r <= 9,
{
    match c {
        '0' => 0,
        '1' => 1,
        '2' => 2,
        '3' => 3,
        '4' => 4,
        '5' => 5,
        '6' => 6,
        '7' => 7,
        '8' => 8,
        '9' => 9,
        _ => 0,
    }
}

/// The parser's cursor over a lexed token stream.  `curr_token` always
/// mirrors the token at `position`.
pub struct Parser {
    pub tokens: Vec<Token>,
    pub position: usize,
    pub curr_token: Token,
}

/// The parser state is well formed.
pub open spec fn parser_wf(p: &Parser) -> bool {
    &&& tokens_wf(p.tokens@)
    &&& p.position < p.tokens@.len()
    &&& p.curr_token@ == p.tokens@[p.position as int]@
}

/// The token one past the cursor; at the end of the stream, `EndOfInput`
/// itself.
pub open spec fn peek_spec(p: &Parser) -> TokenV {
    if p.position + 1 < p.tokens@.len() {
        p.tokens@[p.position + 1]@
    } else {
        p.tokens@[p.tokens@.len() - 1]@
    }
}

/// Builds a parser over a source text, cursor on the first token.
pub fn test_parse(src: &str) -> (r: Parser)
    ensures
        parser_wf(&r),
{
    let tokens = lex(src);
    let curr_token = tokens[0].deep_clone();
    Parser { tokens, position: 0, curr_token }
}

impl Parser {
    /// Moves the cursor one token ahead; at the end of the stream it stays
    /// on `EndOfInput`.
    pub fn advance_tokens(&mut self)
        requires
            parser_wf(old(self)),
        ensures
            parser_wf(final(self)),
            final(self).tokens == old(self).tokens,
            old(self).position + 1 < old(self).tokens@.len() ==> final(self).position == old(
                self,
            ).position + 1,
            !(old(self).position + 1 < old(self).tokens@.len()) ==> final(self).position == old(
                self,
            ).position,
            final(self).curr_token@ == peek_spec(old(self)),
    {
        if self.position < self.tokens.len() - 1 {
            self.position = self.position + 1;
            self.curr_token = self.tokens[self.position].deep_clone();
        }
    }

    /// Checks that the token ahead has the wanted kind and, if so, advances
    /// onto it.
    pub fn peek_check_kind_advance(&mut self, kind: TokenKind) -> (r: Result<(), ParserError>)
        requires
            parser_wf(old(self)),
        ensures
            parser_wf(final(self)),
            final(self).tokens == old(self).tokens,
            r is Ok <==> kind_spec(peek_spec(old(self))) == kind,
            r is Ok ==> final(self).curr_token@ == peek_spec(old(self)) && final(self).position
                >= old(self).position,
            r is Err ==> *final(self) == *old(self),
    {
        let matches_kind = {
            let peeked = if self.position < self.tokens.len() - 1 {
                &self.tokens[self.position + 1]
            } else {
                &self.tokens[self.tokens.len() - 1]
            };
            peeked.kind() == kind
        };
        if matches_kind {
            self.advance_tokens();
            Ok(())
        } else {
            Err(ParserError::UnexpectedToken)
        }
    }

    /// Checks that the token ahead is exactly the expected one and, if so,
    /// advances onto it.
    pub fn peek_check_variant_advance(&mut self, expected: &Token) -> (r: Result<
        (),
        ParserError,
    >)
        requires
            parser_wf(old(self)),
        ensures
            parser_wf(final(self)),
            final(self).tokens == old(self).tokens,
            r is Ok <==> peek_spec(old(self)) == expected@,
            r is Ok ==> final(self).curr_token@ == peek_spec(old(self)) && final(self).position
                >= old(self).position,
            r is Err ==> *final(self) == *old(self),
    {
        let matches_token = {
            let peeked = if self.position < self.tokens.len() - 1 {
                &self.tokens[self.position + 1]
            } else {
                &self.tokens[self.tokens.len() - 1]
            };
            peeked.same_as(expected)
        };
        if matches_token {
            self.advance_tokens();
            Ok(())
        } else {
            Err(ParserError::UnexpectedToken)
        }
    }

    /// Parses one expression by precedence climbing: an identifier or
    /// integer atom, extended left-to-right by infix operators binding
    /// tighter than `precedence`.  On success the cursor rests on the last
    /// token of the expression.
    pub fn parse_expression(&mut self, precedence: Precedence) -> (r: Result<
        ExpressionKind,
        ParserError,
    >)
        requires
            parser_wf(old(self)),
        ensures
            parser_wf(final(self)),
            final(self).tokens == old(self).tokens,
            final(self).position >= old(self).position,
            !(old(self).curr_token@ is Ident || old(self).curr_token@ is Int) ==> r is Err,
            r is Ok ==> (final(self).curr_token@ is Ident || final(self).curr_token@ is Int),
        decreases old(self).tokens@.len() - old(self).position,
    {
        let mut left = match &self.curr_token {
            Token::Ident(s) => ExpressionKind::Ident(s.clone()),
            Token::Int(v) => ExpressionKind::Literal(*v),
            _ => {
                return Err(ParserError::UnexpectedToken);
            },
        };
        let ghost entry = *self;
        loop
            invariant
                parser_wf(self),
                self.tokens == entry.tokens,
                entry == *old(self),
                old(self).curr_token@ is Ident || old(self).curr_token@ is Int,
                self.position >= entry.position,
                self.curr_token@ is Ident || self.curr_token@ is Int,
            decreases self.tokens@.len() - self.position,
        {
            let peek_prec = {
                let peeked = if self.position < self.tokens.len() - 1 {
                    &self.tokens[self.position + 1]
                } else {
                    &self.tokens[self.tokens.len() - 1]
                };
                Precedence::token_precedence(peeked)
            };
            match peek_prec {
                Some(p) => {
                    if p.rank() > precedence.rank() {
                        self.advance_tokens();
                        let op = match &self.curr_token {
                            Token::Plus => InfixOp::Add,
                            Token::Minus => InfixOp::Subtract,
                            Token::Star => InfixOp::Multiply,
                            Token::Slash => InfixOp::Divide,
                            Token::Equal => InfixOp::Equal,
                            Token::NotEqual => InfixOp::NotEqual,
                            Token::Less => InfixOp::Less,
                            Token::LessEqual => InfixOp::LessEqual,
                            Token::Greater => InfixOp::Greater,
                            Token::GreaterEqual => InfixOp::GreaterEqual,
                            Token::Ampersand => InfixOp::And,
                            Token::Caret => InfixOp::Xor,
                            Token::Pipe => InfixOp::Or,
                            Token::Assign => InfixOp::Assign,
                            _ => {
                                return Err(ParserError::UnexpectedToken);
                            },
                        };
                        self.advance_tokens();
                        let right = match self.parse_expression(p) {
                            Ok(e) => e,
                            Err(e) => {
                                return Err(e);
                            },
                        };
                        left = ExpressionKind::Binary {
                            operator: op,
                            lhs: Box::new(left),
                            rhs: Box::new(right),
                        };
                    } else {
                        return Ok(left);
                    }
                },
                None => {
                    return Ok(left);
                },
            }
        }
    }
}

/// Parses block expressions.
pub struct BlockParser;

impl BlockParser {
    /// Parses `{ <STMT> <STMT> .. }`, the cursor starting on `{` and, on
    /// success, resting on `}`.
    pub fn parse_block_expression(parser: &mut Parser) -> (r: Result<
        BlockExpression,
        ParserError,
    >)
        requires
            parser_wf(old(parser)),
        ensures
            parser_wf(final(parser)),
            final(parser).tokens == old(parser).tokens,
            final(parser).position >= old(parser).position,
            !(old(parser).curr_token@ is LeftBrace) ==> r is Err,
            r is Ok ==> final(parser).curr_token@ is RightBrace,
    {
        if !matches!(&parser.curr_token, Token::LeftBrace) {
            return Err(ParserError::UnexpectedToken);
        }
        parser.advance_tokens();
        let mut statements: Vec<ExpressionKind> = Vec::new();
        let ghost entry = *parser;
        loop
            invariant
                parser_wf(parser),
                parser.tokens == entry.tokens,
                entry.tokens == old(parser).tokens,
                old(parser).curr_token@ is LeftBrace,
                parser.position >= entry.position,
                entry.position >= old(parser).position,
            decreases parser.tokens@.len() - parser.position,
        {
            if matches!(&parser.curr_token, Token::RightBrace) {
                return Ok(BlockExpression { statements });
            }
            if matches!(&parser.curr_token, Token::EndOfInput) {
                return Err(ParserError::UnexpectedEndOfInput);
            }
            let statement = match parser.parse_expression(Precedence::Lowest) {
                Ok(e) => e,
                Err(e) => {
                    return Err(e);
                },
            };
            statements.push(statement);
            parser.advance_tokens();
            if matches!(&parser.curr_token, Token::Semicolon) {
                parser.advance_tokens();
            }
        }
    }
}

/// Parses `for` loop expressions.
pub struct ForParser;

impl ForParser {
    /// Parses a `for` expression:
    ///
    /// ```text
    /// for IDENT in RANGE_START..RANGE_END {
    ///     <STMT> <STMT> ..
    /// }
    /// ```
    ///
    /// The cursor starts on `for` and, on success, rests on the closing
    /// `}`.  The loop variable must be a plain identifier, and only the
    /// exclusive `..` range form is accepted.
    pub fn parse(parser: &mut Parser) -> (r: Result<ExpressionKind, ParserError>)
        requires
            parser_wf(old(parser)),
        ensures
            parser_wf(final(parser)),
            final(parser).tokens == old(parser).tokens,
            final(parser).position >= old(parser).position,
            kind_spec(peek_spec(old(parser))) != TokenKind::Ident ==> r is Err,
            r is Ok ==> final(parser).curr_token@ is RightBrace,
            r matches Ok(e) ==> e is For,
            r matches Ok(e) ==> e matches ExpressionKind::For(fe) && peek_spec(old(parser))
                matches TokenV::Ident(name) && fe.identifier@ == name,
    {
        // Peek ahead and check that the next token is an identifier: the
        // loop variable.
        match parser.peek_check_kind_advance(TokenKind::Ident) {
            Ok(()) => {},
            Err(e) => {
                return Err(e);
            },
        }
        let spanned_identifier = match &parser.curr_token {
            Token::Ident(s) => s.clone(),
            _ => {
                return Err(ParserError::UnexpectedToken);
            },
        };
        // The `in` keyword follows the loop variable.
        match parser.peek_check_variant_advance(&Token::Keyword(Keyword::In)) {
            Ok(()) => {},
            Err(e) => {
                return Err(e);
            },
        }
        parser.advance_tokens();
        let start_range = match parser.parse_expression(Precedence::Lowest) {
            Ok(e) => e,
            Err(e) => {
                return Err(e);
            },
        };
        // Only the exclusive `..` range form is accepted.
        match parser.peek_check_variant_advance(&Token::DoubleDot) {
            Ok(()) => {},
            Err(e) => {
                return Err(e);
            },
        }
        parser.advance_tokens();
        let end_range = match parser.parse_expression(Precedence::Lowest) {
            Ok(e) => e,
            Err(e) => {
                return Err(e);
            },
        };
        match parser.peek_check_variant_advance(&Token::LeftBrace) {
            Ok(()) => {},
            Err(e) => {
                return Err(e);
            },
        }
        let block = match BlockParser::parse_block_expression(parser) {
            Ok(b) => b,
            Err(e) => {
                return Err(e);
            },
        };
        Ok(
            ExpressionKind::For(
                Box::new(
                    ForExpression { identifier: spanned_identifier, start_range, end_range, block },
                ),
            ),
        )
    }
}

} // verus!
