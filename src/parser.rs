use vstd::prelude::*;
use vstd::string::*;

use crate::ast::{Expr, Literal};
use crate::error::Error;
use crate::token::{same_category, Token, TokenType};

verus! {

/// Why a parse failed.
pub enum Failure {
    /// A `(` whose expression is not followed by `)`.
    MissingParen,
    /// No expression starts at the token.
    NoExpression,
}

pub open spec fn failure_message(f: Failure) -> Seq<char> {
    match f {
        Failure::MissingParen => "Expect ')' after expression"@,
        Failure::NoExpression => "Expect expression."@,
    }
}

/// A token sequence as the scanner hands it over: it ends with the
/// end-of-input token.
pub open spec fn ends_with_eof(toks: Seq<Token>) -> bool {
    toks.len() > 0 && toks.last().token_type is Eof
}

/// The operators of each level of the grammar, from the loosest binding:
/// equality, comparison, term, factor; level 4 holds the prefix operators.
pub open spec fn level_ops(level: nat) -> Seq<TokenType> {
    if level == 0 {
        seq![TokenType::BangEqual, TokenType::EqualEqual]
    } else if level == 1 {
        seq![TokenType::Greater, TokenType::GreaterEqual, TokenType::Less, TokenType::LessEqual]
    } else if level == 2 {
        seq![TokenType::Plus, TokenType::Minus]
    } else if level == 3 {
        seq![TokenType::Star, TokenType::Slash]
    } else {
        seq![TokenType::Bang, TokenType::Minus]
    }
}

pub open spec fn matches_any(types: Seq<TokenType>, t: TokenType) -> bool {
    exists|i: int| 0 <= i < types.len() && same_category(t, #[trigger] types[i])
}

/// The token at `pos` is not the end of input and has one of the categories
/// `types`.
pub open spec fn lookahead_in(toks: Seq<Token>, pos: int, types: Seq<TokenType>) -> bool {
    &&& 0 <= pos < toks.len()
    &&& !(toks[pos].token_type is Eof)
    &&& matches_any(types, toks[pos].token_type)
}

/// Parsing an expression of binding level `level` (0 to 5; 5 is a primary)
/// from token `pos`: the tree and the position after it, or the failure and
/// the position of the token where it was found.
/// The parser's functions prove that a successful parse moves forward and
/// stays in the sequence, so the bounds tested below on the positions that
/// recursive parses return hold; they make the definition's termination
/// evident.
pub open spec fn parse_level(toks: Seq<Token>, pos: int, level: nat) -> Result<
    (Expr, int),
    (Failure, int),
>
    decreases toks.len() - pos, 5 - level,
{
    if pos < 0 || pos >= toks.len() || level > 5 {
        Err((Failure::NoExpression, pos))
    } else if level < 4 {
        match parse_level(toks, pos, level + 1) {
            Ok((left, p)) => if pos <= p <= toks.len() {
                fold_level(toks, level, left, p)
            } else {
                Ok((left, p))
            },
            Err(e) => Err(e),
        }
    } else if level == 4 {
        if lookahead_in(toks, pos, level_ops(4)) {
            match parse_level(toks, pos + 1, 4) {
                Ok((operand, p)) => Ok((Expr::Unary { operator: toks[pos], right: Box::new(operand) }, p)),
                Err(e) => Err(e),
            }
        } else {
            parse_level(toks, pos, 5)
        }
    } else {
        match toks[pos].token_type {
            TokenType::False => Ok((Expr::Literal { value: Literal::Bool(false) }, pos + 1)),
            TokenType::True => Ok((Expr::Literal { value: Literal::Bool(true) }, pos + 1)),
            TokenType::Nil => Ok((Expr::Literal { value: Literal::Nil }, pos + 1)),
            TokenType::Number(d) => Ok((Expr::Literal { value: Literal::Number(d) }, pos + 1)),
            TokenType::Stringy(s) => Ok((Expr::Literal { value: Literal::Stringy(s) }, pos + 1)),
            TokenType::LeftParen => match parse_level(toks, pos + 1, 0) {
                Ok((inner, p)) => if 0 <= p < toks.len() && toks[p].token_type is RightParen {
                    Ok((Expr::Grouping { expression: Box::new(inner) }, p + 1))
                } else {
                    Err((Failure::MissingParen, p))
                },
                Err(e) => Err(e),
            },
            _ => Err((Failure::NoExpression, pos)),
        }
    }
}

/// The left-associative fold of a binary level: `left`, read so far, is
/// combined with each following operator of the level and the operand of
/// the next level after it.
pub open spec fn fold_level(toks: Seq<Token>, level: nat, left: Expr, pos: int) -> Result<
    (Expr, int),
    (Failure, int),
>
    decreases toks.len() - pos, 0int,
{
    if level < 4 && lookahead_in(toks, pos, level_ops(level)) {
        match parse_level(toks, pos + 1, level + 1) {
            Ok((right, q)) => {
                let e = Expr::Binary { left: Box::new(left), operator: toks[pos], right: Box::new(right) };
                if pos < q <= toks.len() {
                    fold_level(toks, level, e, q)
                } else {
                    Ok((e, q))
                }
            },
            Err(e) => Err(e),
        }
    } else {
        Ok((left, pos))
    }
}

/// An expression parsed from the start of a token sequence.
pub open spec fn parse_tokens(toks: Seq<Token>) -> Result<(Expr, int), (Failure, int)> {
    parse_level(toks, 0, 0)
}

/// What a parse returned, with the position it left, agrees with the
/// outcome `s` of the grammar.
pub open spec fn agrees(r: Result<Expr, Error>, s: Result<(Expr, int), (Failure, int)>, at: int) -> bool {
    match s {
        Ok((e, p)) => r == Ok::<Expr, Error>(e) && at == p,
        Err((f, p)) => r matches Err(Error::ParseErr(m)) && m@ == failure_message(f) && at == p,
    }
}

/// A token that may start a statement: error recovery stops before one.
pub open spec fn starts_statement(t: TokenType) -> bool {
    ||| t is Class
    ||| t is Fun
    ||| t is Var
    ||| t is For
    ||| t is If
    ||| t is While
    ||| t is Print
    ||| t is Return
}

/// Where recovery that has reached `p` stops: at the end of input, after a
/// `;`, or before a token that starts a statement.
pub open spec fn sync_from(toks: Seq<Token>, p: int) -> int
    decreases toks.len() - p,
{
    if p < 0 || p >= toks.len() || toks[p].token_type is Eof {
        p
    } else if p > 0 && toks[p - 1].token_type is Semicolon {
        p
    } else if starts_statement(toks[p].token_type) {
        p
    } else {
        sync_from(toks, p + 1)
    }
}

/// Where recovery from `pos` stops: the token at `pos` is always discarded,
/// unless it ends the input.
pub open spec fn synchronized(toks: Seq<Token>, pos: int) -> int {
    sync_from(
        toks,
        if toks[pos].token_type is Eof {
            pos
        } else {
            pos + 1
        },
    )
}

/// Recovery after a `;`: when no `;`, end of input or statement keyword
/// comes between the cursor and a `;` at `k`, recovery stops just past it.
pub proof fn lemma_synchronize_past_semicolon(toks: Seq<Token>, pos: int, k: int)
    requires
        ends_with_eof(toks),
        0 <= pos <= k < toks.len(),
        toks[k].token_type is Semicolon,
        forall|j: int| pos <= j < k ==> !(#[trigger] toks[j].token_type is Semicolon),
        forall|j: int| pos <= j < k ==> !(#[trigger] toks[j].token_type is Eof),
        forall|j: int| pos < j < k ==> !starts_statement(#[trigger] toks[j].token_type),
    ensures
        synchronized(toks, pos) == k + 1,
{
    lemma_sync_from_semicolon(toks, pos + 1, k);
}

proof fn lemma_sync_from_semicolon(toks: Seq<Token>, p: int, k: int)
    requires
        ends_with_eof(toks),
        1 <= p <= k + 1,
        k < toks.len(),
        toks[k].token_type is Semicolon,
        forall|j: int| p - 1 <= j < k ==> !(#[trigger] toks[j].token_type is Semicolon),
        forall|j: int| p <= j < k ==> !(#[trigger] toks[j].token_type is Eof),
        forall|j: int| p <= j < k ==> !starts_statement(#[trigger] toks[j].token_type),
    ensures
        sync_from(toks, p) == k + 1,
    decreases k + 1 - p,
{
    if p <= k {
        assert(!(toks[p - 1].token_type is Semicolon));
        if p < k {
            assert(!(toks[p].token_type is Eof));
            assert(!starts_statement(toks[p].token_type));
        }
        lemma_sync_from_semicolon(toks, p + 1, k);
    }
}

/// A recursive-descent parser over a token sequence, which it only reads.
pub struct Parser<'a> {
    tokens: &'a Vec<Token>,
    current: usize,
}

fn operators(level: u8) -> (r: Vec<TokenType>)
    requires
        level <= 4,
    ensures
        r@ == level_ops(level as nat),
{
    if level == 0 {
        vec![TokenType::BangEqual, TokenType::EqualEqual]
    } else if level == 1 {
        vec![TokenType::Greater, TokenType::GreaterEqual, TokenType::Less, TokenType::LessEqual]
    } else if level == 2 {
        vec![TokenType::Plus, TokenType::Minus]
    } else if level == 3 {
        vec![TokenType::Star, TokenType::Slash]
    } else {
        vec![TokenType::Bang, TokenType::Minus]
    }
}

impl<'a> Parser<'a> {
    /// The tokens being parsed.
    pub closed spec fn tokens(&self) -> Seq<Token> {
        self.tokens@
    }

    /// The position of the next token to read.
    pub closed spec fn cursor(&self) -> int {
        self.current as int
    }

    /// The cursor stands in the sequence and has not passed an end-of-input
    /// token.
    pub closed spec fn wf(&self) -> bool {
        &&& ends_with_eof(self.tokens@)
        &&& self.current < self.tokens@.len()
        &&& forall|i: int| 0 <= i < self.current ==> !(#[trigger] self.tokens@[i].token_type is Eof)
    }

    /// A parser at the start of `tokens`.
    pub fn new(tokens: &'a Vec<Token>) -> (r: Parser<'a>)
        requires
            ends_with_eof(tokens@),
        ensures
            r.wf(),
            r.tokens() == tokens@,
            r.cursor() == 0,
            ends_with_eof(r.tokens()),
            0 <= r.cursor() < r.tokens().len(),
    {
        Parser { tokens, current: 0 }
    }

    /// The position of the next token to read.
    pub fn position(&self) -> (r: usize)
        ensures
            r == self.cursor(),
    {
        self.current
    }

    /// Parses one expression from the cursor (see `parse_level`). On success
    /// the cursor stands after the expression; on failure, at the token where
    /// the failure was found.
    pub fn parse(&mut self) -> (r: Result<Expr, Error>)
        requires
            old(self).wf(),
        ensures
            final(self).wf(),
            final(self).tokens() == old(self).tokens(),
            ends_with_eof(final(self).tokens()),
            0 <= final(self).cursor() < final(self).tokens().len(),
            agrees(r, parse_level(old(self).tokens(), old(self).cursor(), 0), final(self).cursor()),
    {
        self.expression()
    }

    /// Error recovery: discards tokens up to the next statement boundary
    /// (see `synchronized`).
    pub fn synchronize(&mut self)
        requires
            old(self).wf(),
        ensures
            final(self).wf(),
            final(self).tokens() == old(self).tokens(),
            ends_with_eof(final(self).tokens()),
            0 <= final(self).cursor() < final(self).tokens().len(),
            final(self).cursor() == synchronized(old(self).tokens(), old(self).cursor()),
    {
        self.advance();
        let ghost target = synchronized(self.tokens@, old(self).current as int);
        while !self.at_end()
            invariant
                self.wf(),
                self.tokens == old(self).tokens,
                sync_from(self.tokens@, self.current as int) == target,
                target == synchronized(old(self).tokens@, old(self).current as int),
                self.current >= 1 || self.tokens@[self.current as int].token_type is Eof,
            decreases self.tokens@.len() - self.current,
        {
            if self.previous().token_type == TokenType::Semicolon {
                assert(self.tokens@[self.current - 1].token_type is Semicolon);
                assert(sync_from(self.tokens@, self.current as int) == self.current);
                return;
            }
            match self.peek().token_type {
                TokenType::Class
                | TokenType::Fun
                | TokenType::Var
                | TokenType::For
                | TokenType::If
                | TokenType::While
                | TokenType::Print
                | TokenType::Return => {
                    return;
                },
                _ => {
                    self.advance();
                },
            }
        }
    }

    fn expression(&mut self) -> (r: Result<Expr, Error>)
        requires
            old(self).wf(),
        ensures
            final(self).wf(),
            final(self).tokens == old(self).tokens,
            agrees(r, parse_level(old(self).tokens@, old(self).current as int, 0), final(self).current as int),
            r is Ok ==> final(self).current > old(self).current,
        decreases old(self).tokens@.len() - old(self).current, 16int,
    {
        self.equality()
    }

    /// One binary level: an operand of the next level, then each operator of
    /// this level with the operand after it, folded to the left.
    fn binary_expr(&mut self, level: u8) -> (r: Result<Expr, Error>)
        requires
            old(self).wf(),
            level < 4,
        ensures
            final(self).wf(),
            final(self).tokens == old(self).tokens,
            agrees(r, parse_level(old(self).tokens@, old(self).current as int, level as nat), final(self).current as int),
            r is Ok ==> final(self).current > old(self).current,
        decreases old(self).tokens@.len() - old(self).current, 14 - 3 * level,
    {
        let ghost toks = self.tokens@;
        let ghost start = self.current as int;
        let ghost whole = parse_level(toks, start, level as nat);
        let ops = operators(level);
        let mut expr = match self.next_level(level) {
            Ok(e) => e,
            Err(e) => {
                return Err(e);
            },
        };
        loop
            invariant
                self.wf(),
                self.tokens == old(self).tokens,
                toks == self.tokens@,
                ops@ == level_ops(level as nat),
                level < 4,
                self.current > start,
                start == old(self).current,
                whole == parse_level(old(self).tokens@, old(self).current as int, level as nat),
                fold_level(toks, level as nat, expr, self.current as int) == whole,
            ensures
                self.wf(),
                self.tokens == old(self).tokens,
                self.current > start,
                fold_level(toks, level as nat, expr, self.current as int) == Ok::<(Expr, int), (Failure, int)>((expr, self.current as int)),
                fold_level(toks, level as nat, expr, self.current as int) == whole,
            decreases toks.len() - self.current,
        {
            let ghost p = self.current as int;
            let ghost left = expr;
            if !self.match_token(&ops) {
                break;
            }
            let operator = self.previous();
            let right = match self.next_level(level) {
                Ok(e) => e,
                Err(e) => {
                    assert(fold_level(toks, level as nat, left, p) == parse_level(toks, p + 1, (level + 1) as nat));
                    return Err(e);
                },
            };
            expr = Expr::Binary { left: Box::new(expr), operator, right: Box::new(right) };
        }
        Ok(expr)
    }

    /// The operand of a binary level: the level that binds one step tighter.
    fn next_level(&mut self, level: u8) -> (r: Result<Expr, Error>)
        requires
            old(self).wf(),
            level < 4,
        ensures
            final(self).wf(),
            final(self).tokens == old(self).tokens,
            agrees(r, parse_level(old(self).tokens@, old(self).current as int, (level + 1) as nat), final(self).current as int),
            r is Ok ==> final(self).current > old(self).current,
        decreases old(self).tokens@.len() - old(self).current, 13 - 3 * level,
    {
        if level == 0 {
            self.comparison()
        } else if level == 1 {
            self.term()
        } else if level == 2 {
            self.factor()
        } else {
            self.unary()
        }
    }

    fn equality(&mut self) -> (r: Result<Expr, Error>)
        requires
            old(self).wf(),
        ensures
            final(self).wf(),
            final(self).tokens == old(self).tokens,
            agrees(r, parse_level(old(self).tokens@, old(self).current as int, 0), final(self).current as int),
            r is Ok ==> final(self).current > old(self).current,
        decreases old(self).tokens@.len() - old(self).current, 15int,
    {
        self.binary_expr(0)
    }

    fn comparison(&mut self) -> (r: Result<Expr, Error>)
        requires
            old(self).wf(),
        ensures
            final(self).wf(),
            final(self).tokens == old(self).tokens,
            agrees(r, parse_level(old(self).tokens@, old(self).current as int, 1), final(self).current as int),
            r is Ok ==> final(self).current > old(self).current,
        decreases old(self).tokens@.len() - old(self).current, 12int,
    {
        self.binary_expr(1)
    }

    fn term(&mut self) -> (r: Result<Expr, Error>)
        requires
            old(self).wf(),
        ensures
            final(self).wf(),
            final(self).tokens == old(self).tokens,
            agrees(r, parse_level(old(self).tokens@, old(self).current as int, 2), final(self).current as int),
            r is Ok ==> final(self).current > old(self).current,
        decreases old(self).tokens@.len() - old(self).current, 9int,
    {
        self.binary_expr(2)
    }

    fn factor(&mut self) -> (r: Result<Expr, Error>)
        requires
            old(self).wf(),
        ensures
            final(self).wf(),
            final(self).tokens == old(self).tokens,
            agrees(r, parse_level(old(self).tokens@, old(self).current as int, 3), final(self).current as int),
            r is Ok ==> final(self).current > old(self).current,
        decreases old(self).tokens@.len() - old(self).current, 6int,
    {
        self.binary_expr(3)
    }

    /// A prefix `!` or `-` applied to a unary expression, or a primary.
    fn unary(&mut self) -> (r: Result<Expr, Error>)
        requires
            old(self).wf(),
        ensures
            final(self).wf(),
            final(self).tokens == old(self).tokens,
            agrees(r, parse_level(old(self).tokens@, old(self).current as int, 4), final(self).current as int),
            r is Ok ==> final(self).current > old(self).current,
        decreases old(self).tokens@.len() - old(self).current, 3int,
    {
        let ops = operators(4);
        if self.match_token(&ops) {
            let operator = self.previous();
            let right = match self.unary() {
                Ok(e) => e,
                Err(e) => {
                    return Err(e);
                },
            };
            return Ok(Expr::Unary { operator, right: Box::new(right) });
        }
        self.primary()
    }

    /// A literal, or an expression in parentheses.
    fn primary(&mut self) -> (r: Result<Expr, Error>)
        requires
            old(self).wf(),
        ensures
            final(self).wf(),
            final(self).tokens == old(self).tokens,
            agrees(r, parse_level(old(self).tokens@, old(self).current as int, 5), final(self).current as int),
            r is Ok ==> final(self).current > old(self).current,
        decreases old(self).tokens@.len() - old(self).current, 2int,
    {
        let token_type = self.peek().token_type.clone();
        let expr = match token_type {
            TokenType::False => Expr::Literal { value: Literal::Bool(false) },
            TokenType::True => Expr::Literal { value: Literal::Bool(true) },
            TokenType::Nil => Expr::Literal { value: Literal::Nil },
            TokenType::Number(d) => Expr::Literal { value: Literal::Number(d) },
            TokenType::Stringy(s) => Expr::Literal { value: Literal::Stringy(s) },
            TokenType::LeftParen => {
                self.advance();
                let inner = match self.expression() {
                    Ok(e) => e,
                    Err(e) => {
                        return Err(e);
                    },
                };
                match self.consume(TokenType::RightParen, "Expect ')' after expression") {
                    Ok(_) => {},
                    Err(e) => {
                        return Err(e);
                    },
                }
                return Ok(Expr::Grouping { expression: Box::new(inner) });
            },
            _ => {
                return Err(Error::ParseErr("Expect expression.".to_owned()));
            },
        };
        self.advance();
        Ok(expr)
    }

    /// Takes the token at the cursor if it has the category `token_type`;
    /// else fails with `message`, the cursor left where it is.
    fn consume(&mut self, token_type: TokenType, message: &str) -> (r: Result<Token, Error>)
        requires
            old(self).wf(),
        ensures
            final(self).wf(),
            final(self).tokens == old(self).tokens,
            r is Ok <==> (!(old(self).tokens@[old(self).current as int].token_type is Eof) && same_category(
                old(self).tokens@[old(self).current as int].token_type,
                token_type,
            )),
            r is Ok ==> final(self).current == old(self).current + 1,
            r matches Ok(t) ==> t == old(self).tokens@[old(self).current as int],
            r matches Err(e) ==> e matches Error::ParseErr(m) && m@ == message@ && final(self).current
                == old(self).current,
    {
        if self.check_token(&token_type) {
            return Ok(self.advance());
        }
        Err(Error::ParseErr(message.to_owned()))
    }

    /// The token before the cursor.
    fn previous(&self) -> (r: Token)
        requires
            self.wf(),
            self.current >= 1,
        ensures
            r == self.tokens@[self.current - 1],
    {
        self.tokens[self.current - 1].clone()
    }

    /// Whether the token at the cursor has the category `token_type` (never
    /// at the end of input).
    fn check_token(&self, token_type: &TokenType) -> (r: bool)
        requires
            self.wf(),
        ensures
            r == (!(self.tokens@[self.current as int].token_type is Eof) && same_category(
                self.tokens@[self.current as int].token_type,
                *token_type,
            )),
    {
        if self.at_end() {
            false
        } else {
            self.peek().token_type == *token_type
        }
    }

    /// Returns the token at the cursor and moves past it, unless it ends the
    /// input: the cursor then stays where it is.
    fn advance(&mut self) -> (r: Token)
        requires
            old(self).wf(),
        ensures
            final(self).wf(),
            final(self).tokens == old(self).tokens,
            final(self).current == old(self).current + if old(self).tokens@[old(self).current as int].token_type is Eof {
                0int
            } else {
                1int
            },
            r == old(self).tokens@[old(self).current as int],
    {
        assert(self.tokens@.len() == self.tokens.len());
        if self.at_end() {
            return self.peek().clone();
        }
        self.current = self.current + 1;
        self.previous()
    }

    fn peek(&self) -> (r: &Token)
        requires
            self.wf(),
        ensures
            *r == self.tokens@[self.current as int],
    {
        &self.tokens[self.current]
    }

    fn at_end(&self) -> (r: bool)
        requires
            self.wf(),
        ensures
            r == (self.tokens@[self.current as int].token_type is Eof),
    {
        match self.peek().token_type {
            TokenType::Eof => true,
            _ => false,
        }
    }

    /// Takes the token at the cursor if its category is one of `token_types`.
    fn match_token(&mut self, token_types: &Vec<TokenType>) -> (r: bool)
        requires
            old(self).wf(),
        ensures
            final(self).wf(),
            final(self).tokens == old(self).tokens,
            r == lookahead_in(old(self).tokens@, old(self).current as int, token_types@),
            final(self).current == old(self).current + if r {
                1int
            } else {
                0int
            },
    {
        let mut i: usize = 0;
        while i < token_types.len()
            invariant
                *self == *old(self),
                self.wf(),
                i <= token_types@.len(),
                forall|j: int|
                    0 <= j < i ==> !(!(self.tokens@[self.current as int].token_type is Eof) && same_category(
                        self.tokens@[self.current as int].token_type,
                        #[trigger] token_types@[j],
                    )),
            decreases token_types@.len() - i,
        {
            if self.check_token(&token_types[i]) {
                self.advance();
                return true;
            }
            i = i + 1;
        }
        false
    }
}

} // verus!
