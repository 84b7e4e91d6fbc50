//! The parser: consumes a fully buffered token stream and produces an
//! ordered sequence of statements by recursive descent with one-token
//! lookahead plus one-token lookahead of lookahead. Positions out of range
//! read as the end-of-input sentinel.

use vstd::prelude::*;
use vstd::string::StrSliceExecFns;

use crate::ast::BinOp;
use crate::ast::Expr;
use crate::ast::ExprModel;
use crate::ast::Stmt;
use crate::ast::StmtModel;
use crate::lexer::is_digit_char;
use crate::token::Token;
use crate::token::TokenModel;
use crate::token::tokens_view;

verus! {

/// A parsing failure: the token stream does not match the grammar.
#[derive(Debug, PartialEq, Eq, Clone, Copy)]
pub enum ParseError {
    /// A `let` keyword is not followed by an identifier.
    ExpectedIdentifier,
    /// The identifier of a `let` statement is not followed by `=`.
    ExpectedAssign,
    /// A `print` keyword is not followed by `(`.
    ExpectedLparen,
    /// A printed expression is not followed by `)`.
    ExpectedRparen,
    /// A token at primary position is neither an integer nor an identifier.
    UnexpectedToken,
    /// An integer literal's text is not a decimal number fitting in `i64`.
    InvalidIntegerLiteral,
}

/// The token at a position of the stream; out-of-range positions read as the
/// end-of-input sentinel.
pub open spec fn tok_at(ts: Seq<TokenModel>, p: int) -> TokenModel {
    if 0 <= p < ts.len() {
        ts[p]
    } else {
        TokenModel::Eof
    }
}

/// One step forward over the stream, saturating at its end: beyond the last
/// token everything reads as the sentinel, so no information is lost.
pub open spec fn adv(ts: Seq<TokenModel>, p: int) -> int {
    if p < ts.len() {
        p + 1
    } else {
        ts.len() as int
    }
}

/// The numeric value of a decimal digit character.
pub open spec fn digit_val(c: char) -> int {
    c as u32 - '0' as u32
}

/// Whether the text consists of decimal digits only.
pub open spec fn all_digits(s: Seq<char>) -> bool {
    forall|i: int| 0 <= i < s.len() ==> is_digit_char(s[i])
}

/// The value of a digit string, most significant digit first.
pub open spec fn digits_val(s: Seq<char>) -> int
    decreases s.len(),
{
    if s.len() == 0 {
        0
    } else {
        digits_val(s.drop_last()) * 10 + digit_val(s.last())
    }
}

/// The 64-bit signed integer an integer literal's text denotes: defined
/// exactly when the text is nonempty, all digits, and the value fits.
pub open spec fn spec_parse_int(s: Seq<char>) -> Option<i64> {
    if s.len() > 0 && all_digits(s) && digits_val(s) <= i64::MAX {
        Some(digits_val(s) as i64)
    } else {
        None
    }
}

proof fn lemma_digits_val_nonneg(s: Seq<char>)
    requires
        all_digits(s),
    ensures
        digits_val(s) >= 0,
    decreases s.len(),
{
    if s.len() > 0 {
        assert forall|i: int| 0 <= i < s.drop_last().len() implies is_digit_char(
            s.drop_last()[i],
        ) by {
            assert(s.drop_last()[i] == s[i]);
        }
        lemma_digits_val_nonneg(s.drop_last());
        assert(is_digit_char(s.last()));
    }
}

/// A digit string's value never falls below the value of any of its
/// prefixes: appending digits multiplies by ten and adds.
proof fn lemma_digits_val_prefix_le(s: Seq<char>, k: int)
    requires
        all_digits(s),
        0 <= k <= s.len(),
    ensures
        digits_val(s.take(k)) <= digits_val(s),
    decreases s.len() - k,
{
    if k < s.len() {
        let t = s.take(k + 1);
        assert(t.drop_last() =~= s.take(k));
        assert(t.last() == s[k]);
        assert forall|i: int| 0 <= i < s.take(k).len() implies is_digit_char(s.take(k)[i]) by {
            assert(s.take(k)[i] == s[i]);
        }
        lemma_digits_val_nonneg(s.take(k));
        assert(is_digit_char(s[k]));
        assert(digits_val(s.take(k)) <= digits_val(t));
        lemma_digits_val_prefix_le(s, k + 1);
    } else {
        assert(s.take(k) =~= s);
    }
}

/// Parse an integer literal's text into a 64-bit signed integer, rejecting
/// empty text, non-digit characters and values past `i64::MAX`.
pub fn parse_int_literal(text: &str) -> (r: Option<i64>)
    ensures
        r == spec_parse_int(text@),
{
    let n = text.unicode_len();
    if n == 0 {
        return None;
    }
    let mut acc: i64 = 0;
    let mut i: usize = 0;
    while i < n
        invariant
            n == text@.len(),
            0 <= i <= n,
            forall|j: int| 0 <= j < i ==> is_digit_char(text@[j]),
            0 <= acc,
            acc as int == digits_val(text@.take(i as int)),
        decreases n - i,
    {
        let c = text.get_char(i);
        if c < '0' || c > '9' {
            proof {
                assert(!is_digit_char(text@[i as int]));
            }
            return None;
        }
        let d: u32 = (c as u32) - ('0' as u32);
        proof {
            assert(text@.take(i as int + 1).drop_last() =~= text@.take(i as int));
            assert(text@.take(i as int + 1).last() == text@[i as int]);
        }
        let limit: i64 = 922337203685477580;
        if acc > limit || (acc == limit && d > 7) {
            proof {
                if all_digits(text@) {
                    lemma_digits_val_prefix_le(text@, i as int + 1);
                }
            }
            return None;
        }
        acc = acc * 10 + (d as i64);
        i = i + 1;
    }
    proof {
        assert(text@.take(n as int) =~= text@);
    }
    Some(acc)
}

/// A primary expression: exactly an integer literal or an identifier at the
/// current position. Consumes no tokens.
pub open spec fn spec_parse_primary(ts: Seq<TokenModel>, p: int) -> Result<ExprModel, ParseError> {
    match tok_at(ts, p) {
        TokenModel::Int(text) => match spec_parse_int(text) {
            Some(v) => Ok(ExprModel::Int(v)),
            None => Err(ParseError::InvalidIntegerLiteral),
        },
        TokenModel::Ident(name) => Ok(ExprModel::Ident(name)),
        _ => Err(ParseError::UnexpectedToken),
    }
}

/// Whether a token is one of the four infix operators.
pub open spec fn is_op_token(t: TokenModel) -> bool {
    t is Plus || t is Dash || t is Asterisk || t is ForwardSlash
}

/// The operator a token stands for.
pub open spec fn op_of(t: TokenModel) -> BinOp {
    match t {
        TokenModel::Plus => BinOp::Plus,
        TokenModel::Dash => BinOp::Minus,
        TokenModel::Asterisk => BinOp::Times,
        _ => BinOp::Divide,
    }
}

/// The operator-and-primary tail of an infix expression, folded strictly
/// left-associatively onto `acc`: while the next token is an operator,
/// consume it and the following primary. One precedence tier only. Ends at
/// the last token of the expression.
pub open spec fn spec_parse_infix_rest(ts: Seq<TokenModel>, p: int, acc: ExprModel) -> Result<
    (ExprModel, int),
    ParseError,
>
    decreases ts.len() - p,
{
    if p + 1 < ts.len() && is_op_token(ts[p + 1]) {
        let op = op_of(ts[p + 1]);
        let p2 = adv(ts, adv(ts, p));
        match spec_parse_primary(ts, p2) {
            Ok(rhs) => spec_parse_infix_rest(
                ts,
                p2,
                ExprModel::Infix(Box::new(acc), op, Box::new(rhs)),
            ),
            Err(e) => Err(e),
        }
    } else {
        Ok((acc, p))
    }
}

/// A whole expression: one primary, then the folded operator tail.
pub open spec fn spec_parse_expression(ts: Seq<TokenModel>, p: int) -> Result<
    (ExprModel, int),
    ParseError,
> {
    match spec_parse_primary(ts, p) {
        Ok(e) => spec_parse_infix_rest(ts, p, e),
        Err(e) => Err(e),
    }
}

/// A `let` statement: `let IDENT = expr [;]`, starting at the `let` token.
/// A trailing semicolon is consumed if present.
pub open spec fn spec_parse_let(ts: Seq<TokenModel>, p: int) -> Result<
    (StmtModel, int),
    ParseError,
> {
    let p1 = adv(ts, p);
    match tok_at(ts, p1) {
        TokenModel::Ident(name) => {
            let p2 = adv(ts, p1);
            if tok_at(ts, p2) is Assign {
                let p3 = adv(ts, p2);
                match spec_parse_expression(ts, p3) {
                    Ok((e, pe)) => {
                        let pend = if tok_at(ts, pe + 1) is Semicolon {
                            adv(ts, pe)
                        } else {
                            pe
                        };
                        Ok((StmtModel::Let(name, e), pend))
                    },
                    Err(er) => Err(er),
                }
            } else {
                Err(ParseError::ExpectedAssign)
            }
        },
        _ => Err(ParseError::ExpectedIdentifier),
    }
}

/// A `print` statement: `print ( expr ) [;]`, starting at the `print`
/// token. The statement ends at the closing parenthesis; a trailing
/// semicolon is consumed if present.
pub open spec fn spec_parse_print(ts: Seq<TokenModel>, p: int) -> Result<
    (StmtModel, int),
    ParseError,
> {
    let p1 = adv(ts, p);
    if tok_at(ts, p1) is Lparen {
        let p2 = adv(ts, p1);
        match spec_parse_expression(ts, p2) {
            Ok((e, pe)) => {
                let p3 = adv(ts, pe);
                if tok_at(ts, p3) is Rparen {
                    let pend = if tok_at(ts, p3 + 1) is Semicolon {
                        adv(ts, p3)
                    } else {
                        p3
                    };
                    Ok((StmtModel::Print(e), pend))
                } else {
                    Err(ParseError::ExpectedRparen)
                }
            },
            Err(er) => Err(er),
        }
    } else {
        Err(ParseError::ExpectedLparen)
    }
}

/// An expression statement: a bare expression, with a trailing semicolon
/// consumed if present.
pub open spec fn spec_parse_expr_stmt(ts: Seq<TokenModel>, p: int) -> Result<
    (StmtModel, int),
    ParseError,
> {
    match spec_parse_expression(ts, p) {
        Ok((e, pe)) => {
            let pend = if tok_at(ts, pe + 1) is Semicolon {
                adv(ts, pe)
            } else {
                pe
            };
            Ok((StmtModel::Expr(e), pend))
        },
        Err(er) => Err(er),
    }
}

/// One statement, dispatched on the current token: `let`, `print`, or a
/// bare expression.
pub open spec fn spec_parse_stmt(ts: Seq<TokenModel>, p: int) -> Result<
    (StmtModel, int),
    ParseError,
> {
    match tok_at(ts, p) {
        TokenModel::Let => spec_parse_let(ts, p),
        TokenModel::Print => spec_parse_print(ts, p),
        _ => spec_parse_expr_stmt(ts, p),
    }
}

/// A whole program: statements one after another until the current token is
/// the end-of-input sentinel. A statement never ends before it began; the
/// bound on `q` records that, keeping the recursion well-founded.
pub open spec fn spec_parse_stmts(ts: Seq<TokenModel>, p: int) -> Result<Seq<StmtModel>, ParseError>
    decreases ts.len() - p,
{
    if tok_at(ts, p) is Eof {
        Ok(Seq::empty())
    } else {
        match spec_parse_stmt(ts, p) {
            Ok((st, p1)) => {
                let q = if p1 < p {
                    p
                } else {
                    p1
                };
                match spec_parse_stmts(ts, adv(ts, q)) {
                    Ok(rest) => Ok(seq![st] + rest),
                    Err(e) => Err(e),
                }
            },
            Err(e) => Err(e),
        }
    }
}

/// The parser: the buffered token stream and the current position.
pub struct Parser {
    tokens: Vec<Token>,
    position: usize,
}

impl Parser {
    /// The model of the buffered token stream.
    pub closed spec fn toks(self) -> Seq<TokenModel> {
        tokens_view(self.tokens@)
    }

    /// The model of the current position.
    pub closed spec fn pos(self) -> int {
        self.position as int
    }

    /// The position stays inside the stream, one past the last token at
    /// most.
    pub closed spec fn wf(self) -> bool {
        self.position <= self.tokens@.len()
    }

    pub fn new(tokens: Vec<Token>) -> (p: Parser)
        ensures
            p.wf(),
            p.toks() == tokens_view(tokens@),
            p.pos() == 0,
    {
        Parser { tokens, position: 0 }
    }

    /// The current token; the sentinel once the stream is exhausted.
    fn curr(&self) -> (t: &Token)
        requires
            self.wf(),
        ensures
            t@ == tok_at(self.toks(), self.pos()),
    {
        if self.position < self.tokens.len() {
            &self.tokens[self.position]
        } else {
            &Token::Eof
        }
    }

    /// The token one past the current one; the sentinel once the stream is
    /// exhausted.
    fn peek(&self) -> (t: &Token)
        requires
            self.wf(),
        ensures
            t@ == tok_at(self.toks(), self.pos() + 1),
    {
        if self.position < self.tokens.len() {
            let j = self.position + 1;
            if j < self.tokens.len() {
                &self.tokens[j]
            } else {
                &Token::Eof
            }
        } else {
            &Token::Eof
        }
    }

    /// Step one token forward, saturating at the end of the stream.
    fn next_token(&mut self)
        requires
            old(self).wf(),
        ensures
            final(self).wf(),
            final(self).toks() == old(self).toks(),
            final(self).pos() == adv(old(self).toks(), old(self).pos()),
    {
        if self.position < self.tokens.len() {
            self.position = self.position + 1;
        }
    }

    /// Parse a primary expression at the current position without advancing.
    fn parse_primary(&self) -> (r: Result<Expr, ParseError>)
        requires
            self.wf(),
        ensures
            (match spec_parse_primary(self.toks(), self.pos()) {
                Ok(e) => r matches Ok(x) && x@ == e,
                Err(er) => r matches Err(x) && x == er,
            }),
    {
        match self.curr() {
            Token::Int(text) => match parse_int_literal(text.as_str()) {
                Some(v) => Ok(Expr::Int(v)),
                None => Err(ParseError::InvalidIntegerLiteral),
            },
            Token::Ident(name) => Ok(Expr::Ident(name.clone())),
            _ => Err(ParseError::UnexpectedToken),
        }
    }

    /// Parse one expression: a primary, then the folded operator tail.
    fn parse_expression(&mut self) -> (r: Result<Expr, ParseError>)
        requires
            old(self).wf(),
        ensures
            final(self).wf(),
            final(self).toks() == old(self).toks(),
            final(self).pos() >= old(self).pos(),
            (match spec_parse_expression(old(self).toks(), old(self).pos()) {
                Ok((e, pe)) => r matches Ok(x) && x@ == e && final(self).pos() == pe,
                Err(er) => r matches Err(x) && x == er,
            }),
    {
        self.parse_infix_expression()
    }

    /// Fold operator-and-primary pairs onto the leftmost primary, strictly
    /// left-associatively, while the next token is an operator.
    fn parse_infix_expression(&mut self) -> (r: Result<Expr, ParseError>)
        requires
            old(self).wf(),
        ensures
            final(self).wf(),
            final(self).toks() == old(self).toks(),
            final(self).pos() >= old(self).pos(),
            (match spec_parse_expression(old(self).toks(), old(self).pos()) {
                Ok((e, pe)) => r matches Ok(x) && x@ == e && final(self).pos() == pe,
                Err(er) => r matches Err(x) && x == er,
            }),
    {
        let mut left = match self.parse_primary() {
            Ok(e) => e,
            Err(er) => {
                return Err(er);
            },
        };
        loop
            invariant
                self.wf(),
                self.toks() == old(self).toks(),
                self.pos() >= old(self).pos(),
                (match spec_parse_infix_rest(self.toks(), self.pos(), left@) {
                    Ok(res) => spec_parse_expression(old(self).toks(), old(self).pos()) == Ok::<
                        (ExprModel, int),
                        ParseError,
                    >(res),
                    Err(er) => spec_parse_expression(old(self).toks(), old(self).pos()) == Err::<
                        (ExprModel, int),
                        ParseError,
                    >(er),
                }),
            decreases self.toks().len() - self.pos(),
        {
            let is_op = matches!(
                self.peek(),
                Token::Plus | Token::Dash | Token::Asterisk | Token::ForwardSlash
            );
            if !is_op {
                return Ok(left);
            }
            let op = match self.peek() {
                Token::Plus => BinOp::Plus,
                Token::Dash => BinOp::Minus,
                Token::Asterisk => BinOp::Times,
                _ => BinOp::Divide,
            };
            self.next_token();
            self.next_token();
            let right = match self.parse_primary() {
                Ok(e) => e,
                Err(er) => {
                    return Err(er);
                },
            };
            left = Expr::Infix(Box::new(left), op, Box::new(right));
        }
    }

    /// Parse `let IDENT = expr [;]`, the current token being `let`.
    fn parse_let_statement(&mut self) -> (r: Result<Stmt, ParseError>)
        requires
            old(self).wf(),
        ensures
            final(self).wf(),
            final(self).toks() == old(self).toks(),
            final(self).pos() >= old(self).pos(),
            (match spec_parse_let(old(self).toks(), old(self).pos()) {
                Ok((st, pend)) => r matches Ok(s) && s@ == st && final(self).pos() == pend,
                Err(er) => r matches Err(x) && x == er,
            }),
    {
        self.next_token();
        let name = match self.curr() {
            Token::Ident(n) => n.clone(),
            _ => {
                return Err(ParseError::ExpectedIdentifier);
            },
        };
        self.next_token();
        if !matches!(self.curr(), Token::Assign) {
            return Err(ParseError::ExpectedAssign);
        }
        self.next_token();
        let value = match self.parse_expression() {
            Ok(e) => e,
            Err(er) => {
                return Err(er);
            },
        };
        if matches!(self.peek(), Token::Semicolon) {
            self.next_token();
        }
        Ok(Stmt::Let(name, value))
    }

    /// Parse `print ( expr ) [;]`, the current token being `print`.
    fn parse_print_statement(&mut self) -> (r: Result<Stmt, ParseError>)
        requires
            old(self).wf(),
        ensures
            final(self).wf(),
            final(self).toks() == old(self).toks(),
            final(self).pos() >= old(self).pos(),
            (match spec_parse_print(old(self).toks(), old(self).pos()) {
                Ok((st, pend)) => r matches Ok(s) && s@ == st && final(self).pos() == pend,
                Err(er) => r matches Err(x) && x == er,
            }),
    {
        self.next_token();
        if !matches!(self.curr(), Token::Lparen) {
            return Err(ParseError::ExpectedLparen);
        }
        self.next_token();
        let value = match self.parse_expression() {
            Ok(e) => e,
            Err(er) => {
                return Err(er);
            },
        };
        self.next_token();
        if !matches!(self.curr(), Token::Rparen) {
            return Err(ParseError::ExpectedRparen);
        }
        if matches!(self.peek(), Token::Semicolon) {
            self.next_token();
        }
        Ok(Stmt::Print(value))
    }

    /// Parse a bare expression statement with its optional semicolon.
    fn parse_expression_statement(&mut self) -> (r: Result<Stmt, ParseError>)
        requires
            old(self).wf(),
        ensures
            final(self).wf(),
            final(self).toks() == old(self).toks(),
            final(self).pos() >= old(self).pos(),
            (match spec_parse_expr_stmt(old(self).toks(), old(self).pos()) {
                Ok((st, pend)) => r matches Ok(s) && s@ == st && final(self).pos() == pend,
                Err(er) => r matches Err(x) && x == er,
            }),
    {
        let expr = match self.parse_expression() {
            Ok(e) => e,
            Err(er) => {
                return Err(er);
            },
        };
        if matches!(self.peek(), Token::Semicolon) {
            self.next_token();
        }
        Ok(Stmt::Expr(expr))
    }

    /// Parse one statement, dispatched on the current token.
    fn parse_stmt(&mut self) -> (r: Result<Stmt, ParseError>)
        requires
            old(self).wf(),
        ensures
            final(self).wf(),
            final(self).toks() == old(self).toks(),
            final(self).pos() >= old(self).pos(),
            (match spec_parse_stmt(old(self).toks(), old(self).pos()) {
                Ok((st, pend)) => r matches Ok(s) && s@ == st && final(self).pos() == pend,
                Err(er) => r matches Err(x) && x == er,
            }),
    {
        let is_let = matches!(self.curr(), Token::Let);
        let is_print = matches!(self.curr(), Token::Print);
        if is_let {
            self.parse_let_statement()
        } else if is_print {
            self.parse_print_statement()
        } else {
            self.parse_expression_statement()
        }
    }

    /// Parse the whole buffered stream into a statement sequence, stopping
    /// at the end-of-input sentinel, or fail on the first malformed
    /// statement.
    pub fn parse(&mut self) -> (r: Result<Vec<Stmt>, ParseError>)
        requires
            old(self).wf(),
        ensures
            final(self).wf(),
            final(self).toks() == old(self).toks(),
            final(self).pos() >= old(self).pos(),
            (match spec_parse_stmts(old(self).toks(), old(self).pos()) {
                Ok(sts) => r matches Ok(v) && crate::ast::stmts_view(v@) == sts,
                Err(e) => r matches Err(x) && x == e,
            }),
    {
        let mut stmts: Vec<Stmt> = Vec::new();
        loop
            invariant
                self.wf(),
                self.toks() == old(self).toks(),
                self.pos() >= old(self).pos(),
                (match spec_parse_stmts(self.toks(), self.pos()) {
                    Ok(rest) => spec_parse_stmts(old(self).toks(), old(self).pos()) == Ok::<
                        Seq<StmtModel>,
                        ParseError,
                    >(crate::ast::stmts_view(stmts@) + rest),
                    Err(e) => spec_parse_stmts(old(self).toks(), old(self).pos()) == Err::<
                        Seq<StmtModel>,
                        ParseError,
                    >(e),
                }),
            decreases self.toks().len() - self.pos(),
        {
            let at_eof = matches!(self.curr(), Token::Eof);
            if at_eof {
                proof {
                    assert(spec_parse_stmts(self.toks(), self.pos()) == Ok::<
                        Seq<StmtModel>,
                        ParseError,
                    >(Seq::empty()));
                    assert(crate::ast::stmts_view(stmts@) + Seq::<StmtModel>::empty()
                        =~= crate::ast::stmts_view(stmts@));
                }
                return Ok(stmts);
            }
            let ghost p0 = self.pos();
            let ghost stmts_pre = stmts@;
            let st = match self.parse_stmt() {
                Ok(s) => s,
                Err(e) => {
                    proof {
                        assert(spec_parse_stmts(self.toks(), p0) == Err::<
                            Seq<StmtModel>,
                            ParseError,
                        >(e));
                    }
                    return Err(e);
                },
            };
            stmts.push(st);
            self.next_token();
            proof {
                assert(crate::ast::stmts_view(stmts@) =~= crate::ast::stmts_view(stmts_pre).push(
                    st@,
                ));
                assert(crate::ast::stmts_view(stmts_pre).push(st@) =~= crate::ast::stmts_view(
                    stmts_pre,
                ) + seq![st@]);
                let rest0 = spec_parse_stmts(self.toks(), self.pos());
                if rest0 is Ok {
                    assert((crate::ast::stmts_view(stmts_pre) + seq![st@]) + rest0->Ok_0
                        =~= crate::ast::stmts_view(stmts_pre) + (seq![st@] + rest0->Ok_0));
                }
            }
        }
    }
}

} // verus!
