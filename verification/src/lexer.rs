//! The lexer: converts a source string into a sequential stream of tokens,
//! one token per call, terminating with an end-of-input sentinel that, once
//! produced, is returned on every later call.

use vstd::prelude::*;
use vstd::string::StrSliceExecFns;

use crate::token::spec_keyword_token;
use crate::token::keyword_or_ident;
use crate::token::Token;
use crate::token::TokenModel;
use crate::token::tokens_view;

verus! {

/// A lexing failure: the character is not whitespace and starts no lexeme.
/// This covers all non-ASCII input.
#[derive(Debug, PartialEq, Eq, Clone, Copy)]
pub enum LexError {
    InvalidChar(char),
}

/// The whitespace characters the lexer skips.
pub open spec fn is_ws_char(c: char) -> bool {
    c == ' ' || c == '\t' || c == '\n' || c == '\r'
}

/// The characters that may begin an identifier.
pub open spec fn is_letter_char(c: char) -> bool {
    ('a' <= c && c <= 'z') || ('A' <= c && c <= 'Z') || c == '_'
}

/// The decimal digits.
pub open spec fn is_digit_char(c: char) -> bool {
    '0' <= c && c <= '9'
}

/// The characters that may continue an identifier.
pub open spec fn is_ident_char(c: char) -> bool {
    is_letter_char(c) || is_digit_char(c)
}

/// The length of the identifier lexeme at the head of `s`: the longest
/// prefix of identifier characters.
pub open spec fn ident_len(s: Seq<char>) -> nat
    decreases s.len(),
{
    if s.len() == 0 || !is_ident_char(s[0]) {
        0
    } else {
        (1 + ident_len(s.skip(1))) as nat
    }
}

/// The length of the integer lexeme at the head of `s`: the longest prefix
/// of digits.
pub open spec fn digits_len(s: Seq<char>) -> nat
    decreases s.len(),
{
    if s.len() == 0 || !is_digit_char(s[0]) {
        0
    } else {
        (1 + digits_len(s.skip(1))) as nat
    }
}

/// The characters that may begin a lexeme. Everything else — in particular
/// every non-ASCII character — is rejected by the lexer.
pub open spec fn starts_lexeme(c: char) -> bool {
    ||| is_letter_char(c)
    ||| is_digit_char(c)
    ||| c == '='
    ||| c == '!'
    ||| c == '+'
    ||| c == '-'
    ||| c == '*'
    ||| c == '/'
    ||| c == '<'
    ||| c == '>'
    ||| c == ','
    ||| c == ';'
    ||| c == '('
    ||| c == ')'
    ||| c == '{'
    ||| c == '}'
}

/// One step of lexing: skip whitespace, then classify the next lexeme by its
/// first character. Produces the token and the unread remainder of the
/// input, or the offending character. Exhausted input produces `Eof` with
/// nothing left, so `Eof` is terminal.
pub open spec fn spec_next_token(s: Seq<char>) -> Result<(TokenModel, Seq<char>), char>
    decreases s.len(),
{
    if s.len() == 0 {
        Ok((TokenModel::Eof, s))
    } else if is_ws_char(s[0]) {
        spec_next_token(s.skip(1))
    } else if is_letter_char(s[0]) {
        Ok((spec_keyword_token(s.take(ident_len(s) as int)), s.skip(ident_len(s) as int)))
    } else if is_digit_char(s[0]) {
        Ok((TokenModel::Int(s.take(digits_len(s) as int)), s.skip(digits_len(s) as int)))
    } else if s[0] == '=' {
        if s.len() >= 2 && s[1] == '=' {
            Ok((TokenModel::Equal, s.skip(2)))
        } else {
            Ok((TokenModel::Assign, s.skip(1)))
        }
    } else if s[0] == '!' {
        if s.len() >= 2 && s[1] == '=' {
            Ok((TokenModel::NotEqual, s.skip(2)))
        } else {
            Ok((TokenModel::Bang, s.skip(1)))
        }
    } else if s[0] == '+' {
        Ok((TokenModel::Plus, s.skip(1)))
    } else if s[0] == '-' {
        Ok((TokenModel::Dash, s.skip(1)))
    } else if s[0] == '*' {
        Ok((TokenModel::Asterisk, s.skip(1)))
    } else if s[0] == '/' {
        Ok((TokenModel::ForwardSlash, s.skip(1)))
    } else if s[0] == '<' {
        Ok((TokenModel::LessThan, s.skip(1)))
    } else if s[0] == '>' {
        Ok((TokenModel::GreaterThan, s.skip(1)))
    } else if s[0] == ',' {
        Ok((TokenModel::Comma, s.skip(1)))
    } else if s[0] == ';' {
        Ok((TokenModel::Semicolon, s.skip(1)))
    } else if s[0] == '(' {
        Ok((TokenModel::Lparen, s.skip(1)))
    } else if s[0] == ')' {
        Ok((TokenModel::Rparen, s.skip(1)))
    } else if s[0] == '{' {
        Ok((TokenModel::LSquirly, s.skip(1)))
    } else if s[0] == '}' {
        Ok((TokenModel::RSquirly, s.skip(1)))
    } else {
        Err(s[0])
    }
}

/// The whole token stream of a source string: every token in order, ending
/// with `Eof`, or the first invalid character.
pub open spec fn spec_tokenize(s: Seq<char>) -> Result<Seq<TokenModel>, char>
    decreases s.len(),
    via spec_tokenize_decreases
{
    match spec_next_token(s) {
        Ok((t, rest)) => {
            if t is Eof {
                Ok(seq![TokenModel::Eof])
            } else {
                match spec_tokenize(rest) {
                    Ok(ts) => Ok(seq![t] + ts),
                    Err(c) => Err(c),
                }
            }
        },
        Err(c) => Err(c),
    }
}

#[via_fn]
proof fn spec_tokenize_decreases(s: Seq<char>) {
    lemma_next_token_progress(s);
}

proof fn lemma_ident_len_le(s: Seq<char>)
    ensures
        ident_len(s) <= s.len(),
    decreases s.len(),
{
    if s.len() != 0 && is_ident_char(s[0]) {
        lemma_ident_len_le(s.skip(1));
    }
}

proof fn lemma_digits_len_le(s: Seq<char>)
    ensures
        digits_len(s) <= s.len(),
    decreases s.len(),
{
    if s.len() != 0 && is_digit_char(s[0]) {
        lemma_digits_len_le(s.skip(1));
    }
}

/// A maximal run of identifier characters at the head of `s` pins down
/// `ident_len`.
proof fn lemma_ident_len_is(s: Seq<char>, k: nat)
    requires
        k <= s.len(),
        forall|j: int| 0 <= j < k ==> is_ident_char(s[j]),
        k < s.len() ==> !is_ident_char(s[k as int]),
    ensures
        ident_len(s) == k,
    decreases s.len(),
{
    if k == 0 {
    } else {
        assert(is_ident_char(s[0]));
        assert forall|j: int| 0 <= j < k - 1 implies is_ident_char(s.skip(1)[j]) by {
            assert(s.skip(1)[j] == s[j + 1]);
        }
        if k < s.len() {
            assert(s.skip(1)[k - 1] == s[k as int]);
        }
        lemma_ident_len_is(s.skip(1), (k - 1) as nat);
    }
}

/// A maximal run of digits at the head of `s` pins down `digits_len`.
proof fn lemma_digits_len_is(s: Seq<char>, k: nat)
    requires
        k <= s.len(),
        forall|j: int| 0 <= j < k ==> is_digit_char(s[j]),
        k < s.len() ==> !is_digit_char(s[k as int]),
    ensures
        digits_len(s) == k,
    decreases s.len(),
{
    if k == 0 {
    } else {
        assert(is_digit_char(s[0]));
        assert forall|j: int| 0 <= j < k - 1 implies is_digit_char(s.skip(1)[j]) by {
            assert(s.skip(1)[j] == s[j + 1]);
        }
        if k < s.len() {
            assert(s.skip(1)[k - 1] == s[k as int]);
        }
        lemma_digits_len_is(s.skip(1), (k - 1) as nat);
    }
}

/// Each produced token consumes part of the input, and `Eof` is produced
/// exactly when nothing but whitespace is left.
proof fn lemma_next_token_progress(s: Seq<char>)
    ensures
        (match spec_next_token(s) {
            Ok((t, rest)) => {
                &&& rest.len() <= s.len()
                &&& (t is Eof ==> rest.len() == 0)
                &&& (!(t is Eof) ==> rest.len() < s.len())
            },
            Err(_) => true,
        }),
    decreases s.len(),
{
    if s.len() == 0 {
    } else if is_ws_char(s[0]) {
        lemma_next_token_progress(s.skip(1));
    } else if is_letter_char(s[0]) {
        lemma_ident_len_le(s);
        assert(ident_len(s) >= 1);
    } else if is_digit_char(s[0]) {
        lemma_digits_len_le(s);
        assert(digits_len(s) >= 1);
    }
}

/// Tokenizing input that is empty or holds only whitespace yields exactly
/// the single end-of-input sentinel.
pub proof fn lemma_tokenize_all_whitespace(s: Seq<char>)
    requires
        forall|i: int| 0 <= i < s.len() ==> is_ws_char(s[i]),
    ensures
        spec_tokenize(s) == Ok::<Seq<TokenModel>, char>(seq![TokenModel::Eof]),
{
    lemma_next_token_all_ws(s);
}

proof fn lemma_next_token_all_ws(s: Seq<char>)
    requires
        forall|i: int| 0 <= i < s.len() ==> is_ws_char(s[i]),
    ensures
        spec_next_token(s) == Ok::<(TokenModel, Seq<char>), char>((
            TokenModel::Eof,
            Seq::<char>::empty(),
        )),
    decreases s.len(),
{
    if s.len() == 0 {
        assert(s =~= Seq::<char>::empty());
    } else {
        assert(is_ws_char(s[0]));
        assert forall|i: int| 0 <= i < s.skip(1).len() implies is_ws_char(s.skip(1)[i]) by {
            assert(s.skip(1)[i] == s[i + 1]);
        }
        lemma_next_token_all_ws(s.skip(1));
    }
}

/// Tokenizing input whose first character is neither whitespace nor the
/// start of any lexeme — for example any non-ASCII character — fails, and
/// reports that character.
pub proof fn lemma_tokenize_unsupported_char(s: Seq<char>)
    requires
        s.len() > 0,
        !is_ws_char(s[0]),
        !starts_lexeme(s[0]),
    ensures
        spec_tokenize(s) == Err::<Seq<TokenModel>, char>(s[0]),
{
}

/// Once the end-of-input sentinel is produced it is terminal: nothing of the
/// input is left, and lexing what is left produces the sentinel again.
pub proof fn lemma_eof_terminal(s: Seq<char>)
    ensures
        (match spec_next_token(s) {
            Ok((t, rest)) => t is Eof ==> rest.len() == 0 && spec_next_token(rest) == Ok::<
                (TokenModel, Seq<char>),
                char,
            >((TokenModel::Eof, rest)),
            Err(_) => true,
        }),
{
    lemma_next_token_progress(s);
}

fn is_whitespace(c: char) -> (r: bool)
    ensures
        r == is_ws_char(c),
{
    c == ' ' || c == '\t' || c == '\n' || c == '\r'
}

fn is_letter(c: char) -> (r: bool)
    ensures
        r == is_letter_char(c),
{
    ('a' <= c && c <= 'z') || ('A' <= c && c <= 'Z') || c == '_'
}

fn is_digit(c: char) -> (r: bool)
    ensures
        r == is_digit_char(c),
{
    '0' <= c && c <= '9'
}

fn is_ident(c: char) -> (r: bool)
    ensures
        r == is_ident_char(c),
{
    is_letter(c) || is_digit(c)
}

/// The lexer: an input string and a reading position over its characters.
/// Its view is the unread remainder of the input.
pub struct Lexer {
    input: String,
    length: usize,
    pos: usize,
}

impl View for Lexer {
    type V = Seq<char>;

    closed spec fn view(&self) -> Seq<char> {
        self.input@.skip(self.pos as int)
    }
}

impl Lexer {
    /// The cached character length is the input's, and the reading position
    /// stays inside it.
    pub closed spec fn wf(self) -> bool {
        self.length == self.input@.len() && self.pos <= self.length
    }

    pub fn new(input: String) -> (l: Lexer)
        ensures
            l.wf(),
            l@ == input@,
    {
        let length = input.as_str().unicode_len();
        let l = Lexer { input, length, pos: 0 };
        proof {
            assert(l@ =~= l.input@);
        }
        l
    }

    /// Advance the reading position past whitespace. The token at the
    /// position is unchanged, since lexing skips whitespace first.
    fn skip_whitespace(&mut self)
        requires
            old(self).wf(),
        ensures
            final(self).wf(),
            final(self).input == old(self).input,
            final(self).pos >= old(self).pos,
            spec_next_token(final(self)@) == spec_next_token(old(self)@),
            final(self).pos < final(self).length ==> !is_ws_char(
                final(self).input@[final(self).pos as int],
            ),
    {
        while self.pos < self.length && is_whitespace(self.input.as_str().get_char(self.pos))
            invariant
                self.wf(),
                self.input == old(self).input,
                self.pos >= old(self).pos,
                spec_next_token(self@) == spec_next_token(old(self)@),
            decreases self.length - self.pos,
        {
            proof {
                assert(self@[0] == self.input@[self.pos as int]);
                assert(self@.skip(1) =~= self.input@.skip(self.pos as int + 1));
            }
            self.pos = self.pos + 1;
        }
    }

    /// Produce the next token of the input, advancing past it, or report the
    /// first invalid character. After the input is exhausted, every call
    /// produces `Eof`.
    pub fn next_token(&mut self) -> (r: Result<Token, LexError>)
        requires
            old(self).wf(),
        ensures
            final(self).wf(),
            (match spec_next_token(old(self)@) {
                Ok((t, rest)) => r matches Ok(tok) && tok@ == t && final(self)@ == rest,
                Err(c) => r matches Err(e) && e == LexError::InvalidChar(c),
            }),
    {
        self.skip_whitespace();
        let ghost mid = self@;
        if self.pos == self.length {
            proof {
                assert(mid.len() == 0);
            }
            return Ok(Token::Eof);
        }
        let c = self.input.as_str().get_char(self.pos);
        proof {
            assert(mid[0] == c);
        }
        if is_letter(c) {
            let start = self.pos;
            let mut end = self.pos;
            while end < self.length && is_ident(self.input.as_str().get_char(end))
                invariant
                    self.wf(),
                    start == self.pos,
                    start <= end <= self.length,
                    forall|j: int| start <= j < end ==> is_ident_char(self.input@[j]),
                decreases self.length - end,
            {
                end = end + 1;
            }
            let word = self.input.as_str().substring_char(start, end).to_owned();
            let tok = keyword_or_ident(word);
            proof {
                let n = (end - start) as nat;
                assert forall|j: int| 0 <= j < n implies is_ident_char(mid[j]) by {
                    assert(mid[j] == self.input@[start + j]);
                }
                if n < mid.len() {
                    assert(mid[n as int] == self.input@[end as int]);
                }
                lemma_ident_len_is(mid, n);
                assert(mid.take(n as int) =~= self.input@.subrange(start as int, end as int));
                assert(mid.skip(n as int) =~= self.input@.skip(end as int));
            }
            self.pos = end;
            return Ok(tok);
        }
        if is_digit(c) {
            let start = self.pos;
            let mut end = self.pos;
            while end < self.length && is_digit(self.input.as_str().get_char(end))
                invariant
                    self.wf(),
                    start == self.pos,
                    start <= end <= self.length,
                    forall|j: int| start <= j < end ==> is_digit_char(self.input@[j]),
                decreases self.length - end,
            {
                end = end + 1;
            }
            let word = self.input.as_str().substring_char(start, end).to_owned();
            proof {
                let n = (end - start) as nat;
                assert forall|j: int| 0 <= j < n implies is_digit_char(mid[j]) by {
                    assert(mid[j] == self.input@[start + j]);
                }
                if n < mid.len() {
                    assert(mid[n as int] == self.input@[end as int]);
                }
                lemma_digits_len_is(mid, n);
                assert(mid.take(n as int) =~= self.input@.subrange(start as int, end as int));
                assert(mid.skip(n as int) =~= self.input@.skip(end as int));
            }
            self.pos = end;
            return Ok(Token::Int(word));
        }
        let mut advance: usize = 1;
        let tok: Token;
        if c == '=' {
            if self.pos + 1 < self.length && self.input.as_str().get_char(self.pos + 1) == '=' {
                tok = Token::Equal;
                advance = 2;
            } else {
                tok = Token::Assign;
            }
        } else if c == '!' {
            if self.pos + 1 < self.length && self.input.as_str().get_char(self.pos + 1) == '=' {
                tok = Token::NotEqual;
                advance = 2;
            } else {
                tok = Token::Bang;
            }
        } else if c == '+' {
            tok = Token::Plus;
        } else if c == '-' {
            tok = Token::Dash;
        } else if c == '*' {
            tok = Token::Asterisk;
        } else if c == '/' {
            tok = Token::ForwardSlash;
        } else if c == '<' {
            tok = Token::LessThan;
        } else if c == '>' {
            tok = Token::GreaterThan;
        } else if c == ',' {
            tok = Token::Comma;
        } else if c == ';' {
            tok = Token::Semicolon;
        } else if c == '(' {
            tok = Token::Lparen;
        } else if c == ')' {
            tok = Token::Rparen;
        } else if c == '{' {
            tok = Token::LSquirly;
        } else if c == '}' {
            tok = Token::RSquirly;
        } else {
            return Err(LexError::InvalidChar(c));
        }
        proof {
            if mid.len() >= 2 {
                assert(mid[1] == self.input@[self.pos as int + 1]);
            }
            assert(mid.skip(advance as int) =~= self.input@.skip(
                self.pos as int + advance as int,
            ));
        }
        self.pos = self.pos + advance;
        Ok(tok)
    }
}

/// Tokenize a whole source string: the token stream in order, ending with
/// the end-of-input sentinel, or the first invalid character.
pub fn tokenize(input: &str) -> (r: Result<Vec<Token>, LexError>)
    ensures
        (match spec_tokenize(input@) {
            Ok(ts) => r matches Ok(v) && tokens_view(v@) == ts,
            Err(c) => r matches Err(e) && e == LexError::InvalidChar(c),
        }),
{
    let ghost src = input@;
    let mut lexer = Lexer::new(input.to_owned());
    let mut tokens: Vec<Token> = Vec::new();
    loop
        invariant
            lexer.wf(),
            src == input@,
            (match spec_tokenize(lexer@) {
                Ok(ts) => spec_tokenize(src) == Ok::<Seq<TokenModel>, char>(
                    tokens_view(tokens@) + ts,
                ),
                Err(c) => spec_tokenize(src) == Err::<Seq<TokenModel>, char>(c),
            }),
        decreases lexer@.len(),
    {
        let ghost pre = lexer@;
        let ghost toks_pre = tokens@;
        let t = match lexer.next_token() {
            Ok(t) => t,
            Err(e) => {
                proof {
                    let c = spec_next_token(pre)->Err_0;
                    assert(spec_tokenize(pre) == Err::<Seq<TokenModel>, char>(c));
                    assert(spec_tokenize(src) == Err::<Seq<TokenModel>, char>(c));
                    assert(src == input@);
                    assert(spec_tokenize(input@) is Err);
                    assert(e == LexError::InvalidChar(c));
                }
                return Err(e);
            },
        };
        let is_eof = matches!(t, Token::Eof);
        proof {
            lemma_next_token_progress(pre);
        }
        tokens.push(t);
        proof {
            assert(tokens_view(tokens@) =~= tokens_view(toks_pre).push(t@));
            assert(tokens_view(toks_pre).push(t@) =~= tokens_view(toks_pre) + seq![t@]);
        }
        if is_eof {
            proof {
                assert(spec_tokenize(pre) == Ok::<Seq<TokenModel>, char>(seq![TokenModel::Eof]));
            }
            return Ok(tokens);
        }
        proof {
            let rest = spec_next_token(pre)->Ok_0.1;
            let tm = spec_next_token(pre)->Ok_0.0;
            if spec_tokenize(rest) is Ok {
                assert((tokens_view(toks_pre) + seq![tm]) + spec_tokenize(rest)->Ok_0 =~= tokens_view(
                    toks_pre,
                ) + (seq![tm] + spec_tokenize(rest)->Ok_0));
            }
        }
    }
}

} // verus!
