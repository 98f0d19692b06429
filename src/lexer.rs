//! Reading the tokens of an expression block.

use vstd::prelude::*;

use crate::error::LexerErr;
use crate::text::{
    char_is_alphabetic, char_is_alphanumeric, char_is_whitespace, chars_of, is_alnum, is_alpha,
    is_white, string_of,
};

verus! {

/// A token, as a mathematical value.
pub enum Tok {
    Colon,
    Question,
    NullCheck,
    Equals,
    Ident(Seq<char>),
    Literal(Seq<char>),
    OpenParen,
    CloseParen,
    Plus,
    End,
}

/// The input with its leading whitespace removed.
pub open spec fn skip_white(s: Seq<char>) -> Seq<char>
    decreases s.len(),
{
    if s.len() > 0 && is_white(s[0]) {
        skip_white(s.drop_first())
    } else {
        s
    }
}

/// A character that continues an identifier.
pub open spec fn is_ident_char(c: char) -> bool {
    !is_white(c) && (is_alnum(c) || c == '_')
}

/// The number of identifier characters at the start of `s`.
pub open spec fn ident_len(s: Seq<char>) -> nat
    decreases s.len(),
{
    if s.len() > 0 && is_ident_char(s[0]) {
        1 + ident_len(s.drop_first())
    } else {
        0
    }
}

/// The character that a backslash followed by `c` stands for in a literal.
pub open spec fn unescape(c: char) -> char {
    if c == 'n' {
        '\n'
    } else if c == 'r' {
        '\r'
    } else if c == 't' {
        '\t'
    } else {
        c
    }
}

/// Reads the rest of a string literal whose opening quote is already read:
/// its characters, and the input after the closing quote.
pub open spec fn literal_body(s: Seq<char>) -> Result<(Seq<char>, Seq<char>), LexerErr>
    decreases s.len(),
{
    if s.len() == 0 {
        Err(LexerErr::UnclosedLit)
    } else if s[0] == '"' {
        Ok((Seq::empty(), s.drop_first()))
    } else if s[0] == '\\' {
        if s.len() == 1 {
            Err(LexerErr::UnclosedLit)
        } else {
            match literal_body(s.skip(2)) {
                Ok((v, rest)) => Ok((seq![unescape(s[1])] + v, rest)),
                Err(e) => Err(e),
            }
        }
    } else {
        match literal_body(s.drop_first()) {
            Ok((v, rest)) => Ok((seq![s[0]] + v, rest)),
            Err(e) => Err(e),
        }
    }
}

/// The first token of `s` and the input after it, or the error that reading
/// it meets. The end token `}}` leaves its second brace unread.
pub open spec fn lex(s: Seq<char>) -> Result<(Tok, Seq<char>), LexerErr> {
    let t = skip_white(s);
    if t.len() == 0 {
        Err(LexerErr::UnclosedBlock)
    } else {
        let c = t[0];
        let r = t.drop_first();
        if c == '?' {
            if r.len() > 0 && r[0] == '?' {
                Ok((Tok::NullCheck, r.drop_first()))
            } else {
                Ok((Tok::Question, r))
            }
        } else if c == ':' {
            Ok((Tok::Colon, r))
        } else if c == '=' {
            if r.len() > 0 && r[0] == '=' {
                Ok((Tok::Equals, r.drop_first()))
            } else {
                Err(LexerErr::InvalidToken)
            }
        } else if c == '"' {
            match literal_body(r) {
                Ok((v, rest)) => Ok((Tok::Literal(v), rest)),
                Err(e) => Err(e),
            }
        } else if is_alpha(c) || c == '_' {
            let n = 1 + ident_len(r);
            Ok((Tok::Ident(t.take(n as int)), t.skip(n as int)))
        } else if c == '}' {
            if r.len() > 0 && r[0] == '}' {
                Ok((Tok::End, r))
            } else {
                Err(LexerErr::InvalidToken)
            }
        } else if c == '(' {
            Ok((Tok::OpenParen, r))
        } else if c == ')' {
            Ok((Tok::CloseParen, r))
        } else if c == '+' {
            Ok((Tok::Plus, r))
        } else {
            Err(LexerErr::InvalidToken)
        }
    }
}

proof fn lemma_skip_white_len(s: Seq<char>)
    ensures
        skip_white(s).len() <= s.len(),
        skip_white(s).len() > 0 ==> !is_white(skip_white(s)[0]),
        skip_white(s) == s.skip(s.len() - skip_white(s).len()),
    decreases s.len(),
{
    if s.len() > 0 && is_white(s[0]) {
        lemma_skip_white_len(s.drop_first());
        assert(s.drop_first().skip(s.len() - 1 - skip_white(s).len()) =~= s.skip(
            s.len() - skip_white(s).len(),
        ));
    } else {
        assert(s.skip(0) =~= s);
    }
}

proof fn lemma_ident_len(s: Seq<char>)
    ensures
        ident_len(s) <= s.len(),
    decreases s.len(),
{
    if s.len() > 0 && is_ident_char(s[0]) {
        lemma_ident_len(s.drop_first());
    }
}

proof fn lemma_literal_body_len(s: Seq<char>)
    ensures
        literal_body(s) matches Ok((_, rest)) ==> rest.len() < s.len(),
    decreases s.len(),
{
    if s.len() > 0 && s[0] != '"' {
        if s[0] == '\\' {
            if s.len() > 1 {
                lemma_literal_body_len(s.skip(2));
            }
        } else {
            lemma_literal_body_len(s.drop_first());
        }
    }
}

/// Reading a token consumes input.
pub proof fn lemma_lex_consumes(s: Seq<char>)
    ensures
        lex(s) matches Ok((_, rest)) ==> rest.len() < s.len(),
{
    let t = skip_white(s);
    lemma_skip_white_len(s);
    if t.len() > 0 {
        lemma_literal_body_len(t.drop_first());
        lemma_ident_len(t.drop_first());
    }
}

/// A token of an expression block.
pub enum Token {
    Colon,
    Question,
    NullCheck,
    Equals,
    Ident(String),
    Literal(String),
    OpenParen,
    CloseParen,
    Plus,
    End,
}

impl View for Token {
    type V = Tok;

    open spec fn view(&self) -> Tok {
        match self {
            Token::Colon => Tok::Colon,
            Token::Question => Tok::Question,
            Token::NullCheck => Tok::NullCheck,
            Token::Equals => Tok::Equals,
            Token::Ident(s) => Tok::Ident(s@),
            Token::Literal(s) => Tok::Literal(s@),
            Token::OpenParen => Tok::OpenParen,
            Token::CloseParen => Tok::CloseParen,
            Token::Plus => Tok::Plus,
            Token::End => Tok::End,
        }
    }
}

/// Reads tokens from a text, one at a time.
pub struct Lexer {
    text: Vec<char>,
    pos: usize,
}

impl Lexer {
    #[verifier::type_invariant]
    spec fn inv(&self) -> bool {
        self.pos <= self.text@.len()
    }

    /// The text not yet read; its first character is the current one.
    pub closed spec fn rest(&self) -> Seq<char> {
        self.text@.subrange(self.pos as int, self.text@.len() as int)
    }

    /// A lexer at the start of `text`.
    pub fn new(text: &str) -> (r: Lexer)
        ensures
            r.rest() == text@,
    {
        let chars = chars_of(text);
        let r = Lexer { text: chars, pos: 0 };
        assert(r.rest() =~= text@);
        r
    }

    /// The current character, if the text is not exhausted.
    pub fn cur(&self) -> (r: Option<char>)
        ensures
            r == if self.rest().len() > 0 {
                Some(self.rest()[0])
            } else {
                None::<char>
            },
    {
        proof {
            use_type_invariant(self);
        }
        if self.pos < self.text.len() {
            Some(self.text[self.pos])
        } else {
            None
        }
    }

    /// The character after the current one, if there is one.
    pub fn peek(&self) -> (r: Option<char>)
        ensures
            r == if self.rest().len() > 1 {
                Some(self.rest()[1])
            } else {
                None::<char>
            },
    {
        proof {
            use_type_invariant(self);
        }
        if self.pos < self.text.len() && self.text.len() - self.pos > 1 {
            Some(self.text[self.pos + 1])
        } else {
            None
        }
    }

    /// Moves past the current character, if there is one.
    pub fn next_char(&mut self)
        ensures
            final(self).rest() == if old(self).rest().len() > 0 {
                old(self).rest().drop_first()
            } else {
                old(self).rest()
            },
    {
        proof {
            use_type_invariant(&*self);
        }
        if self.pos < self.text.len() {
            self.pos = self.pos + 1;
            assert(self.rest() =~= old(self).rest().drop_first());
        }
    }

    /// Reads the next token.
    pub fn next(&mut self) -> (r: Result<Token, LexerErr>)
        ensures
            match lex(old(self).rest()) {
                Ok((t, rest)) => r is Ok && r->Ok_0@ == t && final(self).rest() == rest,
                Err(e) => r == Err::<Token, LexerErr>(e),
            },
    {
        self.skip_whitespace();
        let ghost t = self.rest();
        proof {
            lemma_skip_white_len(old(self).rest());
        }
        let c = match self.cur() {
            Some(c) => c,
            None => return Err(LexerErr::UnclosedBlock),
        };
        if c == '?' {
            Ok(self.read_question())
        } else if c == ':' {
            self.next_char();
            Ok(Token::Colon)
        } else if c == '=' {
            self.read_equals()
        } else if c == '"' {
            self.read_literal()
        } else if char_is_alphabetic(c) || c == '_' {
            Ok(self.read_ident())
        } else if c == '}' {
            self.next_char();
            match self.cur() {
                Some('}') => Ok(Token::End),
                _ => {
                    self.next_char();
                    Err(LexerErr::InvalidToken)
                },
            }
        } else if c == '(' {
            self.next_char();
            Ok(Token::OpenParen)
        } else if c == ')' {
            self.next_char();
            Ok(Token::CloseParen)
        } else if c == '+' {
            self.next_char();
            Ok(Token::Plus)
        } else {
            Err(LexerErr::InvalidToken)
        }
    }

    /// Reads `?` or `??`; the current character is `?`.
    fn read_question(&mut self) -> (r: Token)
        requires
            old(self).rest().len() > 0,
            old(self).rest()[0] == '?',
        ensures
            ({
                let r0 = old(self).rest().drop_first();
                if r0.len() > 0 && r0[0] == '?' {
                    r == Token::NullCheck && final(self).rest() == r0.drop_first()
                } else {
                    r == Token::Question && final(self).rest() == r0
                }
            }),
    {
        self.next_char();
        match self.cur() {
            Some('?') => {
                self.next_char();
                Token::NullCheck
            },
            _ => Token::Question,
        }
    }

    /// Reads `==`; the current character is `=`.
    fn read_equals(&mut self) -> (r: Result<Token, LexerErr>)
        requires
            old(self).rest().len() > 0,
            old(self).rest()[0] == '=',
        ensures
            ({
                let r0 = old(self).rest().drop_first();
                if r0.len() > 0 && r0[0] == '=' {
                    r matches Ok(Token::Equals) && final(self).rest() == r0.drop_first()
                } else {
                    r == Err::<Token, LexerErr>(LexerErr::InvalidToken)
                }
            }),
    {
        self.next_char();
        match self.cur() {
            Some('=') => {
                self.next_char();
                Ok(Token::Equals)
            },
            _ => Err(LexerErr::InvalidToken),
        }
    }

    /// Reads an identifier; the current character is alphabetic or `_`.
    fn read_ident(&mut self) -> (r: Token)
        requires
            old(self).rest().len() > 0,
            !is_white(old(self).rest()[0]),
            is_alpha(old(self).rest()[0]) || old(self).rest()[0] == '_',
        ensures
            ({
                let s = old(self).rest();
                let n = 1 + ident_len(s.drop_first());
                r@ == Tok::Ident(s.take(n as int)) && final(self).rest() == s.skip(n as int)
            }),
    {
        let ghost s = self.rest();
        let mut res: Vec<char> = Vec::new();
        loop
            invariant
                s.len() > 0,
                !is_white(s[0]),
                is_alpha(s[0]) || s[0] == '_',
                res@.len() <= s.len(),
                res@ == s.take(res@.len() as int),
                self.rest() == s.skip(res@.len() as int),
                ident_len(s) == res@.len() + ident_len(self.rest()),
                res@.len() == 0 ==> self.rest() == s,
            ensures
                res@.len() > 0,
                ident_len(self.rest()) == 0,
            decreases self.rest().len(),
        {
            let c = match self.cur() {
                Some(c) => c,
                None => break,
            };
            if char_is_whitespace(c) || (!char_is_alphanumeric(c) && c != '_') {
                break;
            }
            proof {
                assert(self.rest().drop_first() =~= s.skip(res@.len() + 1 as int));
                assert(s.take(res@.len() + 1 as int) =~= res@.push(c));
            }
            res.push(c);
            self.next_char();
        }
        proof {
            assert(is_ident_char(s[0]));
            assert(ident_len(s) == 1 + ident_len(s.drop_first()));
        }
        Token::Ident(string_of(res.as_slice()))
    }

    /// Reads a string literal; the current character is its opening quote.
    fn read_literal(&mut self) -> (r: Result<Token, LexerErr>)
        requires
            old(self).rest().len() > 0,
            old(self).rest()[0] == '"',
        ensures
            match literal_body(old(self).rest().drop_first()) {
                Ok((v, rest)) => r is Ok && r->Ok_0@ == Tok::Literal(v) && final(self).rest() == rest,
                Err(e) => r == Err::<Token, LexerErr>(e),
            },
    {
        self.next_char();
        let ghost body = self.rest();
        let mut res: Vec<char> = Vec::new();
        loop
            invariant
                body == old(self).rest().drop_first(),
                literal_body(body) == match literal_body(self.rest()) {
                    Ok((v, rest)) => Ok((res@ + v, rest)),
                    Err(e) => Err(e),
                },
            decreases self.rest().len(),
        {
            let ghost s = self.rest();
            let c = match self.cur() {
                Some(c) => c,
                None => {
                    assert(literal_body(s) == Err::<(Seq<char>, Seq<char>), LexerErr>(LexerErr::UnclosedLit));
                    return Err(LexerErr::UnclosedLit);
                },
            };
            self.next_char();
            if c == '"' {
                proof {
                    assert(res@ + Seq::empty() =~= res@);
                }
                return Ok(Token::Literal(string_of(res.as_slice())));
            } else if c == '\\' {
                let e = match self.cur() {
                    Some(e) => e,
                    None => return Err(LexerErr::UnclosedLit),
                };
                self.next_char();
                let u = if e == 'n' {
                    '\n'
                } else if e == 'r' {
                    '\r'
                } else if e == 't' {
                    '\t'
                } else {
                    e
                };
                proof {
                    assert(self.rest() =~= s.skip(2));
                    match literal_body(self.rest()) {
                        Ok((v, rest)) => {
                            assert(res@ + (seq![u] + v) =~= res@.push(u) + v);
                        },
                        Err(_) => {},
                    }
                }
                res.push(u);
            } else {
                proof {
                    match literal_body(self.rest()) {
                        Ok((v, rest)) => {
                            assert(res@ + (seq![c] + v) =~= res@.push(c) + v);
                        },
                        Err(_) => {},
                    }
                }
                res.push(c);
            }
        }
    }

    /// Moves past whitespace.
    fn skip_whitespace(&mut self)
        ensures
            final(self).rest() == skip_white(old(self).rest()),
    {
        loop
            invariant
                skip_white(self.rest()) == skip_white(old(self).rest()),
            ensures
                skip_white(self.rest()) == self.rest(),
            decreases self.rest().len(),
        {
            match self.cur() {
                Some(c) => {
                    if !char_is_whitespace(c) {
                        break;
                    }
                    self.next_char();
                },
                None => break,
            }
        }
    }
}

} // verus!
