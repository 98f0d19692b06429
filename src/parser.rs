//! Parsing expression blocks and rendering text that contains them.

use vstd::prelude::*;

use crate::ast::{display, eval, Ast, Expr, Val, Value};
use crate::error::LexerErr;
use crate::lexer::{ident_len, is_ident_char, lemma_lex_consumes, lex, skip_white, Lexer, Tok, Token};
use crate::table::{env_of, Vars};
use crate::text::string_of;

verus! {

/// What reading an expression gives: its tree, the input after the last token
/// read, and the token read past the expression and left to the caller, if
/// any.
pub type Parsed = Result<Parsed0, LexerErr>;

/// A tree, the input after it, and the token left over.
pub type Parsed0 = (Ast, Seq<char>, Option<Tok>);

/// Reads a full expression from `s`.
pub open spec fn parse_expr(s: Seq<char>) -> Parsed
    decreases s.len(), 0nat,
{
    match lex(s) {
        Err(e) => Err(e),
        Ok((t, r)) => {
            proof {
                lemma_lex_consumes(s);
            }
            expr_tok(r, t, Ast::Empty)
        },
    }
}

/// Continues a full expression whose tree so far is `prev`, with the token
/// `t` already read and `s` after it.
///
/// `?` and `??` take everything that follows as their last operand, and so
/// does `(`, which drops `prev`; `==` and `+` take a high-precedence right
/// operand and the expression goes on; an identifier or literal may only
/// start an expression; any other token ends it and is left to the caller.
///
/// A sub-expression always consumes input (`lemma_parse_hp_consumes`,
/// `lemma_parse_expr_consumes`); the length tests here and in `check_tail`
/// and `hp_tok` state that for the termination check and never fail.
pub open spec fn expr_tok(s: Seq<char>, t: Tok, prev: Ast) -> Parsed
    decreases s.len(), 2nat,
{
    match t {
        Tok::Question => check_tail(s, prev),
        Tok::NullCheck => match parse_expr(s) {
            Ok((r, s1, p1)) => Ok((Ast::NullCheck(Box::new(prev), Box::new(r)), s1, p1)),
            Err(e) => Err(e),
        },
        Tok::Equals => match parse_hp(s) {
            Ok((r, s1, p1)) => if s1.len() < s.len() {
                expr_next(s1, p1, Ast::Equals(Box::new(prev), Box::new(r)))
            } else {
                Err(LexerErr::UnexpectedToken)
            },
            Err(e) => Err(e),
        },
        Tok::Plus => match parse_hp(s) {
            Ok((r, s1, p1)) => if s1.len() < s.len() {
                expr_next(s1, p1, Ast::Add(Box::new(prev), Box::new(r)))
            } else {
                Err(LexerErr::UnexpectedToken)
            },
            Err(e) => Err(e),
        },
        Tok::Ident(v) => if prev == Ast::Empty {
            match lex(s) {
                Err(e) => Err(e),
                Ok((t1, s1)) => {
                    proof {
                        lemma_lex_consumes(s);
                    }
                    expr_tok(s1, t1, Ast::Var(v))
                },
            }
        } else {
            Err(LexerErr::UnexpectedToken)
        },
        Tok::Literal(v) => if prev == Ast::Empty {
            match lex(s) {
                Err(e) => Err(e),
                Ok((t1, s1)) => {
                    proof {
                        lemma_lex_consumes(s);
                    }
                    expr_tok(s1, t1, Ast::Lit(Val::Str(v)))
                },
            }
        } else {
            Err(LexerErr::UnexpectedToken)
        },
        Tok::OpenParen => paren_tail(s),
        _ => Ok((prev, s, Some(t))),
    }
}

/// Continues a full expression with the token `p` left over by a right
/// operand, or with the next token of `s` if there is none.
pub open spec fn expr_next(s: Seq<char>, p: Option<Tok>, prev: Ast) -> Parsed
    decreases s.len(), 3nat,
{
    match p {
        Some(t) => expr_tok(s, t, prev),
        None => match lex(s) {
            Err(e) => Err(e),
            Ok((t, r)) => {
                proof {
                    lemma_lex_consumes(s);
                }
                expr_tok(r, t, prev)
            },
        },
    }
}

/// The branches of `cond ? then : else`, after the `?`.
pub open spec fn check_tail(s: Seq<char>, cond: Ast) -> Parsed
    decreases s.len(), 1nat,
{
    match parse_expr(s) {
        Ok((l, s1, Some(Tok::Colon))) => if s1.len() < s.len() {
            match parse_expr(s1) {
                Ok((r, s2, p2)) => Ok((Ast::Check(Box::new(cond), Box::new(l), Box::new(r)), s2, p2)),
                Err(e) => Err(e),
            }
        } else {
            Err(LexerErr::UnexpectedToken)
        },
        Ok(_) => Err(LexerErr::UnexpectedToken),
        Err(e) => Err(e),
    }
}

/// A parenthesised expression, after the `(`: the tree of its contents.
pub open spec fn paren_tail(s: Seq<char>) -> Parsed
    decreases s.len(), 1nat,
{
    match parse_expr(s) {
        Ok((e, s1, Some(Tok::CloseParen))) => Ok((e, s1, None)),
        Ok(_) => Err(LexerErr::UnexpectedToken),
        Err(e) => Err(e),
    }
}

/// Reads a high-precedence operand (the right side of `==` or `+`) from `s`.
pub open spec fn parse_hp(s: Seq<char>) -> Parsed
    decreases s.len(), 0nat,
{
    match lex(s) {
        Err(e) => Err(e),
        Ok((t, r)) => {
            proof {
                lemma_lex_consumes(s);
            }
            hp_tok(r, t, Ast::Empty)
        },
    }
}

/// Continues a high-precedence operand with the token `t` already read: an
/// identifier, a literal or a parenthesised expression completes it, `+`
/// adds another operand, and any other token ends it and is left to the
/// caller.
pub open spec fn hp_tok(s: Seq<char>, t: Tok, prev: Ast) -> Parsed
    decreases s.len(), 2nat,
{
    match t {
        Tok::Ident(v) => if prev == Ast::Empty {
            Ok((Ast::Var(v), s, None))
        } else {
            Err(LexerErr::UnexpectedToken)
        },
        Tok::Literal(v) => if prev == Ast::Empty {
            Ok((Ast::Lit(Val::Str(v)), s, None))
        } else {
            Err(LexerErr::UnexpectedToken)
        },
        Tok::OpenParen => paren_tail(s),
        Tok::Plus => match parse_hp(s) {
            Ok((r, s1, None)) => Ok((Ast::Add(Box::new(prev), Box::new(r)), s1, None)),
            Ok((r, s1, Some(t1))) => if s1.len() < s.len() {
                hp_tok(s1, t1, Ast::Add(Box::new(prev), Box::new(r)))
            } else {
                Err(LexerErr::UnexpectedToken)
            },
            Err(e) => Err(e),
        },
        _ => Ok((prev, s, Some(t))),
    }
}

/// Reading a full expression consumes input.
pub proof fn lemma_parse_expr_consumes(s: Seq<char>)
    ensures
        parse_expr(s) matches Ok((_, r, _)) ==> r.len() < s.len(),
    decreases s.len(), 0nat,
{
    lemma_lex_consumes(s);
    if let Ok((t, r)) = lex(s) {
        lemma_expr_tok_consumes(r, t, Ast::Empty);
    }
}

/// Reading a high-precedence operand consumes input.
pub proof fn lemma_parse_hp_consumes(s: Seq<char>)
    ensures
        parse_hp(s) matches Ok((_, r, _)) ==> r.len() < s.len(),
    decreases s.len(), 0nat,
{
    lemma_lex_consumes(s);
    if let Ok((t, r)) = lex(s) {
        lemma_hp_tok_consumes(r, t, Ast::Empty);
    }
}

proof fn lemma_expr_tok_consumes(s: Seq<char>, t: Tok, prev: Ast)
    ensures
        expr_tok(s, t, prev) matches Ok((_, r, _)) ==> r.len() <= s.len(),
    decreases s.len(), 2nat,
{
    match t {
        Tok::Question => lemma_check_tail_consumes(s, prev),
        Tok::NullCheck => lemma_parse_expr_consumes(s),
        Tok::Equals => {
            lemma_parse_hp_consumes(s);
            if let Ok((r, s1, p1)) = parse_hp(s) {
                if s1.len() < s.len() {
                    lemma_expr_next_consumes(s1, p1, Ast::Equals(Box::new(prev), Box::new(r)));
                }
            }
        },
        Tok::Plus => {
            lemma_parse_hp_consumes(s);
            if let Ok((r, s1, p1)) = parse_hp(s) {
                if s1.len() < s.len() {
                    lemma_expr_next_consumes(s1, p1, Ast::Add(Box::new(prev), Box::new(r)));
                }
            }
        },
        Tok::Ident(v) => {
            lemma_lex_consumes(s);
            if let Ok((t1, s1)) = lex(s) {
                lemma_expr_tok_consumes(s1, t1, Ast::Var(v));
            }
        },
        Tok::Literal(v) => {
            lemma_lex_consumes(s);
            if let Ok((t1, s1)) = lex(s) {
                lemma_expr_tok_consumes(s1, t1, Ast::Lit(Val::Str(v)));
            }
        },
        Tok::OpenParen => lemma_paren_tail_consumes(s),
        _ => {},
    }
}

proof fn lemma_expr_next_consumes(s: Seq<char>, p: Option<Tok>, prev: Ast)
    ensures
        expr_next(s, p, prev) matches Ok((_, r, _)) ==> r.len() <= s.len(),
    decreases s.len(), 3nat,
{
    match p {
        Some(t) => lemma_expr_tok_consumes(s, t, prev),
        None => {
            lemma_lex_consumes(s);
            if let Ok((t, r)) = lex(s) {
                lemma_expr_tok_consumes(r, t, prev);
            }
        },
    }
}

proof fn lemma_check_tail_consumes(s: Seq<char>, cond: Ast)
    ensures
        check_tail(s, cond) matches Ok((_, r, _)) ==> r.len() <= s.len(),
    decreases s.len(), 1nat,
{
    lemma_parse_expr_consumes(s);
    if let Ok((l, s1, Some(Tok::Colon))) = parse_expr(s) {
        lemma_parse_expr_consumes(s1);
    }
}

proof fn lemma_paren_tail_consumes(s: Seq<char>)
    ensures
        paren_tail(s) matches Ok((_, r, _)) ==> r.len() <= s.len(),
    decreases s.len(), 1nat,
{
    lemma_parse_expr_consumes(s);
}

proof fn lemma_hp_tok_consumes(s: Seq<char>, t: Tok, prev: Ast)
    ensures
        hp_tok(s, t, prev) matches Ok((_, r, _)) ==> r.len() <= s.len(),
    decreases s.len(), 2nat,
{
    match t {
        Tok::OpenParen => lemma_paren_tail_consumes(s),
        Tok::Plus => {
            lemma_parse_hp_consumes(s);
            if let Ok((r, s1, Some(t1))) = parse_hp(s) {
                if s1.len() < s.len() {
                    lemma_hp_tok_consumes(s1, t1, Ast::Add(Box::new(prev), Box::new(r)));
                }
            }
        },
        _ => {},
    }
}

/// The input after its first character, if it has one.
pub open spec fn skip_one(s: Seq<char>) -> Seq<char> {
    if s.len() > 0 {
        s.drop_first()
    } else {
        s
    }
}

/// One step of rendering the nonempty text `s`: what it writes, and the text
/// left to render after it or the error that stops rendering.
pub open spec fn render_step(s: Seq<char>, env: Map<Seq<char>, Seq<char>>) -> (
    Seq<char>,
    Result<Seq<char>, LexerErr>,
)
    recommends
        s.len() > 0,
{
    if s[0] == '{' {
        brace_step(s, env)
    } else if s[0] == '\\' {
        escape_step(s)
    } else {
        (seq![s[0]], Ok(s.drop_first()))
    }
}

/// A step at a `{`: `{{` opens a block, whose value is written; a `{` not
/// followed by another is written with the character after it.
pub open spec fn brace_step(s: Seq<char>, env: Map<Seq<char>, Seq<char>>) -> (
    Seq<char>,
    Result<Seq<char>, LexerErr>,
) {
    if s.len() == 1 {
        (seq!['{'], Ok(Seq::empty()))
    } else if s[1] != '{' {
        (seq!['{', s[1]], Ok(s.skip(2)))
    } else {
        match parse_expr(s.skip(2)) {
            Ok((e, r, _)) => (display(eval(e, env)), Ok(skip_one(r))),
            Err(e) => (Seq::empty(), Err(e)),
        }
    }
}

/// A step at a backslash: `\\{{` writes a literal `{{` and opens no block;
/// before anything else the backslash is written together with the
/// character after it; at the end of the text it is an error.
pub open spec fn escape_step(s: Seq<char>) -> (Seq<char>, Result<Seq<char>, LexerErr>) {
    if s.len() == 1 {
        (Seq::empty(), Err(LexerErr::UnclosedBlock))
    } else if s.len() >= 3 && s[1] == '{' && s[2] == '{' {
        (seq!['{', '{'], Ok(s.skip(3)))
    } else {
        (seq!['\\', s[1]], Ok(s.skip(2)))
    }
}

/// One step of rendering consumes input.
pub proof fn lemma_render_step_consumes(s: Seq<char>, env: Map<Seq<char>, Seq<char>>)
    requires
        s.len() > 0,
    ensures
        render_step(s, env).1 matches Ok(r) ==> r.len() < s.len(),
{
    if s[0] == '{' && s.len() > 1 && s[1] == '{' {
        lemma_parse_expr_consumes(s.skip(2));
    }
}

/// What rendering `s` with the variables `env` writes, and the error that
/// stops it, if one does. The text written before an error is kept.
pub open spec fn render(s: Seq<char>, env: Map<Seq<char>, Seq<char>>) -> (
    Seq<char>,
    Option<LexerErr>,
)
    decreases s.len(),
{
    if s.len() == 0 {
        (Seq::empty(), None)
    } else {
        match render_step(s, env) {
            (out, Err(e)) => (out, Some(e)),
            (out, Ok(r)) => {
                proof {
                    lemma_render_step_consumes(s, env);
                }
                (out + render(r, env).0, render(r, env).1)
            },
        }
    }
}

/// The token left over, as a mathematical value.
pub open spec fn tok_of(t: Option<Token>) -> Option<Tok> {
    match t {
        Some(t) => Some(t@),
        None => None,
    }
}

/// Renders text, replacing each `{{ ... }}` block by the text of its value.
pub struct Parser {
    lexer: Lexer,
    token: Option<Token>,
}

impl Parser {
    /// The text not yet read.
    pub closed spec fn rest(&self) -> Seq<char> {
        self.lexer.rest()
    }

    /// Renders `text` with the variables `vars`, appending what it writes to
    /// `out`; on an error, what was written before it stays in `out`.
    pub fn string(text: &str, vars: &Vars, out: &mut String) -> (r: Result<(), LexerErr>)
        ensures
            final(out)@ == old(out)@ + render(text@, env_of(vars@)).0,
            r == match render(text@, env_of(vars@)).1 {
                None => Ok::<(), LexerErr>(()),
                Some(e) => Err(e),
            },
    {
        let mut parser = Parser { lexer: Lexer::new(text), token: None };
        let mut buf: Vec<char> = Vec::new();
        let r = parser.parse(vars, &mut buf);
        let written = string_of(buf.as_slice());
        out.append(written.as_str());
        r
    }

    /// Renders the rest of the text into `out`.
    fn parse(&mut self, vars: &Vars, out: &mut Vec<char>) -> (r: Result<(), LexerErr>)
        requires
            old(self).token is None,
        ensures
            final(out)@ == old(out)@ + render(old(self).rest(), env_of(vars@)).0,
            r == match render(old(self).rest(), env_of(vars@)).1 {
                None => Ok::<(), LexerErr>(()),
                Some(e) => Err(e),
            },
    {
        let ghost env = env_of(vars@);
        let ghost s0 = self.rest();
        let ghost out0 = out@;
        loop
            invariant
                env == env_of(vars@),
                s0 == old(self).rest(),
                out0 == old(out)@,
                self.token is None,
                out0 + render(s0, env).0 == out@ + render(self.rest(), env).0,
                render(s0, env).1 == render(self.rest(), env).1,
            ensures
                env == env_of(vars@),
                s0 == old(self).rest(),
                out0 == old(out)@,
                self.rest().len() == 0,
                out0 + render(s0, env).0 == out@ + render(self.rest(), env).0,
                render(s0, env).1 == render(self.rest(), env).1,
            decreases self.rest().len(),
        {
            let c = match self.lexer.cur() {
                Some(c) => c,
                None => break,
            };
            let ghost s = self.rest();
            let ghost before = out@;
            proof {
                lemma_render_step_consumes(s, env);
            }
            let step = if c == '{' {
                self.check_opening(vars, out)
            } else if c == '\\' {
                self.handle_escape(out)
            } else {
                out.push(c);
                Ok(())
            };
            proof {
                assert(out@ =~= before + render_step(s, env).0);
            }
            if let Err(e) = step {
                proof {
                    assert(render_step(s, env).1 == Err::<Seq<char>, LexerErr>(e));
                }
                return Err(e);
            }
            self.lexer.next_char();
            proof {
                assert(render_step(s, env).1 == Ok::<Seq<char>, LexerErr>(self.rest()));
                assert(out0 + render(s0, env).0 =~= out@ + render(self.rest(), env).0);
            }
        }
        proof {
            assert(out@ + render(self.rest(), env).0 =~= out@);
        }
        Ok(())
    }

    /// Handles a `{`, the current character.
    fn check_opening(&mut self, vars: &Vars, out: &mut Vec<char>) -> (r: Result<(), LexerErr>)
        requires
            old(self).token is None,
            old(self).rest().len() > 0,
            old(self).rest()[0] == '{',
        ensures
            final(out)@ == old(out)@ + brace_step(old(self).rest(), env_of(vars@)).0,
            match brace_step(old(self).rest(), env_of(vars@)).1 {
                Ok(n) => r is Ok && skip_one(final(self).rest()) == n && final(self).token is None,
                Err(e) => r == Err::<(), LexerErr>(e),
            },
    {
        let ghost s = self.rest();
        self.lexer.next_char();
        let c = match self.lexer.cur() {
            Some(c) => c,
            None => {
                out.push('{');
                return Ok(());
            },
        };
        if c != '{' {
            out.push('{');
            out.push(c);
            proof {
                assert(skip_one(self.rest()) =~= s.skip(2));
            }
            return Ok(());
        }
        self.lexer.next_char();
        proof {
            assert(self.rest() =~= s.skip(2));
        }
        let expr = match self.parse_expr() {
            Ok(e) => e,
            Err(e) => {
                assert(out@ =~= out@ + Seq::<char>::empty());
                return Err(e);
            },
        };
        let value = expr.eval(vars).text();
        let mut chars = crate::text::chars_of(value.as_str());
        out.append(&mut chars);
        self.token = None;
        Ok(())
    }

    /// Handles a backslash, the current character.
    fn handle_escape(&mut self, out: &mut Vec<char>) -> (r: Result<(), LexerErr>)
        requires
            old(self).rest().len() > 0,
            old(self).rest()[0] == '\\',
        ensures
            final(self).token == old(self).token,
            final(out)@ == old(out)@ + escape_step(old(self).rest()).0,
            match escape_step(old(self).rest()).1 {
                Ok(n) => r is Ok && skip_one(final(self).rest()) == n,
                Err(e) => r == Err::<(), LexerErr>(e),
            },
    {
        let ghost s = self.rest();
        self.lexer.next_char();
        match self.lexer.cur() {
            Some(c) => {
                if c == '{' && self.lexer.peek() == Some('{') {
                    self.lexer.next_char();
                    out.push('{');
                    out.push('{');
                    proof {
                        assert(skip_one(self.rest()) =~= s.skip(3));
                    }
                } else {
                    out.push('\\');
                    out.push(c);
                    proof {
                        assert(skip_one(self.rest()) =~= s.skip(2));
                    }
                }
                Ok(())
            },
            None => {
                assert(out@ =~= out@ + Seq::<char>::empty());
                Err(LexerErr::UnclosedBlock)
            },
        }
    }

    /// Takes the token left over, or reads the next one.
    fn next_token(&mut self) -> (r: Result<Token, LexerErr>)
        ensures
            final(self).token is None,
            match tok_of(old(self).token) {
                Some(t) => r is Ok && r->Ok_0@ == t && final(self).rest() == old(self).rest(),
                None => match lex(old(self).rest()) {
                    Ok((t, rest)) => r is Ok && r->Ok_0@ == t && final(self).rest() == rest,
                    Err(e) => r == Err::<Token, LexerErr>(e),
                },
            },
    {
        match self.token.take() {
            Some(t) => Ok(t),
            None => self.lexer.next(),
        }
    }

    /// Reads a full expression.
    fn parse_expr(&mut self) -> (r: Result<Expr, LexerErr>)
        requires
            old(self).token is None,
        ensures
            match parse_expr(old(self).rest()) {
                Ok((e, rest, p)) => r is Ok && r->Ok_0@ == e && final(self).rest() == rest
                    && tok_of(final(self).token) == p,
                Err(err) => r == Err::<Expr, LexerErr>(err),
            },
        decreases old(self).rest().len(), 0nat,
    {
        let ghost s0 = self.rest();
        proof {
            lemma_lex_consumes(s0);
        }
        let mut tok = self.lexer.next()?;
        let mut prev = Expr::Empty;
        loop
            invariant
                self.token is None,
                s0 == old(self).rest(),
                self.rest().len() < s0.len(),
                parse_expr(s0) == expr_tok(self.rest(), tok@, prev@),
            decreases self.rest().len(),
        {
            let ghost s = self.rest();
            match tok {
                Token::Question => return self.parse_check(prev),
                Token::NullCheck => {
                    let right = self.parse_expr()?;
                    return Ok(Expr::NullCheck(Box::new(prev), Box::new(right)));
                },
                Token::Equals => {
                    proof {
                        lemma_parse_hp_consumes(s);
                    }
                    let ghost left = prev@;
                    let right = self.parse_hp()?;
                    prev = Expr::Equals(Box::new(prev), Box::new(right));
                    proof {
                        lemma_lex_consumes(self.rest());
                        assert(expr_tok(s, Tok::Equals, left) == expr_next(
                            self.rest(),
                            tok_of(self.token),
                            prev@,
                        ));
                    }
                    tok = self.next_token()?;
                },
                Token::Plus => {
                    proof {
                        lemma_parse_hp_consumes(s);
                    }
                    let ghost left = prev@;
                    let right = self.parse_hp()?;
                    prev = Expr::Add(Box::new(prev), Box::new(right));
                    proof {
                        lemma_lex_consumes(self.rest());
                        assert(expr_tok(s, Tok::Plus, left) == expr_next(
                            self.rest(),
                            tok_of(self.token),
                            prev@,
                        ));
                    }
                    tok = self.next_token()?;
                },
                Token::Ident(v) => {
                    if !matches!(prev, Expr::Empty) {
                        return Err(LexerErr::UnexpectedToken);
                    }
                    prev = Expr::Var(v);
                    proof {
                        lemma_lex_consumes(s);
                    }
                    tok = self.lexer.next()?;
                },
                Token::Literal(v) => {
                    if !matches!(prev, Expr::Empty) {
                        return Err(LexerErr::UnexpectedToken);
                    }
                    prev = Expr::Lit(Value::String(v));
                    proof {
                        lemma_lex_consumes(s);
                    }
                    tok = self.lexer.next()?;
                },
                Token::OpenParen => return self.parse_paren(),
                other => {
                    self.token = Some(other);
                    return Ok(prev);
                },
            }
        }
    }

    /// Reads the branches of `?:`, after the `?`.
    fn parse_check(&mut self, cond: Expr) -> (r: Result<Expr, LexerErr>)
        requires
            old(self).token is None,
        ensures
            match check_tail(old(self).rest(), cond@) {
                Ok((e, rest, p)) => r is Ok && r->Ok_0@ == e && final(self).rest() == rest
                    && tok_of(final(self).token) == p,
                Err(err) => r == Err::<Expr, LexerErr>(err),
            },
        decreases old(self).rest().len(), 1nat,
    {
        let ghost s = self.rest();
        proof {
            lemma_parse_expr_consumes(s);
        }
        let left = self.parse_expr()?;
        match self.token.take() {
            Some(Token::Colon) => {},
            _ => return Err(LexerErr::UnexpectedToken),
        }
        let right = self.parse_expr()?;
        Ok(Expr::Check(Box::new(cond), Box::new(left), Box::new(right)))
    }

    /// Reads a parenthesised expression, after the `(`.
    fn parse_paren(&mut self) -> (r: Result<Expr, LexerErr>)
        requires
            old(self).token is None,
        ensures
            match paren_tail(old(self).rest()) {
                Ok((e, rest, p)) => r is Ok && r->Ok_0@ == e && final(self).rest() == rest
                    && tok_of(final(self).token) == p,
                Err(err) => r == Err::<Expr, LexerErr>(err),
            },
        decreases old(self).rest().len(), 1nat,
    {
        let e = self.parse_expr()?;
        match self.token.take() {
            Some(Token::CloseParen) => Ok(e),
            _ => Err(LexerErr::UnexpectedToken),
        }
    }

    /// Reads a high-precedence operand.
    fn parse_hp(&mut self) -> (r: Result<Expr, LexerErr>)
        requires
            old(self).token is None,
        ensures
            match parse_hp(old(self).rest()) {
                Ok((e, rest, p)) => r is Ok && r->Ok_0@ == e && final(self).rest() == rest
                    && tok_of(final(self).token) == p,
                Err(err) => r == Err::<Expr, LexerErr>(err),
            },
        decreases old(self).rest().len(), 0nat,
    {
        let ghost s0 = self.rest();
        proof {
            lemma_lex_consumes(s0);
        }
        let mut tok = self.lexer.next()?;
        let mut prev = Expr::Empty;
        loop
            invariant
                self.token is None,
                s0 == old(self).rest(),
                self.rest().len() < s0.len(),
                parse_hp(s0) == hp_tok(self.rest(), tok@, prev@),
            decreases self.rest().len(),
        {
            let ghost s = self.rest();
            match tok {
                Token::Ident(v) => {
                    if !matches!(prev, Expr::Empty) {
                        return Err(LexerErr::UnexpectedToken);
                    }
                    return Ok(Expr::Var(v));
                },
                Token::Literal(v) => {
                    if !matches!(prev, Expr::Empty) {
                        return Err(LexerErr::UnexpectedToken);
                    }
                    return Ok(Expr::Lit(Value::String(v)));
                },
                Token::OpenParen => return self.parse_paren(),
                Token::Plus => {
                    proof {
                        lemma_parse_hp_consumes(s);
                    }
                    let right = self.parse_hp()?;
                    prev = Expr::Add(Box::new(prev), Box::new(right));
                    match self.token.take() {
                        None => return Ok(prev),
                        Some(t) => {
                            tok = t;
                        },
                    }
                },
                other => {
                    self.token = Some(other);
                    return Ok(prev);
                },
            }
        }
    }
}

/// A parenthesised right operand of `==` adds no node: the equality compares
/// with the tree of the contents, and the expression goes on after the `)`.
pub proof fn lemma_paren_operand_equals(s: Seq<char>, prev: Ast)
    requires
        lex(s) matches Ok((Tok::OpenParen, _)),
        parse_expr(lex(s)->Ok_0.1) matches Ok((_, _, Some(Tok::CloseParen))),
    ensures
        ({
            let (e, r, _) = parse_expr(lex(s)->Ok_0.1)->Ok_0;
            expr_tok(s, Tok::Equals, prev) == expr_next(r, None, Ast::Equals(Box::new(prev), Box::new(e)))
        }),
{
    let t = lex(s)->Ok_0.1;
    let (e, r, _) = parse_expr(t)->Ok_0;
    lemma_lex_consumes(s);
    lemma_parse_expr_consumes(t);
    assert(paren_tail(t) == Ok::<(Ast, Seq<char>, Option<Tok>), LexerErr>((e, r, None)));
    assert(hp_tok(t, Tok::OpenParen, Ast::Empty) == paren_tail(t));
    assert(parse_hp(s) == hp_tok(t, Tok::OpenParen, Ast::Empty));
}

/// A parenthesised right operand of `+` adds no node either.
pub proof fn lemma_paren_operand_add(s: Seq<char>, prev: Ast)
    requires
        lex(s) matches Ok((Tok::OpenParen, _)),
        parse_expr(lex(s)->Ok_0.1) matches Ok((_, _, Some(Tok::CloseParen))),
    ensures
        ({
            let (e, r, _) = parse_expr(lex(s)->Ok_0.1)->Ok_0;
            expr_tok(s, Tok::Plus, prev) == expr_next(r, None, Ast::Add(Box::new(prev), Box::new(e)))
        }),
{
    let t = lex(s)->Ok_0.1;
    let (e, r, _) = parse_expr(t)->Ok_0;
    lemma_lex_consumes(s);
    lemma_parse_expr_consumes(t);
    assert(paren_tail(t) == Ok::<(Ast, Seq<char>, Option<Tok>), LexerErr>((e, r, None)));
    assert(hp_tok(t, Tok::OpenParen, Ast::Empty) == paren_tail(t));
    assert(parse_hp(s) == hp_tok(t, Tok::OpenParen, Ast::Empty));
}

/// Outside a block, a backslash and the character after it are written as
/// they are, unless they begin `\\{{`, and rendering goes on after them.
pub proof fn lemma_escape_kept(c: char, t: Seq<char>, env: Map<Seq<char>, Seq<char>>)
    requires
        !(c == '{' && t.len() > 0 && t[0] == '{'),
    ensures
        render(seq!['\\', c] + t, env) == (seq!['\\', c] + render(t, env).0, render(t, env).1),
{
    let s = seq!['\\', c] + t;
    assert(s.skip(2) =~= t);
}

/// An escaped `\\{{` never opens a block: it writes `{{`, and rendering goes
/// on after it.
pub proof fn lemma_escaped_braces(t: Seq<char>, env: Map<Seq<char>, Seq<char>>)
    ensures
        render(seq!['\\', '{', '{'] + t, env) == (seq!['{', '{'] + render(t, env).0, render(t, env).1),
{
    let s = seq!['\\', '{', '{'] + t;
    assert(s.skip(3) =~= t);
}

/// Text with no `{` and no backslash.
pub open spec fn is_plain(s: Seq<char>) -> bool {
    forall|i: int| 0 <= i < s.len() ==> s[i] != '{' && s[i] != '\\'
}

/// Plain text is written as it is, before what follows it is rendered.
pub proof fn lemma_plain_prefix(p: Seq<char>, rest: Seq<char>, env: Map<Seq<char>, Seq<char>>)
    requires
        is_plain(p),
    ensures
        render(p + rest, env) == (p + render(rest, env).0, render(rest, env).1),
    decreases p.len(),
{
    if p.len() == 0 {
        assert(p + rest =~= rest);
        assert(p + render(rest, env).0 =~= render(rest, env).0);
    } else {
        let s = p + rest;
        assert(s.drop_first() =~= p.drop_first() + rest);
        lemma_plain_prefix(p.drop_first(), rest, env);
        assert(seq![p[0]] + (p.drop_first() + render(rest, env).0) =~= p + render(rest, env).0);
    }
}

/// In a text with no block, a backslash before any character but `{` is
/// written verbatim together with that character: the text comes out as it
/// went in.
pub proof fn lemma_backslash_in_text(
    s1: Seq<char>,
    c: char,
    s2: Seq<char>,
    env: Map<Seq<char>, Seq<char>>,
)
    requires
        is_plain(s1),
        is_plain(s2),
        c != '{',
    ensures
        render(s1 + seq!['\\', c] + s2, env) == (s1 + seq!['\\', c] + s2, None::<LexerErr>),
{
    let tail = seq!['\\', c] + s2;
    assert(s1 + seq!['\\', c] + s2 =~= s1 + tail);
    lemma_plain_prefix(s1, tail, env);
    lemma_escape_kept(c, s2, env);
    lemma_plain_prefix(s2, Seq::empty(), env);
    assert(s2 + Seq::<char>::empty() =~= s2);
    assert(render(Seq::<char>::empty(), env).0 =~= Seq::<char>::empty());
    assert(s2 + render(Seq::<char>::empty(), env).0 =~= s2);
    assert(s1 + (seq!['\\', c] + s2) =~= s1 + seq!['\\', c] + s2);
}

/// A letter, digit or `_` of ASCII.
pub open spec fn is_ascii_word_char(c: char) -> bool {
    ('a' <= c && c <= 'z') || ('A' <= c && c <= 'Z') || ('0' <= c && c <= '9') || c == '_'
}

/// An identifier written in ASCII: a letter or `_`, then letters, digits or
/// `_`.
pub open spec fn is_ascii_ident(x: Seq<char>) -> bool {
    &&& x.len() > 0
    &&& (('a' <= x[0] && x[0] <= 'z') || ('A' <= x[0] && x[0] <= 'Z') || x[0] == '_')
    &&& forall|i: int| 0 <= i < x.len() ==> is_ascii_word_char(#[trigger] x[i])
}

proof fn lemma_ident_len_word(w: Seq<char>, rest: Seq<char>)
    requires
        forall|i: int| 0 <= i < w.len() ==> is_ascii_word_char(#[trigger] w[i]),
        rest.len() > 0,
        rest[0] == ' ',
    ensures
        ident_len(w + rest) == w.len(),
    decreases w.len(),
{
    if w.len() == 0 {
        assert(w + rest =~= rest);
    } else {
        assert((w + rest).drop_first() =~= w.drop_first() + rest);
        assert(is_ascii_word_char(w[0]));
        assert(is_ident_char((w + rest)[0]));
        lemma_ident_len_word(w.drop_first(), rest);
    }
}

proof fn lemma_lex_ident(x: Seq<char>, rest: Seq<char>)
    requires
        is_ascii_ident(x),
    ensures
        lex(seq![' '] + x + seq![' '] + rest) == Ok::<(Tok, Seq<char>), LexerErr>(
            (Tok::Ident(x), seq![' '] + rest),
        ),
{
    let s = seq![' '] + x + seq![' '] + rest;
    let t = x + (seq![' '] + rest);
    assert(s.drop_first() =~= t);
    assert(t[0] == x[0]);
    assert(skip_white(t) == t);
    assert(skip_white(s) == t);
    assert(t.drop_first() =~= x.drop_first() + (seq![' '] + rest));
    lemma_ident_len_word(x.drop_first(), seq![' '] + rest);
    assert(t.take(x.len() as int) =~= x);
    assert(t.skip(x.len() as int) =~= seq![' '] + rest);
}

proof fn lemma_lex_null_check(rest: Seq<char>)
    ensures
        lex(seq![' ', '?', '?'] + rest) == Ok::<(Tok, Seq<char>), LexerErr>((Tok::NullCheck, rest)),
{
    let s = seq![' ', '?', '?'] + rest;
    let t = s.drop_first();
    assert(t =~= seq!['?', '?'] + rest);
    assert(skip_white(t) == t);
    assert(t.drop_first().drop_first() =~= rest);
}

proof fn lemma_lex_end()
    ensures
        lex(seq![' ', '}', '}']) == Ok::<(Tok, Seq<char>), LexerErr>((Tok::End, seq!['}'])),
{
    let s = seq![' ', '}', '}'];
    let t = s.drop_first();
    assert(t =~= seq!['}', '}']);
    assert(skip_white(t) == t);
    assert(t.drop_first() =~= seq!['}']);
}

proof fn lemma_parse_last_var(z: Seq<char>)
    requires
        is_ascii_ident(z),
    ensures
        parse_expr(seq![' '] + z + seq![' ', '}', '}']) == Ok::<Parsed0, LexerErr>(
            (Ast::Var(z), seq!['}'], Some(Tok::End)),
        ),
{
    let s = seq![' '] + z + seq![' ', '}', '}'];
    lemma_lex_ident(z, seq!['}', '}']);
    assert(seq![' '] + z + seq![' '] + seq!['}', '}'] =~= s);
    assert(seq![' '] + seq!['}', '}'] =~= seq![' ', '}', '}']);
    lemma_lex_end();
    assert(expr_tok(seq![' ', '}', '}'], Tok::Ident(z), Ast::Empty) == expr_tok(
        seq!['}'],
        Tok::End,
        Ast::Var(z),
    ));
}

proof fn lemma_parse_null_check_var(y: Seq<char>, a: Seq<char>)
    requires
        is_ascii_ident(y),
        parse_expr(a) is Ok,
    ensures
        parse_expr(seq![' '] + y + seq![' ', '?', '?'] + a) == Ok::<Parsed0, LexerErr>(
            (
                Ast::NullCheck(Box::new(Ast::Var(y)), Box::new(parse_expr(a)->Ok_0.0)),
                parse_expr(a)->Ok_0.1,
                parse_expr(a)->Ok_0.2,
            ),
        ),
{
    let s = seq![' '] + y + seq![' ', '?', '?'] + a;
    let rest = seq!['?', '?'] + a;
    lemma_lex_ident(y, rest);
    assert(seq![' '] + y + seq![' '] + rest =~= s);
    assert(seq![' '] + rest =~= seq![' ', '?', '?'] + a);
    lemma_lex_null_check(a);
    assert(expr_tok(seq![' ', '?', '?'] + a, Tok::Ident(y), Ast::Empty) == expr_tok(
        a,
        Tok::NullCheck,
        Ast::Var(y),
    ));
}

/// The text `{{ x ?? y ?? z }}`, for identifiers written in ASCII, renders as
/// the value of the first of `x`, `y`, `z` that is bound, or `null` where
/// none is.
pub proof fn lemma_null_check_chain_text(
    x: Seq<char>,
    y: Seq<char>,
    z: Seq<char>,
    env: Map<Seq<char>, Seq<char>>,
)
    requires
        is_ascii_ident(x),
        is_ascii_ident(y),
        is_ascii_ident(z),
    ensures
        render(
            seq!['{', '{', ' '] + x + seq![' ', '?', '?', ' '] + y + seq![' ', '?', '?', ' '] + z
                + seq![' ', '}', '}'],
            env,
        ) == (
            if env.contains_key(x) {
                env[x]
            } else if env.contains_key(y) {
                env[y]
            } else if env.contains_key(z) {
                env[z]
            } else {
                seq!['n', 'u', 'l', 'l']
            },
            None::<LexerErr>,
        ),
{
    let a = seq![' '] + z + seq![' ', '}', '}'];
    let b = seq![' '] + y + seq![' ', '?', '?'] + a;
    let c = seq![' '] + x + seq![' ', '?', '?'] + b;
    let t = seq!['{', '{', ' '] + x + seq![' ', '?', '?', ' '] + y + seq![' ', '?', '?', ' '] + z
        + seq![' ', '}', '}'];
    assert(t =~= seq!['{', '{'] + c);
    assert(t.skip(2) =~= c);
    lemma_parse_last_var(z);
    lemma_parse_null_check_var(y, a);
    lemma_parse_null_check_var(x, b);
    let e = Ast::NullCheck(
        Box::new(Ast::Var(x)),
        Box::new(Ast::NullCheck(Box::new(Ast::Var(y)), Box::new(Ast::Var(z)))),
    );
    assert(parse_expr(c) == Ok::<Parsed0, LexerErr>((e, seq!['}'], Some(Tok::End))));
    crate::ast::lemma_null_check_chain(Ast::Var(x), Ast::Var(y), Ast::Var(z), env);
    assert(skip_one(seq!['}']) =~= Seq::<char>::empty());
    assert(render_step(t, env) == (display(eval(e, env)), Ok::<Seq<char>, LexerErr>(Seq::empty())));
    assert(display(eval(e, env)) + render(Seq::<char>::empty(), env).0 =~= display(eval(e, env)));
}

} // verus!
