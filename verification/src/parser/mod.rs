//! Text front end: a lexer from characters to tokens and a parser from tokens
//! to source expressions.
//!
//! Grammar (one token of lookahead decides every choice):
//!
//! ```text
//! expr    ::= "let" LOWER "=" expr "in" expr
//!           | "\" LOWER "->" expr
//!           | "if" expr "then" expr "else" expr
//!           | "match" expr "{" arm* "}"
//!           | atom atom*                          (left-nested application)
//! atom    ::= INT | "(" ")" | "(" expr ")" | UPPER [ "(" exprs ")" ] | LOWER
//!           | "foreign" "(" NAME ";" exprs ")" | "foreign" STR "(" exprs ")"
//! exprs   ::= [ expr { "," expr } [ "," ] ]
//! arm     ::= "|" pattern "=>" expr
//! pattern ::= "_" | INT | UPPER [ "(" patterns ")" ] | LOWER
//! NAME    ::= LOWER | UPPER
//! ```
//!
//! `()` is the unit literal, and `foreign(name; args)` is how foreign calls
//! are printed, so printed expressions read back.
pub mod grammar;
pub mod lexer;

use vstd::prelude::*;
use vstd::string::*;

use self::grammar::{p_expr, parse_tokens, res_expr, tok_vs};
use self::lexer::{
    bpos, chars_and_offsets, error_message, error_text, lemma_step_advances, lex_from, lexed,
    step_exec, Stepped,
};
use crate::ast::Expr;
use crate::names::names;
use crate::text::{dec_int, dec_nat, push_int, push_usize};

verus! {

/// A token of Lumi source text.
#[derive(Debug)]
pub enum Token {
    Let,
    In,
    If,
    Then,
    Else,
    Match,
    Foreign,
    Backslash,
    Arrow,
    FatArrow,
    Equals,
    Comma,
    Semicolon,
    Pipe,
    LParen,
    RParen,
    LBrace,
    RBrace,
    /// `_` alone; `_` never starts a name.
    Underscore,
    /// `-?[0-9]+`: `-42` is a single token.
    Int(i64),
    Upper(String),
    Lower(String),
    /// The text between the quotes, escapes left as written.
    Str(String),
    Error,
}

/// The value of a token, with texts taken by their characters.
pub enum TokV {
    Let,
    In,
    If,
    Then,
    Else,
    Match,
    Foreign,
    Backslash,
    Arrow,
    FatArrow,
    Equals,
    Comma,
    Semicolon,
    Pipe,
    LParen,
    RParen,
    LBrace,
    RBrace,
    Underscore,
    Int(i64),
    Upper(Seq<char>),
    Lower(Seq<char>),
    Str(Seq<char>),
    Error,
}

impl View for Token {
    type V = TokV;

    open spec fn view(&self) -> TokV {
        match self {
            Token::Let => TokV::Let,
            Token::In => TokV::In,
            Token::If => TokV::If,
            Token::Then => TokV::Then,
            Token::Else => TokV::Else,
            Token::Match => TokV::Match,
            Token::Foreign => TokV::Foreign,
            Token::Backslash => TokV::Backslash,
            Token::Arrow => TokV::Arrow,
            Token::FatArrow => TokV::FatArrow,
            Token::Equals => TokV::Equals,
            Token::Comma => TokV::Comma,
            Token::Semicolon => TokV::Semicolon,
            Token::Pipe => TokV::Pipe,
            Token::LParen => TokV::LParen,
            Token::RParen => TokV::RParen,
            Token::LBrace => TokV::LBrace,
            Token::RBrace => TokV::RBrace,
            Token::Underscore => TokV::Underscore,
            Token::Int(n) => TokV::Int(*n),
            Token::Upper(s) => TokV::Upper(s@),
            Token::Lower(s) => TokV::Lower(s@),
            Token::Str(s) => TokV::Str(s@),
            Token::Error => TokV::Error,
        }
    }
}

/// How a token is written back as text.
pub open spec fn token_text(t: TokV) -> Seq<char> {
    match t {
        TokV::Let => "let"@,
        TokV::In => "in"@,
        TokV::If => "if"@,
        TokV::Then => "then"@,
        TokV::Else => "else"@,
        TokV::Match => "match"@,
        TokV::Foreign => "foreign"@,
        TokV::Backslash => "\\"@,
        TokV::Arrow => "->"@,
        TokV::FatArrow => "=>"@,
        TokV::Equals => "="@,
        TokV::Comma => ","@,
        TokV::Semicolon => ";"@,
        TokV::Pipe => "|"@,
        TokV::LParen => "("@,
        TokV::RParen => ")"@,
        TokV::LBrace => "{"@,
        TokV::RBrace => "}"@,
        TokV::Underscore => "_"@,
        TokV::Int(n) => dec_int(n as int),
        TokV::Upper(s) => s,
        TokV::Lower(s) => s,
        TokV::Str(s) => s,
        TokV::Error => "<error>"@,
    }
}

impl Token {
    /// The token written back as text.
    pub fn to_string(&self) -> (r: String)
        ensures
            r@ == token_text(self@),
    {
        match self {
            Token::Let => String::from_str("let"),
            Token::In => String::from_str("in"),
            Token::If => String::from_str("if"),
            Token::Then => String::from_str("then"),
            Token::Else => String::from_str("else"),
            Token::Match => String::from_str("match"),
            Token::Foreign => String::from_str("foreign"),
            Token::Backslash => String::from_str("\\"),
            Token::Arrow => String::from_str("->"),
            Token::FatArrow => String::from_str("=>"),
            Token::Equals => String::from_str("="),
            Token::Comma => String::from_str(","),
            Token::Semicolon => String::from_str(";"),
            Token::Pipe => String::from_str("|"),
            Token::LParen => String::from_str("("),
            Token::RParen => String::from_str(")"),
            Token::LBrace => String::from_str("{"),
            Token::RBrace => String::from_str("}"),
            Token::Underscore => String::from_str("_"),
            Token::Int(n) => {
                let mut s = String::new();
                push_int(&mut s, *n);
                assert(s@ =~= token_text(self@));
                s
            },
            Token::Upper(s) => s.clone(),
            Token::Lower(s) => s.clone(),
            Token::Str(s) => s.clone(),
            Token::Error => String::from_str("<error>"),
        }
    }
}

// ── Lexer ────────────────────────────────────────────────────────────────────

/// Splits `src` into tokens with their byte spans, and messages for the
/// characters that form no token.  Whitespace and `--` line comments are
/// skipped.
pub fn lex(src: &str) -> (r: (Vec<(Token, core::ops::Range<usize>)>, Vec<String>))
    ensures
        lexed(src@, r.0@, r.1@),
{
    let (chars, offs) = chars_and_offsets(src);
    let ghost s = src@;
    let ghost mut gts: Seq<(TokV, nat, nat)> = Seq::empty();
    let ghost mut ges: Seq<(nat, nat)> = Seq::empty();
    let mut tokens: Vec<(Token, core::ops::Range<usize>)> = Vec::new();
    let mut errors: Vec<String> = Vec::new();
    let mut i: usize = 0;
    assert(lex_from(s, 0).0 =~= gts + lex_from(s, 0).0);
    assert(lex_from(s, 0).1 =~= ges + lex_from(s, 0).1);
    while i < chars.len()
        invariant
            s == src@,
            chars@ == s,
            offs@.len() == s.len() + 1,
            forall|k: int| 0 <= k <= s.len() ==> offs@[k] == bpos(s, k as nat),
            i <= s.len(),
            lex_from(s, 0).0 == gts + lex_from(s, i as nat).0,
            lex_from(s, 0).1 == ges + lex_from(s, i as nat).1,
            tokens@.len() == gts.len(),
            forall|k: int|
                0 <= k < gts.len() ==> {
                    &&& (#[trigger] tokens@[k]).0@ == gts[k].0
                    &&& tokens@[k].1.start == bpos(s, gts[k].1)
                    &&& tokens@[k].1.end == bpos(s, gts[k].2)
                },
            errors@.len() == ges.len(),
            forall|k: int|
                0 <= k < ges.len() ==> (#[trigger] errors@[k])@ == error_text(
                    bpos(s, ges[k].0),
                    bpos(s, ges[k].1),
                ),
        decreases s.len() - i,
    {
        proof {
            lemma_step_advances(s, i as nat);
        }
        let st = step_exec(&chars, i);
        match st {
            Stepped::Skip(j) => {
                i = j;
            },
            Stepped::Tok(t, j) => {
                let ghost tv = t@;
                let span = core::ops::Range { start: offs[i], end: offs[j] };
                proof {
                    assert(lex_from(s, i as nat).0 =~= seq![(tv, i as nat, j as nat)] + lex_from(
                        s,
                        j as nat,
                    ).0);
                    assert(gts.push((tv, i as nat, j as nat)) + lex_from(s, j as nat).0 =~= gts
                        + lex_from(s, i as nat).0);
                    gts = gts.push((tv, i as nat, j as nat));
                }
                tokens.push((t, span));
                i = j;
            },
            Stepped::Bad(j) => {
                let m = error_message(offs[i], offs[j]);
                proof {
                    assert(lex_from(s, i as nat).1 =~= seq![(i as nat, j as nat)] + lex_from(
                        s,
                        j as nat,
                    ).1);
                    assert(ges.push((i as nat, j as nat)) + lex_from(s, j as nat).1 =~= ges
                        + lex_from(s, i as nat).1);
                    ges = ges.push((i as nat, j as nat));
                }
                errors.push(m);
                i = j;
            },
        }
    }
    assert(gts + lex_from(s, i as nat).0 =~= gts);
    assert(ges + lex_from(s, i as nat).1 =~= ges);
    (tokens, errors)
}

// ── Parser ───────────────────────────────────────────────────────────────────

/// Reads one expression from the token at `pos`: the expression and the
/// position after it, or the position of the token where reading failed.
pub fn expr(tokens: &Vec<(Token, core::ops::Range<usize>)>, pos: usize) -> (r: Result<
    (Expr, usize),
    usize,
>)
    requires
        pos <= tokens@.len(),
    ensures
        res_expr(r) == p_expr(tok_vs(tokens@), pos as nat),
{
    grammar::parse_expr(tokens, pos)
}

/// The tokens that lexing `src` gives.
pub open spec fn lex_tokens(src: Seq<char>) -> Seq<TokV> {
    Seq::new(lex_from(src, 0).0.len(), |k: int| lex_from(src, 0).0[k].0)
}

/// The messages that lexing `src` gives.
pub open spec fn lex_errors(src: Seq<char>) -> Seq<Seq<char>> {
    Seq::new(
        lex_from(src, 0).1.len(),
        |k: int| error_text(bpos(src, lex_from(src, 0).1[k].0), bpos(src, lex_from(src, 0).1[k].1)),
    )
}

/// The message for a parse that stopped at token `k` of `src`.
pub open spec fn parse_error_text(src: Seq<char>, k: nat) -> Seq<char> {
    let ts = lex_from(src, 0).0;
    if k < ts.len() {
        "unexpected `"@ + token_text(ts[k as int].0) + "` at "@ + dec_nat(bpos(src, ts[k as int].1))
            + ".."@ + dec_nat(bpos(src, ts[k as int].2))
    } else {
        "unexpected end of input"@
    }
}

fn parse_error(tokens: &Vec<(Token, core::ops::Range<usize>)>, k: usize) -> (r: String)
    ensures
        k < tokens@.len() ==> r@ == "unexpected `"@ + token_text(tokens@[k as int].0@) + "` at "@
            + dec_nat(tokens@[k as int].1.start as nat) + ".."@ + dec_nat(
            tokens@[k as int].1.end as nat,
        ),
        k >= tokens@.len() ==> r@ == "unexpected end of input"@,
{
    if k < tokens.len() {
        let mut m = String::from_str("unexpected `");
        let t = tokens[k].0.to_string();
        m.append(t.as_str());
        m.append("` at ");
        push_usize(&mut m, tokens[k].1.start);
        m.append("..");
        push_usize(&mut m, tokens[k].1.end);
        m
    } else {
        String::from_str("unexpected end of input")
    }
}

/// Lexes and parses a whole source text as one expression.  The messages are
/// those of the lexer, then, when the tokens do not form one expression, one
/// for the token where reading stopped.
pub fn parse(src: &str) -> (r: (Option<Expr>, Vec<String>))
    ensures
        match parse_tokens(lex_tokens(src@)) {
            Ok(v) => r.0 matches Some(e) && e@ == v && names(r.1@) == lex_errors(src@),
            Err(k) => r.0 is None && names(r.1@) == lex_errors(src@).push(
                parse_error_text(src@, k),
            ),
        },
{
    let (tokens, mut errors) = lex(src);
    let ghost s = src@;
    proof {
        assert(tok_vs(tokens@) =~= lex_tokens(s));
        assert(names(errors@) =~= lex_errors(s));
    }
    match grammar::parse_expr(&tokens, 0) {
        Ok((e, j)) => {
            if j == tokens.len() {
                (Some(e), errors)
            } else {
                let m = parse_error(&tokens, j);
                let ghost before = errors@;
                errors.push(m);
                assert(names(errors@) =~= names(before).push(m@));
                (None, errors)
            }
        },
        Err(k) => {
            let m = parse_error(&tokens, k);
            let ghost before = errors@;
            errors.push(m);
            assert(names(errors@) =~= names(before).push(m@));
            (None, errors)
        },
    }
}

} // verus!
