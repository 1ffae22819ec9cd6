//! The lexer: maximal munch over the characters of the source, with byte spans.
use vstd::prelude::*;
use vstd::std_specs::iter::IteratorSpec;
use vstd::string::*;
use vstd::utf8::{encode_scalar, encode_utf8};

use super::{TokV, Token};
use crate::codegen::escape::push_char;
use crate::text::{dec_nat, push_usize};

verus! {

// ── Character classes ────────────────────────────────────────────────────────

pub open spec fn is_ws(c: char) -> bool {
    c == ' ' || c == '\t' || c == '\n' || c == '\r'
}

pub open spec fn is_lower(c: char) -> bool {
    0x61 <= (c as u32) <= 0x7a
}

pub open spec fn is_upper(c: char) -> bool {
    0x41 <= (c as u32) <= 0x5a
}

pub open spec fn is_digit(c: char) -> bool {
    0x30 <= (c as u32) <= 0x39
}

/// A character that may continue a name: `[a-zA-Z0-9_]`.
pub open spec fn is_ident(c: char) -> bool {
    is_lower(c) || is_upper(c) || is_digit(c) || c == '_'
}

// ── Runs ─────────────────────────────────────────────────────────────────────

/// End of the run of whitespace that starts at `i`.
pub open spec fn ws_end(s: Seq<char>, i: nat) -> nat
    decreases s.len() - i,
{
    if i < s.len() && is_ws(s[i as int]) {
        ws_end(s, i + 1)
    } else {
        i
    }
}

/// End of the run of name characters that starts at `i`.
pub open spec fn ident_end(s: Seq<char>, i: nat) -> nat
    decreases s.len() - i,
{
    if i < s.len() && is_ident(s[i as int]) {
        ident_end(s, i + 1)
    } else {
        i
    }
}

/// End of the run of digits that starts at `i`.
pub open spec fn digits_end(s: Seq<char>, i: nat) -> nat
    decreases s.len() - i,
{
    if i < s.len() && is_digit(s[i as int]) {
        digits_end(s, i + 1)
    } else {
        i
    }
}

/// The first line feed at or after `i`, or the end of the text.
pub open spec fn line_end(s: Seq<char>, i: nat) -> nat
    decreases s.len() - i,
{
    if i < s.len() && s[i as int] != '\n' {
        line_end(s, i + 1)
    } else {
        i
    }
}

/// Inside a string literal from `i`: the position after its closing quote, or
/// `None` when the text ends first or a backslash stands before a line feed.
pub open spec fn str_end(s: Seq<char>, i: nat) -> Option<nat>
    decreases s.len() - i,
{
    if i >= s.len() {
        None
    } else if s[i as int] == '"' {
        Some(i + 1)
    } else if s[i as int] == '\\' {
        if i + 1 < s.len() && s[i + 1 as int] != '\n' {
            str_end(s, i + 2)
        } else {
            None
        }
    } else {
        str_end(s, i + 1)
    }
}

/// Value of the decimal digits `s[a..b]`.
pub open spec fn digits_val(s: Seq<char>, a: nat, b: nat) -> nat
    decreases b - a,
{
    if b <= a {
        0
    } else {
        digits_val(s, a, (b - 1) as nat) * 10 + ((s[b - 1] as u32) - 0x30) as nat
    }
}

/// The keyword spelled `w`, if any.
pub open spec fn keyword(w: Seq<char>) -> Option<TokV> {
    if w == "let"@ {
        Some(TokV::Let)
    } else if w == "in"@ {
        Some(TokV::In)
    } else if w == "if"@ {
        Some(TokV::If)
    } else if w == "then"@ {
        Some(TokV::Then)
    } else if w == "else"@ {
        Some(TokV::Else)
    } else if w == "match"@ {
        Some(TokV::Match)
    } else if w == "foreign"@ {
        Some(TokV::Foreign)
    } else {
        None
    }
}

// ── One step ─────────────────────────────────────────────────────────────────

/// What the lexer does at a position: skip to `j`, read a token ending at
/// `j`, or report the characters up to `j` as not a token.
pub enum Step {
    Skip(nat),
    Tok(TokV, nat),
    Bad(nat),
}

/// The longest match at `i` (keywords before names of the same length):
/// whitespace and `--` comments are skipped; a numeral that does not fit in
/// `i64`, a lone `"` without its closing quote, and any other character are
/// errors.
pub open spec fn step(s: Seq<char>, i: nat) -> Step
    recommends
        i < s.len(),
{
    let c = s[i as int];
    let next = if i + 1 < s.len() {
        Some(s[i + 1 as int])
    } else {
        None
    };
    if is_ws(c) {
        Step::Skip(ws_end(s, i + 1))
    } else if c == '-' && next == Some('-') {
        Step::Skip(line_end(s, i + 2))
    } else if c == '-' && next == Some('>') {
        Step::Tok(TokV::Arrow, i + 2)
    } else if is_digit(c) || (c == '-' && next is Some && is_digit(next->0)) {
        let start: nat = if c == '-' {
            i + 1
        } else {
            i
        };
        let j = digits_end(s, start + 1);
        let v: int = if c == '-' {
            -digits_val(s, start, j)
        } else {
            digits_val(s, start, j) as int
        };
        if i64::MIN <= v <= i64::MAX {
            Step::Tok(TokV::Int(v as i64), j)
        } else {
            Step::Bad(j)
        }
    } else if c == '=' && next == Some('>') {
        Step::Tok(TokV::FatArrow, i + 2)
    } else if c == '=' {
        Step::Tok(TokV::Equals, i + 1)
    } else if c == '\\' {
        Step::Tok(TokV::Backslash, i + 1)
    } else if c == ',' {
        Step::Tok(TokV::Comma, i + 1)
    } else if c == ';' {
        Step::Tok(TokV::Semicolon, i + 1)
    } else if c == '|' {
        Step::Tok(TokV::Pipe, i + 1)
    } else if c == '(' {
        Step::Tok(TokV::LParen, i + 1)
    } else if c == ')' {
        Step::Tok(TokV::RParen, i + 1)
    } else if c == '{' {
        Step::Tok(TokV::LBrace, i + 1)
    } else if c == '}' {
        Step::Tok(TokV::RBrace, i + 1)
    } else if c == '_' {
        Step::Tok(TokV::Underscore, i + 1)
    } else if is_lower(c) {
        let j = ident_end(s, i + 1);
        let w = s.subrange(i as int, j as int);
        match keyword(w) {
            Some(k) => Step::Tok(k, j),
            None => Step::Tok(TokV::Lower(w), j),
        }
    } else if is_upper(c) {
        let j = ident_end(s, i + 1);
        Step::Tok(TokV::Upper(s.subrange(i as int, j as int)), j)
    } else if c == '"' {
        match str_end(s, i + 1) {
            Some(j) => Step::Tok(TokV::Str(s.subrange(i + 1 as int, j - 1 as int)), j),
            None => Step::Bad(i + 1),
        }
    } else {
        Step::Bad(i + 1)
    }
}

pub open spec fn step_end(st: Step) -> nat {
    match st {
        Step::Skip(j) => j,
        Step::Tok(_, j) => j,
        Step::Bad(j) => j,
    }
}

proof fn lemma_runs(s: Seq<char>, i: nat)
    ensures
        i <= ws_end(s, i) && (i <= s.len() ==> ws_end(s, i) <= s.len()),
        i <= ident_end(s, i) && (i <= s.len() ==> ident_end(s, i) <= s.len()),
        i <= digits_end(s, i) && (i <= s.len() ==> digits_end(s, i) <= s.len()),
        i <= line_end(s, i) && (i <= s.len() ==> line_end(s, i) <= s.len()),
        str_end(s, i) matches Some(j) ==> i < j <= s.len() && s[j - 1] == '"',
    decreases s.len() - i,
{
    if i < s.len() {
        lemma_runs(s, i + 1);
        if i + 2 <= s.len() {
            lemma_runs(s, i + 2);
        }
    }
}

/// Every step moves forward and stays inside the text.
pub proof fn lemma_step_advances(s: Seq<char>, i: nat)
    requires
        i < s.len(),
    ensures
        i < step_end(step(s, i)) <= s.len(),
{
    lemma_runs(s, i + 1);
    lemma_runs(s, i + 2);
}

// ── The whole text ───────────────────────────────────────────────────────────

/// Tokens with their character spans, and the character spans of errors,
/// from position `i` on.
pub open spec fn lex_from(s: Seq<char>, i: nat) -> (Seq<(TokV, nat, nat)>, Seq<(nat, nat)>)
    decreases s.len() - i,
{
    if i >= s.len() {
        (Seq::empty(), Seq::empty())
    } else {
        proof {
            lemma_step_advances(s, i);
        }
        match step(s, i) {
            Step::Skip(j) => lex_from(s, j),
            Step::Tok(t, j) => {
                let (ts, es) = lex_from(s, j);
                (seq![(t, i, j)] + ts, es)
            },
            Step::Bad(j) => {
                let (ts, es) = lex_from(s, j);
                (ts, seq![(i, j)] + es)
            },
        }
    }
}

/// Byte offset of character position `i` in the UTF-8 encoding of `s`.
pub open spec fn bpos(s: Seq<char>, i: nat) -> nat {
    encode_utf8(s.take(i as int)).len()
}

/// The message for characters that form no token, at byte span `a..b`.
pub open spec fn error_text(a: nat, b: nat) -> Seq<char> {
    "unexpected character at "@ + dec_nat(a) + ".."@ + dec_nat(b)
}

/// `tokens` and `errors` are what lexing `src` gives: each token with its byte
/// span, and one message per stretch of characters that forms no token.
pub open spec fn lexed(
    src: Seq<char>,
    tokens: Seq<(Token, core::ops::Range<usize>)>,
    errors: Seq<String>,
) -> bool {
    let (ts, es) = lex_from(src, 0);
    &&& tokens.len() == ts.len()
    &&& forall|k: int|
        0 <= k < ts.len() ==> {
            &&& (#[trigger] tokens[k]).0@ == ts[k].0
            &&& tokens[k].1.start == bpos(src, ts[k].1)
            &&& tokens[k].1.end == bpos(src, ts[k].2)
        }
    &&& errors.len() == es.len()
    &&& forall|k: int|
        0 <= k < es.len() ==> (#[trigger] errors[k])@ == error_text(
            bpos(src, es[k].0),
            bpos(src, es[k].1),
        )
}

// ── UTF-8 byte offsets ───────────────────────────────────────────────────────

proof fn lemma_encode_append(a: Seq<char>, b: Seq<char>)
    ensures
        encode_utf8(a + b) == encode_utf8(a) + encode_utf8(b),
    decreases a.len(),
{
    if a.len() > 0 {
        lemma_encode_append(a.drop_first(), b);
        assert((a + b).drop_first() =~= a.drop_first() + b);
        assert((a + b)[0] == a[0]);
        assert(encode_utf8(a + b) =~= encode_utf8(a) + encode_utf8(b));
    } else {
        assert(a + b =~= b);
        assert(encode_utf8(a) + encode_utf8(b) =~= encode_utf8(b));
    }
}

proof fn lemma_bpos_step(s: Seq<char>, i: nat)
    requires
        i < s.len(),
    ensures
        bpos(s, i + 1) == bpos(s, i) + encode_scalar(s[i as int] as u32).len(),
        bpos(s, i + 1) <= bpos(s, s.len()),
{
    let k: int = i as int;
    assert(s.take(k + 1) =~= s.take(k) + seq![s[k]]);
    lemma_encode_append(s.take(k), seq![s[k]]);
    let one = seq![s[k]];
    assert(one.drop_first() =~= Seq::<char>::empty());
    assert(encode_utf8(one.drop_first()) =~= Seq::<u8>::empty());
    assert(encode_utf8(one) == encode_scalar(one[0] as u32) + encode_utf8(one.drop_first()));
    assert(encode_utf8(one) =~= encode_scalar(s[k] as u32));
    assert(s.take(s.len() as int) =~= s.take(k + 1) + s.skip(k + 1));
    lemma_encode_append(s.take(k + 1), s.skip(k + 1));
}

/// Number of bytes of `c` in UTF-8.
fn utf8_width(c: char) -> (r: usize)
    ensures
        r == encode_scalar(c as u32).len(),
{
    proof {
        vstd::utf8::char_is_scalar(c);
    }
    let code: u32 = c as u32;
    if code < 0x80 {
        1
    } else if code < 0x800 {
        2
    } else if code < 0x10000 {
        3
    } else {
        4
    }
}

/// The characters of `src`, and the byte offset of every character position
/// (one more than there are characters).
pub(crate) fn chars_and_offsets(src: &str) -> (r: (Vec<char>, Vec<usize>))
    ensures
        r.0@ == src@,
        r.1@.len() == src@.len() + 1,
        forall|k: int| 0 <= k <= src@.len() ==> r.1@[k] == bpos(src@, k as nat),
{
    let total = src.as_bytes().len();
    let ghost whole = src@;
    let mut chars: Vec<char> = Vec::new();
    let mut offs: Vec<usize> = Vec::new();
    let mut pos: usize = 0;
    offs.push(0);
    assert(whole.take(0) =~= Seq::<char>::empty());
    let mut it = src.chars();
    proof {
        broadcast use vstd::string::axiom_spec_iter;
        assert(whole.take(whole.len() as int) =~= whole);
    }
    loop
        invariant
            whole == src@,
            total == bpos(whole, whole.len()),
            chars@.len() <= whole.len(),
            chars@ == whole.take(chars@.len() as int),
            it.remaining() == whole.skip(chars@.len() as int),
            offs@.len() == chars@.len() + 1,
            pos == bpos(whole, chars@.len()),
            forall|k: int| 0 <= k <= chars@.len() ==> offs@[k] == bpos(whole, k as nat),
        decreases whole.len() - chars@.len(),
    {
        let ghost before = it;
        let ghost i = chars@.len();
        let c = it.next();
        proof {
            broadcast use vstd::string::next_postcondition;
            assert(before.obeys_prophetic_iter_laws());
        }
        match c {
            Some(ch) => {
                assert(whole.skip(i as int)[0] == whole[i as int]);
                proof {
                    lemma_bpos_step(whole, i);
                }
                let w = utf8_width(ch);
                pos = pos + w;
                chars.push(ch);
                offs.push(pos);
                assert(chars@ =~= whole.take(chars@.len() as int));
                assert(it.remaining() =~= whole.skip(chars@.len() as int));
            },
            None => {
                assert(before.remaining().len() == 0);
                assert(chars@ =~= whole);
                return (chars, offs);
            },
        }
    }
}

// ── Executable lexer ─────────────────────────────────────────────────────────

/// One step of the lexer, with an actual token.
pub(crate) enum Stepped {
    Skip(usize),
    Tok(Token, usize),
    Bad(usize),
}

pub(crate) open spec fn stepped_v(st: Stepped) -> Step {
    match st {
        Stepped::Skip(j) => Step::Skip(j as nat),
        Stepped::Tok(t, j) => Step::Tok(t@, j as nat),
        Stepped::Bad(j) => Step::Bad(j as nat),
    }
}

fn is_ws_exec(c: char) -> (r: bool)
    ensures
        r == is_ws(c),
{
    c == ' ' || c == '\t' || c == '\n' || c == '\r'
}

fn is_lower_exec(c: char) -> (r: bool)
    ensures
        r == is_lower(c),
{
    let u: u32 = c as u32;
    0x61 <= u && u <= 0x7a
}

fn is_upper_exec(c: char) -> (r: bool)
    ensures
        r == is_upper(c),
{
    let u: u32 = c as u32;
    0x41 <= u && u <= 0x5a
}

fn is_digit_exec(c: char) -> (r: bool)
    ensures
        r == is_digit(c),
{
    let u: u32 = c as u32;
    0x30 <= u && u <= 0x39
}

fn is_ident_exec(c: char) -> (r: bool)
    ensures
        r == is_ident(c),
{
    is_lower_exec(c) || is_upper_exec(c) || is_digit_exec(c) || c == '_'
}

fn ws_end_exec(s: &Vec<char>, i: usize) -> (r: usize)
    requires
        i <= s@.len(),
    ensures
        r == ws_end(s@, i as nat),
{
    let mut k = i;
    while k < s.len() && is_ws_exec(s[k])
        invariant
            i <= k <= s@.len(),
            ws_end(s@, i as nat) == ws_end(s@, k as nat),
        decreases s@.len() - k,
    {
        k += 1;
    }
    k
}

fn ident_end_exec(s: &Vec<char>, i: usize) -> (r: usize)
    requires
        i <= s@.len(),
    ensures
        r == ident_end(s@, i as nat),
{
    let mut k = i;
    while k < s.len() && is_ident_exec(s[k])
        invariant
            i <= k <= s@.len(),
            ident_end(s@, i as nat) == ident_end(s@, k as nat),
        decreases s@.len() - k,
    {
        k += 1;
    }
    k
}

fn digits_end_exec(s: &Vec<char>, i: usize) -> (r: usize)
    requires
        i <= s@.len(),
    ensures
        r == digits_end(s@, i as nat),
{
    let mut k = i;
    while k < s.len() && is_digit_exec(s[k])
        invariant
            i <= k <= s@.len(),
            digits_end(s@, i as nat) == digits_end(s@, k as nat),
        decreases s@.len() - k,
    {
        k += 1;
    }
    k
}

fn line_end_exec(s: &Vec<char>, i: usize) -> (r: usize)
    requires
        i <= s@.len(),
    ensures
        r == line_end(s@, i as nat),
{
    let mut k = i;
    while k < s.len() && s[k] != '\n'
        invariant
            i <= k <= s@.len(),
            line_end(s@, i as nat) == line_end(s@, k as nat),
        decreases s@.len() - k,
    {
        k += 1;
    }
    k
}

fn str_end_exec(s: &Vec<char>, i: usize) -> (r: Option<usize>)
    requires
        i <= s@.len(),
    ensures
        match r {
            Some(j) => str_end(s@, i as nat) == Some(j as nat),
            None => str_end(s@, i as nat) is None,
        },
{
    let mut k = i;
    while k < s.len()
        invariant
            i <= k <= s@.len(),
            str_end(s@, i as nat) == str_end(s@, k as nat),
        decreases s@.len() - k,
    {
        let c = s[k];
        if c == '"' {
            return Some(k + 1);
        } else if c == '\\' {
            if k + 1 < s.len() && s[k + 1] != '\n' {
                k += 2;
            } else {
                return None;
            }
        } else {
            k += 1;
        }
    }
    None
}

/// Value of the digits `s[a..b]`, or `None` when it is beyond `u64`.
fn digits_value(s: &Vec<char>, a: usize, b: usize) -> (r: Option<u64>)
    requires
        a <= b <= s@.len(),
        forall|k: int| a <= k < b ==> is_digit(#[trigger] s@[k]),
    ensures
        match r {
            Some(v) => v == digits_val(s@, a as nat, b as nat),
            None => digits_val(s@, a as nat, b as nat) > u64::MAX,
        },
{
    let mut k = a;
    let mut acc: u64 = 0;
    while k < b
        invariant
            a <= k <= b <= s@.len(),
            forall|m: int| a <= m < b ==> is_digit(#[trigger] s@[m]),
            acc == digits_val(s@, a as nat, k as nat),
        decreases b - k,
    {
        let d: u64 = (s[k] as u32 - 0x30) as u64;
        assert(digits_val(s@, a as nat, (k + 1) as nat) == digits_val(s@, a as nat, k as nat) * 10
            + d);
        if acc > (u64::MAX - d) / 10 {
            proof {
                lemma_digits_val_grows(s@, a as nat, (k + 1) as nat, b as nat);
            }
            return None;
        }
        acc = acc * 10 + d;
        k += 1;
    }
    Some(acc)
}

proof fn lemma_digits_val_grows(s: Seq<char>, a: nat, k: nat, b: nat)
    requires
        a <= k <= b <= s.len(),
        forall|m: int| a <= m < b ==> is_digit(#[trigger] s[m]),
    ensures
        digits_val(s, a, k) <= digits_val(s, a, b),
    decreases b - k,
{
    if k < b {
        lemma_digits_val_grows(s, a, k, (b - 1) as nat);
    }
}

proof fn lemma_digits_run(s: Seq<char>, i: nat)
    requires
        i <= s.len(),
    ensures
        forall|m: int| i <= m < digits_end(s, i) ==> is_digit(#[trigger] s[m]),
        i <= digits_end(s, i) <= s.len(),
    decreases s.len() - i,
{
    if i < s.len() && is_digit(s[i as int]) {
        lemma_digits_run(s, i + 1);
    }
}

/// The characters `s[a..b]` as a string.
fn slice_string(s: &Vec<char>, a: usize, b: usize) -> (r: String)
    requires
        a <= b <= s@.len(),
    ensures
        r@ == s@.subrange(a as int, b as int),
{
    let mut out = String::new();
    let mut k = a;
    while k < b
        invariant
            a <= k <= b <= s@.len(),
            out@ == s@.subrange(a as int, k as int),
        decreases b - k,
    {
        push_char(&mut out, s[k]);
        assert(out@ =~= s@.subrange(a as int, k + 1));
        k += 1;
    }
    out
}

/// A keyword token, or a lower-case name.
fn word_token(w: String) -> (r: Token)
    ensures
        r@ == match keyword(w@) {
            Some(k) => k,
            None => TokV::Lower(w@),
        },
{
    if w == String::from_str("let") {
        Token::Let
    } else if w == String::from_str("in") {
        Token::In
    } else if w == String::from_str("if") {
        Token::If
    } else if w == String::from_str("then") {
        Token::Then
    } else if w == String::from_str("else") {
        Token::Else
    } else if w == String::from_str("match") {
        Token::Match
    } else if w == String::from_str("foreign") {
        Token::Foreign
    } else {
        Token::Lower(w)
    }
}

/// A numeral starting at `i` (with its sign, if any); its digits start at `start`.
fn numeral_step(s: &Vec<char>, i: usize, start: usize) -> (r: Stepped)
    requires
        i < s@.len(),
        start < s@.len(),
        is_digit(s@[start as int]),
        (s@[i as int] == '-' && start == i + 1) || (is_digit(s@[i as int]) && start == i),
    ensures
        stepped_v(r) == step(s@, i as nat),
{
    proof {
        lemma_digits_run(s@, (start + 1) as nat);
    }
    let n = s.len();
    assert(start + 1 <= n);
    let j = digits_end_exec(s, start + 1);
    let neg = s[i] == '-';
    let value = digits_value(s, start, j);
    match value {
        Some(v) => {
            if neg {
                if v <= 9223372036854775808u64 {
                    let n: i64 = if v == 9223372036854775808u64 {
                        i64::MIN
                    } else {
                        -(v as i64)
                    };
                    Stepped::Tok(Token::Int(n), j)
                } else {
                    Stepped::Bad(j)
                }
            } else {
                if v <= 9223372036854775807u64 {
                    Stepped::Tok(Token::Int(v as i64), j)
                } else {
                    Stepped::Bad(j)
                }
            }
        },
        None => Stepped::Bad(j),
    }
}

/// What the lexer does at `i`.
pub(crate) fn step_exec(s: &Vec<char>, i: usize) -> (r: Stepped)
    requires
        i < s@.len(),
    ensures
        stepped_v(r) == step(s@, i as nat),
{
    let c = s[i];
    let n = s.len();
    let has_next = n - i > 1;
    let next = if has_next {
        s[i + 1]
    } else {
        ' '
    };
    if is_ws_exec(c) {
        Stepped::Skip(ws_end_exec(s, i + 1))
    } else if c == '-' && has_next && next == '-' {
        Stepped::Skip(line_end_exec(s, i + 2))
    } else if c == '-' && has_next && next == '>' {
        Stepped::Tok(Token::Arrow, i + 2)
    } else if is_digit_exec(c) {
        numeral_step(s, i, i)
    } else if c == '-' && has_next && is_digit_exec(next) {
        numeral_step(s, i, i + 1)
    } else if c == '=' && has_next && next == '>' {
        Stepped::Tok(Token::FatArrow, i + 2)
    } else if c == '=' {
        Stepped::Tok(Token::Equals, i + 1)
    } else if c == '\\' {
        Stepped::Tok(Token::Backslash, i + 1)
    } else if c == ',' {
        Stepped::Tok(Token::Comma, i + 1)
    } else if c == ';' {
        Stepped::Tok(Token::Semicolon, i + 1)
    } else if c == '|' {
        Stepped::Tok(Token::Pipe, i + 1)
    } else if c == '(' {
        Stepped::Tok(Token::LParen, i + 1)
    } else if c == ')' {
        Stepped::Tok(Token::RParen, i + 1)
    } else if c == '{' {
        Stepped::Tok(Token::LBrace, i + 1)
    } else if c == '}' {
        Stepped::Tok(Token::RBrace, i + 1)
    } else if c == '_' {
        Stepped::Tok(Token::Underscore, i + 1)
    } else if is_lower_exec(c) {
        let j = ident_end_exec(s, i + 1);
        proof {
            lemma_runs(s@, (i + 1) as nat);
        }
        let w = slice_string(s, i, j);
        Stepped::Tok(word_token(w), j)
    } else if is_upper_exec(c) {
        let j = ident_end_exec(s, i + 1);
        proof {
            lemma_runs(s@, (i + 1) as nat);
        }
        Stepped::Tok(Token::Upper(slice_string(s, i, j)), j)
    } else if c == '"' {
        proof {
            lemma_runs(s@, (i + 1) as nat);
        }
        match str_end_exec(s, i + 1) {
            Some(j) => Stepped::Tok(Token::Str(slice_string(s, i + 1, j - 1)), j),
            None => Stepped::Bad(i + 1),
        }
    } else {
        Stepped::Bad(i + 1)
    }
}

/// The message for the characters at byte span `a..b`.
pub(crate) fn error_message(a: usize, b: usize) -> (r: String)
    ensures
        r@ == error_text(a as nat, b as nat),
{
    let mut m = String::from_str("unexpected character at ");
    push_usize(&mut m, a);
    m.append("..");
    push_usize(&mut m, b);
    m
}

} // verus!
