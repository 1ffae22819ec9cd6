//! C string-literal escaping and upper-casing of constructor tags.
use vstd::prelude::*;
use vstd::std_specs::iter::IteratorSpec;
use vstd::string::*;

verus! {

// ── Model ─────────────────────────────────────────────────────────────────────

/// The hexadecimal digit `d` (lower case) as text.
pub open spec fn hex_digit(d: nat) -> Seq<char> {
    if d < 10 {
        crate::text::digit(d)
    } else if d == 10 {
        "a"@
    } else if d == 11 {
        "b"@
    } else if d == 12 {
        "c"@
    } else if d == 13 {
        "d"@
    } else if d == 14 {
        "e"@
    } else {
        "f"@
    }
}

/// Hexadecimal numeral of `n` in lower case, without leading zeros.
pub open spec fn hex_nat(n: nat) -> Seq<char>
    decreases n,
{
    if n < 16 {
        hex_digit(n)
    } else {
        hex_nat(n / 16) + hex_digit(n % 16)
    }
}

/// How `char::escape_default` writes one character: tab, carriage return and
/// line feed as `\t`, `\r`, `\n`; backslash and both quotes behind a backslash;
/// the rest of printable ASCII (0x20 to 0x7e) as itself; anything else as
/// `\u{..}` with its code point in hexadecimal.
pub open spec fn char_escape(c: char) -> Seq<char> {
    if c == '\t' {
        "\\t"@
    } else if c == '\r' {
        "\\r"@
    } else if c == '\n' {
        "\\n"@
    } else if c == '\\' || c == '\'' || c == '"' {
        seq!['\\', c]
    } else if 0x20 <= (c as u32) <= 0x7e {
        seq![c]
    } else {
        "\\u{"@ + hex_nat(c as u32 as nat) + "}"@
    }
}

/// `s` with every character escaped as `str::escape_default` does.
pub open spec fn escape_text(s: Seq<char>) -> Seq<char>
    decreases s.len(),
{
    if s.len() == 0 {
        Seq::empty()
    } else {
        escape_text(s.drop_last()) + char_escape(s.last())
    }
}

/// Name for what `str::to_uppercase` returns on a text: its Unicode upper-case
/// mapping, which is not spelled out here.
pub uninterp spec fn uppercase(s: Seq<char>) -> Seq<char>;

// ── Trusted calls into std ───────────────────────────────────────────────────

/// Appends one character.  Calls `String::push`, which appends the given
/// `char` to the end of the string.
#[verifier::external_body]
pub(crate) fn push_char(out: &mut String, c: char)
    ensures
        final(out)@ == old(out)@.push(c),
{
    out.push(c);
}

/// Upper case of a tag.  Calls `str::to_uppercase`; its result is a function
/// of the text alone and is named `uppercase`.
#[verifier::external_body]
pub(crate) fn to_upper(s: &str) -> (r: String)
    ensures
        r@ == uppercase(s@),
{
    s.to_uppercase()
}

// ── Escaping ─────────────────────────────────────────────────────────────────

fn hex_digit_str(d: u32) -> (r: &'static str)
    requires
        d < 16,
    ensures
        r@ == hex_digit(d as nat),
{
    if d == 0 {
        "0"
    } else if d == 1 {
        "1"
    } else if d == 2 {
        "2"
    } else if d == 3 {
        "3"
    } else if d == 4 {
        "4"
    } else if d == 5 {
        "5"
    } else if d == 6 {
        "6"
    } else if d == 7 {
        "7"
    } else if d == 8 {
        "8"
    } else if d == 9 {
        "9"
    } else if d == 10 {
        "a"
    } else if d == 11 {
        "b"
    } else if d == 12 {
        "c"
    } else if d == 13 {
        "d"
    } else if d == 14 {
        "e"
    } else {
        "f"
    }
}

/// Appends the hexadecimal numeral of `n`.
fn push_hex(out: &mut String, n: u32)
    ensures
        final(out)@ == old(out)@ + hex_nat(n as nat),
    decreases n,
{
    if n < 16 {
        out.append(hex_digit_str(n));
    } else {
        push_hex(out, n / 16);
        out.append(hex_digit_str(n % 16));
        assert(old(out)@ + hex_nat(n as nat) =~= old(out)@ + hex_nat((n / 16) as nat) + hex_digit(
            (n % 16) as nat,
        ));
    }
}

/// Appends the escaped form of one character.
fn push_char_escaped(out: &mut String, c: char)
    ensures
        final(out)@ == old(out)@ + char_escape(c),
{
    let code: u32 = c as u32;
    if c == '\t' {
        out.append("\\t");
    } else if c == '\r' {
        out.append("\\r");
    } else if c == '\n' {
        out.append("\\n");
    } else if c == '\\' || c == '\'' || c == '"' {
        push_char(out, '\\');
        push_char(out, c);
        assert(out@ =~= old(out)@ + char_escape(c));
    } else if 0x20 <= code && code <= 0x7e {
        push_char(out, c);
        assert(out@ =~= old(out)@ + char_escape(c));
    } else {
        out.append("\\u{");
        push_hex(out, code);
        out.append("}");
        assert(out@ =~= old(out)@ + char_escape(c));
    }
}

/// Appends `s` with every character escaped as `str::escape_default` does.
pub fn push_escaped(out: &mut String, s: &str)
    ensures
        final(out)@ == old(out)@ + escape_text(s@),
{
    let ghost whole = s@;
    let ghost start = out@;
    let ghost mut i: int = 0;
    let mut it = s.chars();
    proof {
        broadcast use vstd::string::axiom_spec_iter;
    }
    loop
        invariant
            whole == s@,
            start == old(out)@,
            0 <= i <= whole.len(),
            it.remaining() == whole.subrange(i, whole.len() as int),
            out@ == start + escape_text(whole.subrange(0, i)),
        decreases whole.len() - i,
    {
        let ghost before = it;
        let c = it.next();
        proof {
            broadcast use vstd::string::next_postcondition;
            assert(before.obeys_prophetic_iter_laws());
        }
        match c {
            Some(ch) => {
                push_char_escaped(out, ch);
                proof {
                    assert(whole.subrange(0, i + 1).drop_last() =~= whole.subrange(0, i));
                    assert(out@ =~= start + escape_text(whole.subrange(0, i + 1)));
                    i = i + 1;
                }
                assert(it.remaining() =~= whole.subrange(i, whole.len() as int));
            },
            None => {
                assert(before.remaining().len() == 0);
                assert(whole.subrange(0, i) =~= whole);
                return;
            },
        }
    }
}

} // verus!
