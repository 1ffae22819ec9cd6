//! Block comments that show an RC expression above the C code made from it.
use vstd::prelude::*;
use vstd::std_specs::iter::IteratorSpec;
use vstd::string::*;

use super::escape::push_char;
use crate::rc::pp::rc_indent;
use crate::rc::Expr;
use crate::simplify::tsize;

verus! {

// ── Model ─────────────────────────────────────────────────────────────────────

/// Index of the first line feed in `s`, or its length when there is none.
pub open spec fn first_nl(s: Seq<char>) -> nat
    decreases s.len(),
{
    if s.len() == 0 {
        0
    } else if s[0] == '\n' {
        0
    } else {
        1 + first_nl(s.drop_first())
    }
}

/// A line without the carriage return that ended it, if any.
pub open spec fn strip_cr(l: Seq<char>) -> Seq<char> {
    if l.len() > 0 && l.last() == '\r' {
        l.drop_last()
    } else {
        l
    }
}

/// The lines of `s` as `str::lines` yields them: split at `\n` or `\r\n`, the
/// terminators left out, and no empty line after a final terminator.
pub open spec fn lines_of(s: Seq<char>) -> Seq<Seq<char>>
    decreases s.len(),
{
    if s.len() == 0 {
        Seq::empty()
    } else {
        let i = first_nl(s);
        proof {
            lemma_first_nl_bound(s);
        }
        if i >= s.len() {
            seq![s]
        } else {
            seq![strip_cr(s.take(i as int))] + lines_of(s.skip(i + 1 as int))
        }
    }
}

/// Each line behind ` *   `, one per line.
pub open spec fn star_lines(ls: Seq<Seq<char>>) -> Seq<char>
    decreases ls.len(),
{
    if ls.len() == 0 {
        Seq::empty()
    } else {
        star_lines(ls.drop_last()) + " *   "@ + ls.last() + "\n"@
    }
}

/// A C block comment headed `label:` whose lines are those of `body`.
pub open spec fn comment_text(label: Seq<char>, body: Seq<char>) -> Seq<char> {
    "/* "@ + label + ":\n"@ + star_lines(lines_of(body)) + " */"@
}

pub open spec fn no_nl(s: Seq<char>) -> bool {
    forall|j: int| 0 <= j < s.len() ==> s[j] != '\n'
}

// ── Lemmas ───────────────────────────────────────────────────────────────────

pub proof fn lemma_first_nl_bound(s: Seq<char>)
    ensures
        first_nl(s) <= s.len(),
        first_nl(s) < s.len() ==> s[first_nl(s) as int] == '\n',
        forall|j: int| 0 <= j < first_nl(s) ==> s[j] != '\n',
    decreases s.len(),
{
    if s.len() > 0 && s[0] != '\n' {
        lemma_first_nl_bound(s.drop_first());
        assert forall|j: int| 0 <= j < first_nl(s) implies s[j] != '\n' by {
            if j > 0 {
                assert(s[j] == s.drop_first()[j - 1]);
            }
        }
    }
}

proof fn lemma_first_nl_at(s: Seq<char>, k: int)
    requires
        0 <= k <= s.len(),
        forall|j: int| 0 <= j < k ==> s[j] != '\n',
        k < s.len() ==> s[k] == '\n',
    ensures
        first_nl(s) == k,
{
    lemma_first_nl_bound(s);
    if first_nl(s) < k {
        assert(s[first_nl(s) as int] == '\n');
    }
}

/// A line followed by a line feed is split off whole.
proof fn lemma_lines_split(x: Seq<char>, y: Seq<char>)
    requires
        no_nl(x),
    ensures
        lines_of(x + seq!['\n'] + y) == seq![strip_cr(x)] + lines_of(y),
{
    let s = x + seq!['\n'] + y;
    lemma_first_nl_at(s, x.len() as int);
    assert(s.take(x.len() as int) =~= x);
    assert(s.skip(x.len() + 1 as int) =~= y);
}

/// A last line with no line feed after it.
proof fn lemma_lines_last(x: Seq<char>)
    requires
        no_nl(x),
    ensures
        lines_of(x) == (if x.len() == 0 {
            Seq::<Seq<char>>::empty()
        } else {
            seq![x]
        }),
{
    lemma_first_nl_at(x, x.len() as int);
}

// ── Rendering ────────────────────────────────────────────────────────────────

/// The text of the line being read: what was kept, and a carriage return that
/// waits to see whether a line feed follows.
spec fn pending(cur: Seq<char>, cr: bool) -> Seq<char> {
    if cr {
        cur.push('\r')
    } else {
        cur
    }
}

/// Appends the lines of `s`, each behind ` *   ` and ended by a line feed.
fn push_star_lines(out: &mut String, s: &str)
    ensures
        final(out)@ == old(out)@ + star_lines(lines_of(s@)),
{
    let ghost whole = s@;
    let ghost start = old(out)@;
    let ghost mut i: int = 0;
    let ghost mut done: Seq<Seq<char>> = Seq::empty();
    let mut cur = String::new();
    let mut cr = false;
    let mut nonempty = false;
    let mut it = s.chars();
    proof {
        broadcast use vstd::string::axiom_spec_iter;
    }
    loop
        invariant
            whole == s@,
            start == old(out)@,
            0 <= i <= whole.len(),
            it.remaining() == whole.subrange(i, whole.len() as int),
            out@ == start + star_lines(done),
            no_nl(pending(cur@, cr)),
            nonempty == (cur@.len() > 0),
            !cr ==> strip_cr(cur@) == cur@,
            lines_of(whole) == done + lines_of(pending(cur@, cr) + whole.subrange(
                i,
                whole.len() as int,
            )),
        decreases whole.len() - i,
    {
        let ghost before = it;
        let ghost rest = whole.subrange(i, whole.len() as int);
        let c = it.next();
        proof {
            broadcast use vstd::string::next_postcondition;
            assert(before.obeys_prophetic_iter_laws());
        }
        match c {
            Some(ch) => {
                let ghost next_rest = whole.subrange(i + 1, whole.len() as int);
                assert(rest =~= seq![ch] + next_rest);
                if ch == '\n' {
                    let ghost line = pending(cur@, cr);
                    proof {
                        assert(line + rest =~= line + seq!['\n'] + next_rest);
                        lemma_lines_split(line, next_rest);
                        if cr {
                            assert(strip_cr(line) =~= cur@);
                        }
                    }
                    out.append(" *   ");
                    out.append(cur.as_str());
                    out.append("\n");
                    proof {
                        assert(done.push(cur@).drop_last() =~= done);
                        assert(out@ =~= start + star_lines(done.push(cur@)));
                        assert(lines_of(whole) =~= done.push(cur@) + lines_of(
                            pending(Seq::empty(), false) + next_rest,
                        ));
                        done = done.push(cur@);
                    }
                    cur = String::new();
                    cr = false;
                    nonempty = false;
                } else if ch == '\r' {
                    let ghost old_cur = cur@;
                    let ghost old_cr = cr;
                    if cr {
                        push_char(&mut cur, '\r');
                        nonempty = true;
                    }
                    cr = true;
                    proof {
                        assert(pending(cur@, cr) + next_rest =~= pending(old_cur, old_cr) + rest);
                    }
                } else {
                    let ghost old_cur = cur@;
                    let ghost old_cr = cr;
                    if cr {
                        push_char(&mut cur, '\r');
                    }
                    push_char(&mut cur, ch);
                    cr = false;
                    nonempty = true;
                    proof {
                        assert(pending(cur@, cr) + next_rest =~= pending(old_cur, old_cr) + rest);
                        assert(strip_cr(cur@) == cur@);
                    }
                }
                proof {
                    i = i + 1;
                }
                assert(it.remaining() =~= whole.subrange(i, whole.len() as int));
            },
            None => {
                assert(before.remaining().len() == 0);
                assert(rest =~= Seq::<char>::empty());
                assert(pending(cur@, cr) + rest =~= pending(cur@, cr));
                proof {
                    lemma_lines_last(pending(cur@, cr));
                }
                if cr {
                    push_char(&mut cur, '\r');
                }
                if nonempty || cr {
                    out.append(" *   ");
                    out.append(cur.as_str());
                    out.append("\n");
                    assert(done.push(cur@).drop_last() =~= done);
                    assert(out@ =~= start + star_lines(done.push(cur@)));
                    assert(lines_of(whole) =~= done.push(cur@));
                } else {
                    assert(cur@.len() == 0);
                    assert(lines_of(whole) =~= done);
                }
                return;
            },
        }
    }
}

/// A block comment headed `label:` that shows `expr` as `pretty_print` does.
pub(crate) fn rc_comment(label: &str, expr: &Expr) -> (r: String)
    requires
        2 * tsize(expr@) <= usize::MAX,
    ensures
        r@ == comment_text(label@, rc_indent(expr@, 0) + "\n"@),
{
    let text = expr.pretty_print();
    let mut out = String::new();
    out.append("/* ");
    out.append(label);
    out.append(":\n");
    push_star_lines(&mut out, text.as_str());
    out.append(" */");
    out
}

} // verus!
