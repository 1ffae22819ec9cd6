//! RC-expression simplification pass.
//!
//! Eliminates redundant RC operations by applying a small set of rewrite rules
//! bottom-up, iterated to a fixpoint.
//!
//! **Cancellation** — adjacent dup/drop on the same variable annihilate:
//!
//!   Dup(x, Drop(x, e))  →  e
//!   Drop(x, Dup(x, e))  →  e
//!
//! Cancellation is tried at a node before its body is rewritten, so the pair
//! cancels even where a rule would otherwise rewrite the inner node first.
//!
//! **Single use** — if the body uses x at most once (as a variable, a capture,
//! a scrutinee or a Drop target, counting every branch), the increment is not
//! needed:
//!
//!   Dup(x, e)           →  e        when uses(x, e) ≤ 1
//!
//! **Commuting** — move a Dup or Drop past a Let whose value doesn't use the
//! variable, pushing the op closer to its use (or its paired op):
//!
//!   Dup(x,  Let(y, v, b))  →  Let(y, v, Dup(x,  b))   when x ∉ mentions(v), y ≠ x
//!   Drop(x, Let(y, v, b))  →  Let(y, v, Drop(x, b))   when x ∉ mentions(v), y ≠ x
use vstd::prelude::*;

use crate::names::{contains_name, names};
use crate::rc::{arm_term, arm_terms, lemma_view_children, opt_chars, term, terms, ArmTerm, Expr, MatchArm, Term};

verus! {

// ── Measures ─────────────────────────────────────────────────────────────────

/// Number of nodes of a term.
pub open spec fn tsize(t: Term) -> nat
    decreases t,
{
    match t {
        Term::Lit(_) => 1,
        Term::Var(_) => 1,
        Term::Let { value, body, .. } => 1 + tsize(*value) + tsize(*body),
        Term::Lam { body, .. } => 1 + tsize(*body),
        Term::App(f, x) => 1 + tsize(*f) + tsize(*x),
        Term::If { cond, then_, else_ } => 1 + tsize(*cond) + tsize(*then_) + tsize(*else_),
        Term::Dup { body, .. } => 1 + tsize(*body),
        Term::Drop { body, .. } => 1 + tsize(*body),
        Term::Match { arms, .. } => 1 + tsize_arms(arms),
        Term::Con { fields, .. } => 1 + tsize_list(fields),
        Term::Foreign { args, .. } => 1 + tsize_list(args),
    }
}

pub open spec fn tsize_list(ts: Seq<Term>) -> nat
    decreases ts,
{
    if ts.len() == 0 {
        0
    } else {
        tsize_list(ts.drop_last()) + tsize(ts.last())
    }
}

pub open spec fn tsize_arms(arms: Seq<ArmTerm>) -> nat
    decreases arms,
{
    if arms.len() == 0 {
        0
    } else {
        tsize_arms(arms.drop_last()) + tsize(arms.last().body)
    }
}

/// Sum, over the Dup and Drop nodes of a term, of the size of the subterm they
/// head.  Every rewrite of the simplifier strictly decreases it.
pub open spec fn weight(t: Term) -> nat
    decreases t,
{
    match t {
        Term::Lit(_) => 0,
        Term::Var(_) => 0,
        Term::Let { value, body, .. } => weight(*value) + weight(*body),
        Term::Lam { body, .. } => weight(*body),
        Term::App(f, x) => weight(*f) + weight(*x),
        Term::If { cond, then_, else_ } => weight(*cond) + weight(*then_) + weight(*else_),
        Term::Dup { body, .. } => tsize(t) + weight(*body),
        Term::Drop { body, .. } => tsize(t) + weight(*body),
        Term::Match { arms, .. } => weight_arms(arms),
        Term::Con { fields, .. } => weight_list(fields),
        Term::Foreign { args, .. } => weight_list(args),
    }
}

pub open spec fn weight_list(ts: Seq<Term>) -> nat
    decreases ts,
{
    if ts.len() == 0 {
        0
    } else {
        weight_list(ts.drop_last()) + weight(ts.last())
    }
}

pub open spec fn weight_arms(arms: Seq<ArmTerm>) -> nat
    decreases arms,
{
    if arms.len() == 0 {
        0
    } else {
        weight_arms(arms.drop_last()) + weight(arms.last().body)
    }
}

// ── Mentions ─────────────────────────────────────────────────────────────────

/// True if `v` appears in `t` — as a variable reference, a dup target, a drop
/// target, a capture, or a reuse token (a lambda's body is not looked into:
/// its captures are what it takes from the enclosing scope).
pub open spec fn mentions_t(v: Seq<char>, t: Term) -> bool
    decreases t,
{
    match t {
        Term::Lit(_) => false,
        Term::Var(x) => x == v,
        Term::Dup { var, body } => var == v || mentions_t(v, *body),
        Term::Drop { var, body } => var == v || mentions_t(v, *body),
        Term::Let { name, value, body } => mentions_t(v, *value) || (name != v && mentions_t(
            v,
            *body,
        )),
        Term::Lam { captures, .. } => captures.contains(v),
        Term::App(f, x) => mentions_t(v, *f) || mentions_t(v, *x),
        Term::If { cond, then_, else_ } => mentions_t(v, *cond) || mentions_t(v, *then_)
            || mentions_t(v, *else_),
        Term::Match { scrutinee, arms } => scrutinee == v || mentions_arms(v, arms),
        Term::Con { fields, reuse, .. } => reuse == Some(v) || mentions_list(v, fields),
        Term::Foreign { args, .. } => mentions_list(v, args),
    }
}

pub open spec fn mentions_list(v: Seq<char>, ts: Seq<Term>) -> bool
    decreases ts,
{
    if ts.len() == 0 {
        false
    } else {
        mentions_list(v, ts.drop_last()) || mentions_t(v, ts.last())
    }
}

/// Some arm that does not bind `v` carries `v` as reuse token or mentions it.
pub open spec fn mentions_arms(v: Seq<char>, arms: Seq<ArmTerm>) -> bool
    decreases arms,
{
    if arms.len() == 0 {
        false
    } else {
        mentions_arms(v, arms.drop_last()) || (!arms.last().bindings.contains(v) && (
        arms.last().reuse_token == Some(v) || mentions_t(v, arms.last().body)))
    }
}

/// How many times `t` uses `v` — as a variable, a lambda capture, a match
/// scrutinee or a Drop target — summed over every branch and arm (an arm that
/// binds `v` is not looked into; Dups and reuse tokens are not uses).
pub open spec fn uses_t(v: Seq<char>, t: Term) -> nat
    decreases t,
{
    match t {
        Term::Lit(_) => 0,
        Term::Var(x) => if x == v {
            1
        } else {
            0
        },
        Term::Dup { body, .. } => uses_t(v, *body),
        Term::Drop { var, body } => (if var == v {
            1nat
        } else {
            0nat
        }) + uses_t(v, *body),
        Term::Let { name, value, body } => uses_t(v, *value) + if name != v {
            uses_t(v, *body)
        } else {
            0
        },
        Term::Lam { captures, .. } => if captures.contains(v) {
            1
        } else {
            0
        },
        Term::App(f, x) => uses_t(v, *f) + uses_t(v, *x),
        Term::If { cond, then_, else_ } => uses_t(v, *cond) + uses_t(v, *then_) + uses_t(
            v,
            *else_,
        ),
        Term::Match { scrutinee, arms } => (if scrutinee == v {
            1nat
        } else {
            0nat
        }) + uses_arms(v, arms),
        Term::Con { fields, .. } => uses_list(v, fields),
        Term::Foreign { args, .. } => uses_list(v, args),
    }
}

pub open spec fn uses_list(v: Seq<char>, ts: Seq<Term>) -> nat
    decreases ts,
{
    if ts.len() == 0 {
        0
    } else {
        uses_list(v, ts.drop_last()) + uses_t(v, ts.last())
    }
}

pub open spec fn uses_arms(v: Seq<char>, arms: Seq<ArmTerm>) -> nat
    decreases arms,
{
    if arms.len() == 0 {
        0
    } else {
        uses_arms(v, arms.drop_last()) + if arms.last().bindings.contains(v) {
            0
        } else {
            uses_t(v, arms.last().body)
        }
    }
}

/// `n`, capped at 2.
pub open spec fn cap2(n: nat) -> nat {
    if n < 2 {
        n
    } else {
        2
    }
}

// ── One simplification sweep (with fuel) ─────────────────────────────────────

/// One bottom-up sweep: children first, then the current node, except that a
/// Dup and a Drop of the same variable directly nested cancel first.  The fuel
/// `n` only bounds the recursion; any fuel at least the size of the term gives
/// the same result (`lemma_step`).
pub open spec fn step_f(t: Term, n: nat) -> Term
    decreases n, 0nat,
{
    if n == 0 {
        t
    } else {
        let m = (n - 1) as nat;
        match t {
            Term::Dup { var, body } => match *body {
                Term::Drop { var: v, body: e } if v == var => step_f(*e, m),
                _ => reduce_dup_f(var, step_f(*body, m), m),
            },
            Term::Drop { var, body } => match *body {
                Term::Dup { var: v, body: e } if v == var => step_f(*e, m),
                _ => reduce_drop_f(var, step_f(*body, m), m),
            },
            Term::Let { name, value, body } => Term::Let {
                name,
                value: Box::new(step_f(*value, m)),
                body: Box::new(step_f(*body, m)),
            },
            Term::Lam { param, captures, body } => Term::Lam {
                param,
                captures,
                body: Box::new(step_f(*body, m)),
            },
            Term::App(f, x) => Term::App(Box::new(step_f(*f, m)), Box::new(step_f(*x, m))),
            Term::If { cond, then_, else_ } => Term::If {
                cond: Box::new(step_f(*cond, m)),
                then_: Box::new(step_f(*then_, m)),
                else_: Box::new(step_f(*else_, m)),
            },
            Term::Match { scrutinee, arms } => Term::Match { scrutinee, arms: step_arms(arms, m) },
            Term::Con { tag, fields, reuse } => Term::Con { tag, fields: step_list(fields, m), reuse },
            Term::Foreign { name, args } => Term::Foreign { name, args: step_list(args, m) },
            // Literals and variables are left as they are.
            _ => t,
        }
    }
}

pub open spec fn reduce_dup_f(var: Seq<char>, body: Term, n: nat) -> Term
    decreases n, 0nat,
{
    if n == 0 {
        Term::Dup { var, body: Box::new(body) }
    } else {
        let m = (n - 1) as nat;
        match body {
            // Dup(x, Drop(x, e))  →  e
            Term::Drop { var: v, body: e } if v == var => step_f(*e, m),
            // Commute past a Let that does not bind x, when x is not used in the value.
            Term::Let { name, value, body: inner } if name != var && !mentions_t(var, *value) => Term::Let {
                name,
                value,
                body: Box::new(reduce_dup_f(var, *inner, m)),
            },
            // Single use: the body uses x at most once.
            _ if uses_t(var, body) <= 1 => body,
            _ => Term::Dup { var, body: Box::new(body) },
        }
    }
}

pub open spec fn reduce_drop_f(var: Seq<char>, body: Term, n: nat) -> Term
    decreases n, 0nat,
{
    if n == 0 {
        Term::Drop { var, body: Box::new(body) }
    } else {
        let m = (n - 1) as nat;
        match body {
            // Drop(x, Dup(x, e))  →  e
            Term::Dup { var: v, body: e } if v == var => step_f(*e, m),
            // Commute past a Let that does not bind x, when x is not used in the value.
            Term::Let { name, value, body: inner } if name != var && !mentions_t(var, *value) => Term::Let {
                name,
                value,
                body: Box::new(reduce_drop_f(var, *inner, m)),
            },
            _ => Term::Drop { var, body: Box::new(body) },
        }
    }
}

/// `step_f` applied to each term.
pub open spec fn step_list(ts: Seq<Term>, m: nat) -> Seq<Term>
    decreases m, 1nat,
{
    Seq::new(ts.len(), |i: int| step_f(ts[i], m))
}

/// `step_f` applied to the body of each arm.
pub open spec fn step_arms(arms: Seq<ArmTerm>, m: nat) -> Seq<ArmTerm>
    decreases m, 1nat,
{
    Seq::new(
        arms.len(),
        |i: int|
            ArmTerm {
                tag: arms[i].tag,
                bindings: arms[i].bindings,
                reuse_token: arms[i].reuse_token,
                body: step_f(arms[i].body, m),
            },
    )
}

/// One simplification sweep.
pub open spec fn step_spec(t: Term) -> Term {
    step_f(t, tsize(t))
}

// ── Structural equality ──────────────────────────────────────────────────────

/// Structural equality used for fixpoint detection: the same variant with equal
/// names, literals, captures and reuse tokens (match arms included), and
/// children equal in turn.
pub open spec fn seq_t(a: Term, b: Term) -> bool
    decreases a,
{
    match (a, b) {
        (Term::Lit(l1), Term::Lit(l2)) => l1 == l2,
        (Term::Var(x), Term::Var(y)) => x == y,
        (Term::Dup { var: v1, body: b1 }, Term::Dup { var: v2, body: b2 }) => v1 == v2 && seq_t(
            *b1,
            *b2,
        ),
        (Term::Drop { var: v1, body: b1 }, Term::Drop { var: v2, body: b2 }) => v1 == v2 && seq_t(
            *b1,
            *b2,
        ),
        (
            Term::Let { name: n1, value: v1, body: b1 },
            Term::Let { name: n2, value: v2, body: b2 },
        ) => n1 == n2 && seq_t(*v1, *v2) && seq_t(*b1, *b2),
        (
            Term::Lam { param: p1, captures: c1, body: b1 },
            Term::Lam { param: p2, captures: c2, body: b2 },
        ) => p1 == p2 && c1 == c2 && seq_t(*b1, *b2),
        (Term::App(f1, a1), Term::App(f2, a2)) => seq_t(*f1, *f2) && seq_t(*a1, *a2),
        (
            Term::If { cond: c1, then_: t1, else_: e1 },
            Term::If { cond: c2, then_: t2, else_: e2 },
        ) => seq_t(*c1, *c2) && seq_t(*t1, *t2) && seq_t(*e1, *e2),
        (Term::Match { scrutinee: s1, arms: a1 }, Term::Match { scrutinee: s2, arms: a2 }) => s1
            == s2 && seq_arms(a1, a2),
        (
            Term::Con { tag: t1, fields: f1, reuse: r1 },
            Term::Con { tag: t2, fields: f2, reuse: r2 },
        ) => t1 == t2 && r1 == r2 && seq_list(f1, f2),
        (Term::Foreign { name: n1, args: a1 }, Term::Foreign { name: n2, args: a2 }) => n1 == n2
            && seq_list(a1, a2),
        _ => false,
    }
}

pub open spec fn seq_list(a: Seq<Term>, b: Seq<Term>) -> bool
    decreases a,
{
    if a.len() != b.len() {
        false
    } else if a.len() == 0 {
        true
    } else {
        seq_list(a.drop_last(), b.drop_last()) && seq_t(a.last(), b.last())
    }
}

pub open spec fn seq_arms(a: Seq<ArmTerm>, b: Seq<ArmTerm>) -> bool
    decreases a,
{
    if a.len() != b.len() {
        false
    } else if a.len() == 0 {
        true
    } else {
        seq_arms(a.drop_last(), b.drop_last()) && a.last().tag == b.last().tag
            && a.last().bindings == b.last().bindings && a.last().reuse_token
            == b.last().reuse_token && seq_t(a.last().body, b.last().body)
    }
}


// ── Lemmas about the sweep ───────────────────────────────────────────────────

pub proof fn lemma_tsize_pos(t: Term)
    ensures
        tsize(t) >= 1,
{
}


/// Facts about one sweep with enough fuel: the result does not depend on the
/// fuel, is no larger, and either leaves the term unchanged or lowers its weight.
pub proof fn lemma_step(t: Term, n: nat, k: nat)
    requires
        n >= tsize(t),
        k >= tsize(t),
    ensures
        step_f(t, n) == step_f(t, k),
        tsize(step_f(t, n)) <= tsize(t),
        step_f(t, n) == t || weight(step_f(t, n)) < weight(t),
    decreases tsize(t), 1nat,
{
    let m = (n - 1) as nat;
    let j = (k - 1) as nat;
    match t {
        Term::Dup { var, body } => {
            match *body {
                Term::Drop { var: v, body: e } if v == var => {
                    assert(tsize(*body) == 1 + tsize(*e));
                    lemma_step(*e, m, j);
                    assert(weight(*body) == tsize(*body) + weight(*e));
                    assert(step_f(t, n) == step_f(*e, m));
                    assert(step_f(t, k) == step_f(*e, j));
                },
                _ => {
                    lemma_step(*body, m, j);
                    let b = step_f(*body, m);
                    lemma_rdup(var, b, m, j);
                },
            }
        },
        Term::Drop { var, body } => {
            match *body {
                Term::Dup { var: v, body: e } if v == var => {
                    assert(tsize(*body) == 1 + tsize(*e));
                    lemma_step(*e, m, j);
                    assert(weight(*body) == tsize(*body) + weight(*e));
                    assert(step_f(t, n) == step_f(*e, m));
                    assert(step_f(t, k) == step_f(*e, j));
                },
                _ => {
                    lemma_step(*body, m, j);
                    let b = step_f(*body, m);
                    lemma_rdrop(var, b, m, j);
                },
            }
        },
        Term::Let { name, value, body } => {
            lemma_step(*value, m, j);
            lemma_step(*body, m, j);
        },
        Term::Lam { param, captures, body } => {
            lemma_step(*body, m, j);
        },
        Term::App(f, x) => {
            lemma_step(*f, m, j);
            lemma_step(*x, m, j);
        },
        Term::If { cond, then_, else_ } => {
            lemma_step(*cond, m, j);
            lemma_step(*then_, m, j);
            lemma_step(*else_, m, j);
        },
        Term::Match { scrutinee, arms } => {
            lemma_step_arms(arms, m, j);
            if step_arms(arms, m) == arms {
                assert(step_f(t, n) == t);
            }
        },
        Term::Con { tag, fields, reuse } => {
            lemma_step_list(fields, m, j);
            if step_list(fields, m) == fields {
                assert(step_f(t, n) == t);
            }
        },
        Term::Foreign { name, args } => {
            lemma_step_list(args, m, j);
            if step_list(args, m) == args {
                assert(step_f(t, n) == t);
            }
        },
        _ => {},
    }
}

proof fn lemma_step_list(ts: Seq<Term>, m: nat, k: nat)
    requires
        m >= tsize_list(ts),
        k >= tsize_list(ts),
    ensures
        step_list(ts, m) == step_list(ts, k),
        tsize_list(step_list(ts, m)) <= tsize_list(ts),
        step_list(ts, m) == ts || weight_list(step_list(ts, m)) < weight_list(ts),
    decreases tsize_list(ts), 2nat,
{
    if ts.len() > 0 {
        let last = ts.last();
        let init = ts.drop_last();
        lemma_tsize_pos(last);
        lemma_step_list(init, m, k);
        lemma_step(last, m, k);
        assert(step_list(ts, m).drop_last() =~= step_list(init, m));
        assert(step_list(ts, k).drop_last() =~= step_list(init, k));
        assert(step_list(ts, m) =~= step_list(ts, k)) by {
            assert(step_list(ts, m) =~= step_list(init, m).push(step_f(last, m)));
            assert(step_list(ts, k) =~= step_list(init, k).push(step_f(last, k)));
        }
        if step_list(init, m) == init && step_f(last, m) == last {
            assert(step_list(ts, m) =~= init.push(last));
            assert(init.push(last) =~= ts);
        }
    } else {
        assert(step_list(ts, m) =~= step_list(ts, k));
        assert(step_list(ts, m) =~= ts);
    }
}

pub proof fn lemma_tsize_list_elem(ts: Seq<Term>, i: int)
    requires
        0 <= i < ts.len(),
    ensures
        tsize(ts[i]) <= tsize_list(ts),
    decreases ts.len(),
{
    if i < ts.len() - 1 {
        lemma_tsize_list_elem(ts.drop_last(), i);
    }
}

pub proof fn lemma_tsize_arms_elem(arms: Seq<ArmTerm>, i: int)
    requires
        0 <= i < arms.len(),
    ensures
        tsize(arms[i].body) <= tsize_arms(arms),
    decreases arms.len(),
{
    if i < arms.len() - 1 {
        lemma_tsize_arms_elem(arms.drop_last(), i);
    }
}

proof fn lemma_step_arms(arms: Seq<ArmTerm>, m: nat, k: nat)
    requires
        m >= tsize_arms(arms),
        k >= tsize_arms(arms),
    ensures
        step_arms(arms, m) == step_arms(arms, k),
        tsize_arms(step_arms(arms, m)) <= tsize_arms(arms),
        step_arms(arms, m) == arms || weight_arms(step_arms(arms, m)) < weight_arms(arms),
    decreases tsize_arms(arms), 2nat,
{
    if arms.len() > 0 {
        let last = arms.last();
        let init = arms.drop_last();
        lemma_tsize_pos(last.body);
        lemma_step_arms(init, m, k);
        lemma_step(last.body, m, k);
        let lm = ArmTerm {
            tag: last.tag,
            bindings: last.bindings,
            reuse_token: last.reuse_token,
            body: step_f(last.body, m),
        };
        let lk = ArmTerm {
            tag: last.tag,
            bindings: last.bindings,
            reuse_token: last.reuse_token,
            body: step_f(last.body, k),
        };
        assert(step_arms(arms, m) =~= step_arms(init, m).push(lm));
        assert(step_arms(arms, k) =~= step_arms(init, k).push(lk));
        assert(step_arms(arms, m).drop_last() =~= step_arms(init, m));
        assert(step_arms(arms, m).last() == lm);
        if step_arms(init, m) == init && step_f(last.body, m) == last.body {
            assert(lm == last);
            assert(init.push(last) =~= arms);
        }
    } else {
        assert(step_arms(arms, m) =~= step_arms(arms, k));
        assert(step_arms(arms, m) =~= arms);
    }
}

proof fn lemma_rdup(var: Seq<char>, b: Term, n: nat, k: nat)
    requires
        n >= tsize(b),
        k >= tsize(b),
    ensures
        reduce_dup_f(var, b, n) == reduce_dup_f(var, b, k),
        tsize(reduce_dup_f(var, b, n)) <= 1 + tsize(b),
        reduce_dup_f(var, b, n) == (Term::Dup { var, body: Box::new(b) }) || weight(
            reduce_dup_f(var, b, n),
        ) < 1 + tsize(b) + weight(b),
    decreases tsize(b), 1nat,
{
    lemma_tsize_pos(b);
    let m = (n - 1) as nat;
    let j = (k - 1) as nat;
    match b {
        Term::Drop { var: v, body: e } => {
            if v == var {
                lemma_step(*e, m, j);
                return;
            }
        },
        _ => {},
    }
    match b {
        Term::Let { name, value, body: inner } => {
            if name != var && !mentions_t(var, *value) {
                lemma_rdup(var, *inner, m, j);
                lemma_tsize_pos(*value);
                let d = Term::Dup { var, body: inner };
                assert(weight(d) == tsize(d) + weight(*inner));
                assert(tsize(d) == 1 + tsize(*inner));
            }
        },
        _ => {},
    }
}

proof fn lemma_rdrop(var: Seq<char>, b: Term, n: nat, k: nat)
    requires
        n >= tsize(b),
        k >= tsize(b),
    ensures
        reduce_drop_f(var, b, n) == reduce_drop_f(var, b, k),
        tsize(reduce_drop_f(var, b, n)) <= 1 + tsize(b),
        reduce_drop_f(var, b, n) == (Term::Drop { var, body: Box::new(b) }) || weight(
            reduce_drop_f(var, b, n),
        ) < 1 + tsize(b) + weight(b),
    decreases tsize(b), 1nat,
{
    lemma_tsize_pos(b);
    let m = (n - 1) as nat;
    let j = (k - 1) as nat;
    match b {
        Term::Dup { var: v, body: e } => {
            if v == var {
                lemma_step(*e, m, j);
                return;
            }
        },
        _ => {},
    }
    match b {
        Term::Let { name, value, body: inner } => {
            if name != var && !mentions_t(var, *value) {
                lemma_rdrop(var, *inner, m, j);
                lemma_tsize_pos(*value);
                let d = Term::Drop { var, body: inner };
                assert(weight(d) == tsize(d) + weight(*inner));
                assert(tsize(d) == 1 + tsize(*inner));
            }
        },
        _ => {},
    }
}


// ── Structural equality lemmas ───────────────────────────────────────────────

/// Structural equality is reflexive (it covers every kind of node).
pub proof fn lemma_seq_refl(t: Term)
    ensures
        seq_t(t, t),
    decreases t, 1nat,
{
    match t {
        Term::Dup { body, .. } => lemma_seq_refl(*body),
        Term::Drop { body, .. } => lemma_seq_refl(*body),
        Term::Let { value, body, .. } => {
            lemma_seq_refl(*value);
            lemma_seq_refl(*body);
        },
        Term::Lam { body, .. } => lemma_seq_refl(*body),
        Term::App(f, x) => {
            lemma_seq_refl(*f);
            lemma_seq_refl(*x);
        },
        Term::If { cond, then_, else_ } => {
            lemma_seq_refl(*cond);
            lemma_seq_refl(*then_);
            lemma_seq_refl(*else_);
        },
        Term::Match { arms, .. } => lemma_seq_refl_arms(arms),
        Term::Con { fields, .. } => lemma_seq_refl_list(fields),
        Term::Foreign { args, .. } => lemma_seq_refl_list(args),
        _ => {},
    }
}

proof fn lemma_seq_refl_list(ts: Seq<Term>)
    ensures
        seq_list(ts, ts),
    decreases ts, 0nat,
{
    if ts.len() > 0 {
        lemma_seq_refl_list(ts.drop_last());
        lemma_seq_refl(ts.last());
    }
}

proof fn lemma_seq_refl_arms(arms: Seq<ArmTerm>)
    ensures
        seq_arms(arms, arms),
    decreases arms, 0nat,
{
    if arms.len() > 0 {
        lemma_seq_refl_arms(arms.drop_last());
        lemma_seq_refl(arms.last().body);
    }
}

/// Structurally equal terms have the same size and weight.
pub proof fn lemma_seq_measures(a: Term, b: Term)
    requires
        seq_t(a, b),
    ensures
        tsize(a) == tsize(b),
        weight(a) == weight(b),
    decreases a, 1nat,
{
    match (a, b) {
        (Term::Dup { body: b1, .. }, Term::Dup { body: b2, .. }) => lemma_seq_measures(*b1, *b2),
        (Term::Drop { body: b1, .. }, Term::Drop { body: b2, .. }) => lemma_seq_measures(*b1, *b2),
        (Term::Let { value: v1, body: b1, .. }, Term::Let { value: v2, body: b2, .. }) => {
            lemma_seq_measures(*v1, *v2);
            lemma_seq_measures(*b1, *b2);
        },
        (Term::Lam { body: b1, .. }, Term::Lam { body: b2, .. }) => lemma_seq_measures(*b1, *b2),
        (Term::App(f1, x1), Term::App(f2, x2)) => {
            lemma_seq_measures(*f1, *f2);
            lemma_seq_measures(*x1, *x2);
        },
        (Term::If { cond: c1, then_: t1, else_: e1 }, Term::If { cond: c2, then_: t2, else_: e2 }) => {
            lemma_seq_measures(*c1, *c2);
            lemma_seq_measures(*t1, *t2);
            lemma_seq_measures(*e1, *e2);
        },
        (Term::Match { arms: a1, .. }, Term::Match { arms: a2, .. }) => lemma_seq_measures_arms(a1, a2),
        (Term::Con { fields: f1, .. }, Term::Con { fields: f2, .. }) => lemma_seq_measures_list(f1, f2),
        (Term::Foreign { args: a1, .. }, Term::Foreign { args: a2, .. }) => lemma_seq_measures_list(a1, a2),
        _ => {},
    }
}

proof fn lemma_seq_measures_list(a: Seq<Term>, b: Seq<Term>)
    requires
        seq_list(a, b),
    ensures
        tsize_list(a) == tsize_list(b),
        weight_list(a) == weight_list(b),
    decreases a, 0nat,
{
    if a.len() > 0 {
        lemma_seq_measures_list(a.drop_last(), b.drop_last());
        lemma_seq_measures(a.last(), b.last());
    }
}

proof fn lemma_seq_measures_arms(a: Seq<ArmTerm>, b: Seq<ArmTerm>)
    requires
        seq_arms(a, b),
    ensures
        tsize_arms(a) == tsize_arms(b),
        weight_arms(a) == weight_arms(b),
    decreases a, 0nat,
{
    if a.len() > 0 {
        lemma_seq_measures_arms(a.drop_last(), b.drop_last());
        lemma_seq_measures(a.last().body, b.last().body);
    }
}

// ── Fixpoint iteration ───────────────────────────────────────────────────────

/// Sweeps repeated until a sweep changes nothing (as judged by `seq_t`).
pub open spec fn simplify_spec(t: Term) -> Term
    decreases weight(t),
{
    let n = step_spec(t);
    if seq_t(n, t) {
        n
    } else {
        proof {
            lemma_step(t, tsize(t), tsize(t));
            lemma_seq_refl(t);
        }
        simplify_spec(n)
    }
}

/// The simplifier stops at a fixpoint: one more sweep of its result changes nothing.
pub proof fn lemma_simplify_fixpoint(t: Term)
    ensures
        step_spec(simplify_spec(t)) == simplify_spec(t),
    decreases weight(t),
{
    let n = step_spec(t);
    lemma_step(t, tsize(t), tsize(t));
    lemma_seq_refl(t);
    if seq_t(n, t) {
        lemma_seq_measures(n, t);
        assert(n == t);
    } else {
        lemma_simplify_fixpoint(n);
    }
}

/// Simplification never makes a term larger: every rewrite removes a Dup or a
/// Drop node or keeps the term as it is.
pub proof fn lemma_simplify_shrinks(t: Term)
    ensures
        tsize(simplify_spec(t)) <= tsize(t),
    decreases weight(t),
{
    let n = step_spec(t);
    lemma_step(t, tsize(t), tsize(t));
    lemma_seq_refl(t);
    if !seq_t(n, t) {
        lemma_simplify_shrinks(n);
    }
}

// ── What simplification keeps ────────────────────────────────────────────────

/// The term without its reference-counting operations: every Dup and Drop
/// node replaced by its body.
pub open spec fn erase_rc(t: Term) -> Term
    decreases t,
{
    match t {
        Term::Dup { body, .. } => erase_rc(*body),
        Term::Drop { body, .. } => erase_rc(*body),
        Term::Let { name, value, body } => Term::Let {
            name,
            value: Box::new(erase_rc(*value)),
            body: Box::new(erase_rc(*body)),
        },
        Term::Lam { param, captures, body } => Term::Lam {
            param,
            captures,
            body: Box::new(erase_rc(*body)),
        },
        Term::App(f, x) => Term::App(Box::new(erase_rc(*f)), Box::new(erase_rc(*x))),
        Term::If { cond, then_, else_ } => Term::If {
            cond: Box::new(erase_rc(*cond)),
            then_: Box::new(erase_rc(*then_)),
            else_: Box::new(erase_rc(*else_)),
        },
        Term::Match { scrutinee, arms } => Term::Match {
            scrutinee,
            arms: Seq::new(
                arms.len(),
                |i: int|
                    if 0 <= i < arms.len() {
                        ArmTerm {
                            tag: arms[i].tag,
                            bindings: arms[i].bindings,
                            reuse_token: arms[i].reuse_token,
                            body: erase_rc(arms[i].body),
                        }
                    } else {
                        arms[i]
                    },
            ),
        },
        Term::Con { tag, fields, reuse } => Term::Con {
            tag,
            fields: Seq::new(
                fields.len(),
                |i: int|
                    if 0 <= i < fields.len() {
                        erase_rc(fields[i])
                    } else {
                        fields[i]
                    },
            ),
            reuse,
        },
        Term::Foreign { name, args } => Term::Foreign {
            name,
            args: Seq::new(
                args.len(),
                |i: int|
                    if 0 <= i < args.len() {
                        erase_rc(args[i])
                    } else {
                        args[i]
                    },
            ),
        },
        _ => t,
    }
}

/// A sweep, and each of its reductions, keeps the term without its reference
/// counting operations.
pub proof fn lemma_step_keeps_erased(t: Term, n: nat)
    ensures
        erase_rc(step_f(t, n)) == erase_rc(t),
    decreases n, 1nat,
{
    if n > 0 {
        let m = (n - 1) as nat;
        match t {
            Term::Dup { var, body } => {
                match *body {
                    Term::Drop { var: v, body: e } if v == var => {
                        lemma_step_keeps_erased(*e, m);
                        assert(step_f(t, n) == step_f(*e, m));
                        assert(erase_rc(t) == erase_rc(*body));
                        assert(erase_rc(*body) == erase_rc(*e));
                    },
                    _ => {
                        lemma_step_keeps_erased(*body, m);
                        lemma_reduce_keeps_erased(var, step_f(*body, m), m);
                    },
                }
            },
            Term::Drop { var, body } => {
                match *body {
                    Term::Dup { var: v, body: e } if v == var => {
                        lemma_step_keeps_erased(*e, m);
                        assert(step_f(t, n) == step_f(*e, m));
                        assert(erase_rc(t) == erase_rc(*body));
                        assert(erase_rc(*body) == erase_rc(*e));
                    },
                    _ => {
                        lemma_step_keeps_erased(*body, m);
                        lemma_reduce_keeps_erased(var, step_f(*body, m), m);
                    },
                }
            },
            Term::Let { name, value, body } => {
                lemma_step_keeps_erased(*value, m);
                lemma_step_keeps_erased(*body, m);
            },
            Term::Lam { param, captures, body } => {
                lemma_step_keeps_erased(*body, m);
            },
            Term::App(f, x) => {
                lemma_step_keeps_erased(*f, m);
                lemma_step_keeps_erased(*x, m);
            },
            Term::If { cond, then_, else_ } => {
                lemma_step_keeps_erased(*cond, m);
                lemma_step_keeps_erased(*then_, m);
                lemma_step_keeps_erased(*else_, m);
            },
            Term::Match { scrutinee, arms } => {
                assert forall|i: int| 0 <= i < arms.len() implies erase_rc(
                    #[trigger] step_arms(arms, m)[i].body,
                ) == erase_rc(arms[i].body) by {
                    lemma_step_keeps_erased(arms[i].body, m);
                }
                if let Term::Match { arms: a1, .. } = erase_rc(step_f(t, n)) {
                    if let Term::Match { arms: a2, .. } = erase_rc(t) {
                        assert(a1 =~= a2);
                    }
                }
            },
            Term::Con { tag, fields, reuse } => {
                assert forall|i: int| 0 <= i < fields.len() implies erase_rc(
                    #[trigger] step_list(fields, m)[i],
                ) == erase_rc(fields[i]) by {
                    lemma_step_keeps_erased(fields[i], m);
                }
                if let Term::Con { fields: f1, .. } = erase_rc(step_f(t, n)) {
                    if let Term::Con { fields: f2, .. } = erase_rc(t) {
                        assert(f1 =~= f2);
                    }
                }
            },
            Term::Foreign { name, args } => {
                assert forall|i: int| 0 <= i < args.len() implies erase_rc(
                    #[trigger] step_list(args, m)[i],
                ) == erase_rc(args[i]) by {
                    lemma_step_keeps_erased(args[i], m);
                }
                if let Term::Foreign { args: a1, .. } = erase_rc(step_f(t, n)) {
                    if let Term::Foreign { args: a2, .. } = erase_rc(t) {
                        assert(a1 =~= a2);
                    }
                }
            },
            _ => {},
        }
    }
}

pub proof fn lemma_reduce_keeps_erased(var: Seq<char>, body: Term, n: nat)
    ensures
        erase_rc(reduce_dup_f(var, body, n)) == erase_rc(body),
        erase_rc(reduce_drop_f(var, body, n)) == erase_rc(body),
    decreases n, 0nat,
{
    if n > 0 {
        let m = (n - 1) as nat;
        match body {
            Term::Drop { var: v, body: e } => {
                lemma_step_keeps_erased(*e, m);
            },
            Term::Dup { var: v, body: e } => {
                lemma_step_keeps_erased(*e, m);
            },
            Term::Let { name, value, body: inner } => {
                lemma_reduce_keeps_erased(var, *inner, m);
            },
            _ => {},
        }
    }
}

/// Simplification changes only reference-counting operations: with every Dup
/// and Drop removed, its result is the term it was given.
pub proof fn lemma_simplify_keeps_erased(t: Term)
    ensures
        erase_rc(simplify_spec(t)) == erase_rc(t),
    decreases weight(t),
{
    let n = step_spec(t);
    lemma_step(t, tsize(t), tsize(t));
    lemma_seq_refl(t);
    lemma_step_keeps_erased(t, tsize(t));
    if !seq_t(n, t) {
        lemma_simplify_keeps_erased(n);
    }
}

// ── Executable pass ──────────────────────────────────────────────────────────

/// Simplify `expr`, iterating until no rule applies.
pub fn simplify(expr: Expr) -> (r: Expr)
    ensures
        r@ == simplify_spec(expr@),
{
    let ghost orig = expr@;
    let mut current = expr;
    #[verifier::loop_isolation(false)]
    loop
        invariant
            simplify_spec(current@) == simplify_spec(orig),
        decreases weight(current@),
    {
        let next = step(current.duplicate());
        proof {
            lemma_step(current@, tsize(current@), tsize(current@));
            lemma_seq_refl(current@);
        }
        if structurally_equal(&next, &current) {
            assert(simplify_spec(current@) == next@);
            return next;
        }
        current = next;
    }
}

/// One bottom-up simplification sweep.  Recurse into children first, then
/// attempt to reduce the current node.
fn step(expr: Expr) -> (r: Expr)
    ensures
        r@ == step_spec(expr@),
        tsize(r@) <= tsize(expr@),
    decreases tsize(expr@), 1nat,
{
    let ghost t = expr@;
    let ghost m = (tsize(t) - 1) as nat;
    proof {
        lemma_step(t, tsize(t), tsize(t));
        lemma_view_children(expr);
    }
    match expr {
        Expr::Dup { var, body } => step_rc(var, body, true),
        Expr::Drop { var, body } => step_rc(var, body, false),
        Expr::Let { name, value, body } => {
            proof {
                lemma_step(value@, m, tsize(value@));
                lemma_step(body@, m, tsize(body@));
            }
            Expr::Let { name, value: Box::new(step(*value)), body: Box::new(step(*body)) }
        },
        Expr::Lam { param, captures, body } => {
            proof {
                lemma_step(body@, m, tsize(body@));
            }
            Expr::Lam { param, captures, body: Box::new(step(*body)) }
        },
        Expr::App(f, arg) => {
            proof {
                lemma_step(f@, m, tsize(f@));
                lemma_step(arg@, m, tsize(arg@));
            }
            Expr::App(Box::new(step(*f)), Box::new(step(*arg)))
        },
        Expr::If { cond, then_, else_ } => {
            proof {
                lemma_step(cond@, m, tsize(cond@));
                lemma_step(then_@, m, tsize(then_@));
                lemma_step(else_@, m, tsize(else_@));
            }
            Expr::If {
                cond: Box::new(step(*cond)),
                then_: Box::new(step(*then_)),
                else_: Box::new(step(*else_)),
            }
        },
        Expr::Match { scrutinee, arms } => {
            let ghost va = arm_terms(arms@);
            let mut rest = arms;
            let mut out: Vec<MatchArm> = Vec::new();
            let ghost n0 = rest@.len();
            #[verifier::loop_isolation(false)]
            while rest.len() > 0
                invariant
                    rest@.len() + out@.len() == n0,
                    n0 == va.len(),
                    tsize_arms(va) < tsize(t),
                    m == tsize_arms(va),
                    forall|j: int| 0 <= j < rest@.len() ==> arm_term(#[trigger] rest@[j]) == va[out@.len() + j],
                    forall|j: int| 0 <= j < out@.len() ==> #[trigger] arm_term(out@[j]) == step_arms(va, m)[j],
                decreases rest@.len(),
            {
                let ghost k = out@.len() as int;
                assert(arm_term(rest@[0]) == va[k]);
                let ghost prev = rest@;
                let a = rest.remove(0);
                proof {
                    lemma_tsize_arms_elem(va, k);
                    lemma_step(va[k].body, m, tsize(va[k].body));
                    assert(tsize(a.body@) < tsize(t));
                }
                let stepped = MatchArm { tag: a.tag, bindings: a.bindings, reuse_token: a.reuse_token, body: step(a.body) };
                out.push(stepped);
                assert forall|j: int| 0 <= j < rest@.len() implies arm_term(#[trigger] rest@[j]) == va[out@.len() + j] by {
                    assert(rest@[j] == prev[j + 1]);
                }
            }
            let r = Expr::Match { scrutinee, arms: out };
            proof {
                lemma_view_children(r);
                assert(arm_terms(out@) =~= step_arms(va, m));
            }
            r
        },
        Expr::Con { tag, fields, reuse } => {
            let ghost vf = terms(fields@);
            let mut rest = fields;
            let mut out: Vec<Expr> = Vec::new();
            let ghost n0 = rest@.len();
            #[verifier::loop_isolation(false)]
            while rest.len() > 0
                invariant
                    rest@.len() + out@.len() == n0,
                    n0 == vf.len(),
                    tsize_list(vf) < tsize(t),
                    m == tsize_list(vf),
                    forall|j: int| 0 <= j < rest@.len() ==> term(#[trigger] rest@[j]) == vf[out@.len() + j],
                    forall|j: int| 0 <= j < out@.len() ==> #[trigger] term(out@[j]) == step_list(vf, m)[j],
                decreases rest@.len(),
            {
                let ghost k = out@.len() as int;
                assert(term(rest@[0]) == vf[k]);
                let ghost prev = rest@;
                let f = rest.remove(0);
                proof {
                    lemma_tsize_list_elem(vf, k);
                    lemma_step(vf[k], m, tsize(vf[k]));
                    assert(tsize(f@) < tsize(t));
                }
                out.push(step(f));
                assert forall|j: int| 0 <= j < rest@.len() implies term(#[trigger] rest@[j]) == vf[out@.len() + j] by {
                    assert(rest@[j] == prev[j + 1]);
                }
            }
            let r = Expr::Con { tag, fields: out, reuse };
            proof {
                lemma_view_children(r);
                assert(terms(out@) =~= step_list(vf, m));
            }
            r
        },
        Expr::Foreign { name, args } => {
            let ghost vf = terms(args@);
            let mut rest = args;
            let mut out: Vec<Expr> = Vec::new();
            let ghost n0 = rest@.len();
            #[verifier::loop_isolation(false)]
            while rest.len() > 0
                invariant
                    rest@.len() + out@.len() == n0,
                    n0 == vf.len(),
                    tsize_list(vf) < tsize(t),
                    m == tsize_list(vf),
                    forall|j: int| 0 <= j < rest@.len() ==> term(#[trigger] rest@[j]) == vf[out@.len() + j],
                    forall|j: int| 0 <= j < out@.len() ==> #[trigger] term(out@[j]) == step_list(vf, m)[j],
                decreases rest@.len(),
            {
                let ghost k = out@.len() as int;
                assert(term(rest@[0]) == vf[k]);
                let ghost prev = rest@;
                let f = rest.remove(0);
                proof {
                    lemma_tsize_list_elem(vf, k);
                    lemma_step(vf[k], m, tsize(vf[k]));
                    assert(tsize(f@) < tsize(t));
                }
                out.push(step(f));
                assert forall|j: int| 0 <= j < rest@.len() implies term(#[trigger] rest@[j]) == vf[out@.len() + j] by {
                    assert(rest@[j] == prev[j + 1]);
                }
            }
            let r = Expr::Foreign { name, args: out };
            proof {
                lemma_view_children(r);
                assert(terms(out@) =~= step_list(vf, m));
            }
            r
        },
        // Literals and variables are left as they are.
        leaf => leaf,
    }
}

/// One sweep of `Dup(var, body)` (when `dup`) or `Drop(var, body)`: a directly
/// nested opposite operation on the same variable cancels first; otherwise
/// the body is swept, then the node reduced.
fn step_rc(var: String, body: Box<Expr>, dup: bool) -> (r: Expr)
    ensures
        r@ == step_spec(
            if dup {
                Term::Dup { var: var@, body: Box::new(body@) }
            } else {
                Term::Drop { var: var@, body: Box::new(body@) }
            },
        ),
        tsize(r@) <= 1 + tsize(body@),
    decreases 1 + tsize(body@), 0nat,
{
    let ghost t = if dup {
        Term::Dup { var: var@, body: Box::new(body@) }
    } else {
        Term::Drop { var: var@, body: Box::new(body@) }
    };
    let ghost m = tsize(body@);
    proof {
        lemma_step(t, tsize(t), tsize(t));
        lemma_view_children(*body);
    }
    let cancel = match &*body {
        Expr::Drop { var: v, .. } => dup && *v == var,
        Expr::Dup { var: v, .. } => !dup && *v == var,
        _ => false,
    };
    if cancel {
        match *body {
            Expr::Drop { body: e, .. } => {
                proof {
                    lemma_step(e@, m, tsize(e@));
                }
                return step(*e);
            },
            Expr::Dup { body: e, .. } => {
                proof {
                    lemma_step(e@, m, tsize(e@));
                }
                return step(*e);
            },
            other => {
                return other;
            },
        }
    }
    let b = step(*body);
    if dup {
        proof {
            lemma_rdup(var@, b@, m, tsize(b@));
        }
        reduce_dup(var, b)
    } else {
        proof {
            lemma_rdrop(var@, b@, m, tsize(b@));
        }
        reduce_drop(var, b)
    }
}

fn reduce_dup(var: String, body: Expr) -> (r: Expr)
    ensures
        r@ == reduce_dup_f(var@, body@, tsize(body@)),
    decreases tsize(body@), 0nat,
{
    let ghost n = tsize(body@);
    proof {
        lemma_tsize_pos(body@);
        lemma_rdup(var@, body@, n, n);
    }
    // Dup(x, Drop(x, e))  →  e
    let cancel = match &body {
        Expr::Drop { var: v, .. } => *v == var,
        _ => false,
    };
    if cancel {
        match body {
            Expr::Drop { body: e, .. } => {
                proof {
                    lemma_step(e@, (n - 1) as nat, tsize(e@));
                }
                return step(*e);
            },
            other => {
                return other;
            },
        }
    }
    // Commute past a Let that does not bind x, when x is not used in the value.
    let commute = match &body {
        Expr::Let { name, value, .. } => *name != var && !mentions(&var, value),
        _ => false,
    };
    if commute {
        match body {
            Expr::Let { name, value, body: inner } => {
                proof {
                    lemma_rdup(var@, inner@, (n - 1) as nat, tsize(inner@));
                }
                return Expr::Let { name, value, body: Box::new(reduce_dup(var, *inner)) };
            },
            other => {
                return other;
            },
        }
    }
    // Single use: the body uses x at most once.
    if uses_capped(&var, &body) <= 1 {
        return body;
    }
    Expr::Dup { var, body: Box::new(body) }
}

fn reduce_drop(var: String, body: Expr) -> (r: Expr)
    ensures
        r@ == reduce_drop_f(var@, body@, tsize(body@)),
    decreases tsize(body@), 0nat,
{
    let ghost n = tsize(body@);
    proof {
        lemma_tsize_pos(body@);
        lemma_rdrop(var@, body@, n, n);
    }
    // Drop(x, Dup(x, e))  →  e
    let cancel = match &body {
        Expr::Dup { var: v, .. } => *v == var,
        _ => false,
    };
    if cancel {
        match body {
            Expr::Dup { body: e, .. } => {
                proof {
                    lemma_step(e@, (n - 1) as nat, tsize(e@));
                }
                return step(*e);
            },
            other => {
                return other;
            },
        }
    }
    // Commute past a Let that does not bind x, when x is not used in the value.
    let commute = match &body {
        Expr::Let { name, value, .. } => *name != var && !mentions(&var, value),
        _ => false,
    };
    if commute {
        match body {
            Expr::Let { name, value, body: inner } => {
                proof {
                    lemma_rdrop(var@, inner@, (n - 1) as nat, tsize(inner@));
                }
                return Expr::Let { name, value, body: Box::new(reduce_drop(var, *inner)) };
            },
            other => {
                return other;
            },
        }
    }
    Expr::Drop { var, body: Box::new(body) }
}

// ── Structural helpers ───────────────────────────────────────────────────────

/// Returns true if `var` appears anywhere in `expr` — as a variable reference,
/// a dup target, a drop target, a capture, or a reuse token.
fn mentions(var: &String, expr: &Expr) -> (r: bool)
    ensures
        r == mentions_t(var@, expr@),
    decreases expr, 1nat,
{
    proof {
        lemma_view_children(*expr);
    }
    match expr {
        Expr::Lit(_) => false,
        Expr::Var(x) => *x == *var,
        Expr::Dup { var: v, body } => *v == *var || mentions(var, body),
        Expr::Drop { var: v, body } => *v == *var || mentions(var, body),
        Expr::Let { name, value, body } => mentions(var, value) || (*name != *var && mentions(var, body)),
        Expr::Lam { captures, .. } => contains_name(captures, var),
        Expr::App(f, arg) => mentions(var, f) || mentions(var, arg),
        Expr::If { cond, then_, else_ } => mentions(var, cond) || mentions(var, then_) || mentions(
            var,
            else_,
        ),
        Expr::Match { scrutinee, arms } => *scrutinee == *var || mentions_in_arms(var, arms),
        Expr::Con { fields, reuse, .. } => {
            let hit = match reuse {
                Some(t) => *t == *var,
                None => false,
            };
            hit || mentions_in_list(var, fields)
        },
        Expr::Foreign { args, .. } => mentions_in_list(var, args),
    }
}

/// `a + b`, capped at 2.
fn add_cap(a: u8, b: u8) -> (r: u8)
    requires
        a <= 2,
        b <= 2,
    ensures
        r == cap2((a + b) as nat),
{
    if a + b < 2 {
        a + b
    } else {
        2
    }
}

proof fn lemma_cap2_add(x: nat, y: nat)
    ensures
        cap2(x + y) == cap2(cap2(x) + cap2(y)),
{
}

/// How many times `expr` uses `var`, capped at 2.
fn uses_capped(var: &String, expr: &Expr) -> (r: u8)
    ensures
        r == cap2(uses_t(var@, expr@)),
    decreases expr, 1nat,
{
    proof {
        lemma_view_children(*expr);
    }
    match expr {
        Expr::Lit(_) => 0,
        Expr::Var(x) => if *x == *var {
            1
        } else {
            0
        },
        Expr::Dup { body, .. } => uses_capped(var, body),
        Expr::Drop { var: v, body } => {
            let a: u8 = if *v == *var {
                1
            } else {
                0
            };
            let b = uses_capped(var, body);
            proof {
                lemma_cap2_add(
                    if v@ == var@ {
                        1nat
                    } else {
                        0nat
                    },
                    uses_t(var@, body@),
                );
            }
            add_cap(a, b)
        },
        Expr::Let { name, value, body } => {
            let a = uses_capped(var, value);
            let b = if *name != *var {
                uses_capped(var, body)
            } else {
                0
            };
            proof {
                lemma_cap2_add(uses_t(var@, value@), if name@ != var@ {
                    uses_t(var@, body@)
                } else {
                    0
                });
            }
            add_cap(a, b)
        },
        Expr::Lam { captures, .. } => if contains_name(captures, var) {
            1
        } else {
            0
        },
        Expr::App(f, arg) => {
            let a = uses_capped(var, f);
            let b = uses_capped(var, arg);
            proof {
                lemma_cap2_add(uses_t(var@, f@), uses_t(var@, arg@));
            }
            add_cap(a, b)
        },
        Expr::If { cond, then_, else_ } => {
            let a = uses_capped(var, cond);
            let b = uses_capped(var, then_);
            let c = uses_capped(var, else_);
            proof {
                lemma_cap2_add(uses_t(var@, cond@), uses_t(var@, then_@));
                lemma_cap2_add(uses_t(var@, cond@) + uses_t(var@, then_@), uses_t(var@, else_@));
            }
            add_cap(add_cap(a, b), c)
        },
        Expr::Match { scrutinee, arms } => {
            let a: u8 = if *scrutinee == *var {
                1
            } else {
                0
            };
            let b = uses_in_arms(var, arms);
            proof {
                lemma_cap2_add(
                    if scrutinee@ == var@ {
                        1nat
                    } else {
                        0nat
                    },
                    uses_arms(var@, arm_terms(arms@)),
                );
            }
            add_cap(a, b)
        },
        Expr::Con { fields, .. } => uses_in_list(var, fields),
        Expr::Foreign { args, .. } => uses_in_list(var, args),
    }
}

fn uses_in_list(var: &String, es: &Vec<Expr>) -> (r: u8)
    ensures
        r == cap2(uses_list(var@, terms(es@))),
    decreases es, 0nat,
{
    let mut n: u8 = 0;
    let mut i: usize = 0;
    while i < es.len()
        invariant
            0 <= i <= es.len(),
            n == cap2(uses_list(var@, terms(es@).take(i as int))),
        decreases es.len() - i,
    {
        assert(terms(es@).take(i + 1).drop_last() =~= terms(es@).take(i as int));
        proof {
            lemma_cap2_add(uses_list(var@, terms(es@).take(i as int)), uses_t(var@, es@[i as int]@));
        }
        let u = uses_capped(var, &es[i]);
        n = add_cap(n, u);
        i += 1;
    }
    assert(terms(es@).take(es.len() as int) =~= terms(es@));
    n
}

fn uses_in_arms(var: &String, arms: &Vec<MatchArm>) -> (r: u8)
    ensures
        r == cap2(uses_arms(var@, arm_terms(arms@))),
    decreases arms, 0nat,
{
    let mut n: u8 = 0;
    let mut i: usize = 0;
    while i < arms.len()
        invariant
            0 <= i <= arms.len(),
            n == cap2(uses_arms(var@, arm_terms(arms@).take(i as int))),
        decreases arms.len() - i,
    {
        assert(arm_terms(arms@).take(i + 1).drop_last() =~= arm_terms(arms@).take(i as int));
        let arm = &arms[i];
        let u = if contains_name(&arm.bindings, var) {
            0
        } else {
            uses_capped(var, &arm.body)
        };
        proof {
            lemma_cap2_add(
                uses_arms(var@, arm_terms(arms@).take(i as int)),
                if arm_terms(arms@)[i as int].bindings.contains(var@) {
                    0
                } else {
                    uses_t(var@, arms@[i as int].body@)
                },
            );
        }
        n = add_cap(n, u);
        i += 1;
    }
    assert(arm_terms(arms@).take(arms.len() as int) =~= arm_terms(arms@));
    n
}

fn mentions_in_list(var: &String, es: &Vec<Expr>) -> (r: bool)
    ensures
        r == mentions_list(var@, terms(es@)),
    decreases es, 0nat,
{
    let mut found = false;
    let mut i: usize = 0;
    while i < es.len()
        invariant
            0 <= i <= es.len(),
            found == mentions_list(var@, terms(es@).take(i as int)),
        decreases es.len() - i,
    {
        assert(terms(es@).take(i + 1).drop_last() =~= terms(es@).take(i as int));
        found = found || mentions(var, &es[i]);
        i += 1;
    }
    assert(terms(es@).take(es.len() as int) =~= terms(es@));
    found
}

fn mentions_in_arms(var: &String, arms: &Vec<MatchArm>) -> (r: bool)
    ensures
        r == mentions_arms(var@, arm_terms(arms@)),
    decreases arms, 0nat,
{
    let mut found = false;
    let mut i: usize = 0;
    while i < arms.len()
        invariant
            0 <= i <= arms.len(),
            found == mentions_arms(var@, arm_terms(arms@).take(i as int)),
        decreases arms.len() - i,
    {
        assert(arm_terms(arms@).take(i + 1).drop_last() =~= arm_terms(arms@).take(i as int));
        let arm = &arms[i];
        let tok = match &arm.reuse_token {
            Some(t) => *t == *var,
            None => false,
        };
        found = found || (!contains_name(&arm.bindings, var) && (tok || mentions(var, &arm.body)));
        i += 1;
    }
    assert(arm_terms(arms@).take(arms.len() as int) =~= arm_terms(arms@));
    found
}

/// Public access to the structural equality used for fixpoint detection, so
/// callers can check whether simplification changed anything.
pub fn structurally_equal_pub(a: &Expr, b: &Expr) -> (r: bool)
    ensures
        r == seq_t(a@, b@),
{
    structurally_equal(a, b)
}

fn names_equal(a: &Vec<String>, b: &Vec<String>) -> (r: bool)
    ensures
        r == (names(a@) == names(b@)),
{
    if a.len() != b.len() {
        assert(names(a@).len() != names(b@).len());
        return false;
    }
    let mut i: usize = 0;
    while i < a.len()
        invariant
            0 <= i <= a.len(),
            a@.len() == b@.len(),
            forall|j: int| 0 <= j < i ==> a@[j]@ == b@[j]@,
        decreases a.len() - i,
    {
        if a[i] != b[i] {
            assert(names(a@)[i as int] != names(b@)[i as int]);
            return false;
        }
        i += 1;
    }
    assert(names(a@) =~= names(b@));
    true
}

fn opt_equal(a: &Option<String>, b: &Option<String>) -> (r: bool)
    ensures
        r == (opt_chars(*a) == opt_chars(*b)),
{
    match (a, b) {
        (Some(x), Some(y)) => *x == *y,
        (None, None) => true,
        _ => false,
    }
}

fn lit_equal(a: &crate::ast::Lit, b: &crate::ast::Lit) -> (r: bool)
    ensures
        r == (a@ == b@),
{
    match (a, b) {
        (crate::ast::Lit::Int(x), crate::ast::Lit::Int(y)) => *x == *y,
        (crate::ast::Lit::Bool(x), crate::ast::Lit::Bool(y)) => *x == *y,
        (crate::ast::Lit::Unit, crate::ast::Lit::Unit) => true,
        (crate::ast::Lit::Str(x), crate::ast::Lit::Str(y)) => *x == *y,
        _ => false,
    }
}

/// Cheap structural equality check used for fixpoint detection.
fn structurally_equal(a: &Expr, b: &Expr) -> (r: bool)
    ensures
        r == seq_t(a@, b@),
    decreases a, 1nat,
{
    proof {
        lemma_view_children(*a);
        lemma_view_children(*b);
    }
    match (a, b) {
        (Expr::Lit(l1), Expr::Lit(l2)) => lit_equal(l1, l2),
        (Expr::Var(x), Expr::Var(y)) => *x == *y,
        (Expr::Dup { var: v1, body: b1 }, Expr::Dup { var: v2, body: b2 }) => *v1 == *v2
            && structurally_equal(b1, b2),
        (Expr::Drop { var: v1, body: b1 }, Expr::Drop { var: v2, body: b2 }) => *v1 == *v2
            && structurally_equal(b1, b2),
        (Expr::Let { name: n1, value: v1, body: b1 }, Expr::Let { name: n2, value: v2, body: b2 }) => {
            *n1 == *n2 && structurally_equal(v1, v2) && structurally_equal(b1, b2)
        },
        (
            Expr::Lam { param: p1, captures: c1, body: b1 },
            Expr::Lam { param: p2, captures: c2, body: b2 },
        ) => *p1 == *p2 && names_equal(c1, c2) && structurally_equal(b1, b2),
        (Expr::App(f1, a1), Expr::App(f2, a2)) => structurally_equal(f1, f2) && structurally_equal(
            a1,
            a2,
        ),
        (Expr::If { cond: c1, then_: t1, else_: e1 }, Expr::If { cond: c2, then_: t2, else_: e2 }) => {
            structurally_equal(c1, c2) && structurally_equal(t1, t2) && structurally_equal(e1, e2)
        },
        (Expr::Match { scrutinee: s1, arms: a1 }, Expr::Match { scrutinee: s2, arms: a2 }) => {
            *s1 == *s2 && arms_equal(a1, a2)
        },
        (Expr::Con { tag: t1, fields: f1, reuse: r1 }, Expr::Con { tag: t2, fields: f2, reuse: r2 }) => {
            *t1 == *t2 && opt_equal(r1, r2) && lists_equal(f1, f2)
        },
        (Expr::Foreign { name: n1, args: a1 }, Expr::Foreign { name: n2, args: a2 }) => {
            *n1 == *n2 && lists_equal(a1, a2)
        },
        _ => false,
    }
}

fn lists_equal(a: &Vec<Expr>, b: &Vec<Expr>) -> (r: bool)
    ensures
        r == seq_list(terms(a@), terms(b@)),
    decreases a, 0nat,
{
    if a.len() != b.len() {
        return false;
    }
    let mut ok = true;
    let mut i: usize = 0;
    while i < a.len()
        invariant
            0 <= i <= a.len(),
            a@.len() == b@.len(),
            ok == seq_list(terms(a@).take(i as int), terms(b@).take(i as int)),
        decreases a.len() - i,
    {
        assert(terms(a@).take(i + 1).drop_last() =~= terms(a@).take(i as int));
        assert(terms(b@).take(i + 1).drop_last() =~= terms(b@).take(i as int));
        ok = ok && structurally_equal(&a[i], &b[i]);
        i += 1;
    }
    assert(terms(a@).take(a.len() as int) =~= terms(a@));
    assert(terms(b@).take(b.len() as int) =~= terms(b@));
    ok
}

fn arms_equal(a: &Vec<MatchArm>, b: &Vec<MatchArm>) -> (r: bool)
    ensures
        r == seq_arms(arm_terms(a@), arm_terms(b@)),
    decreases a, 0nat,
{
    if a.len() != b.len() {
        return false;
    }
    let mut ok = true;
    let mut i: usize = 0;
    while i < a.len()
        invariant
            0 <= i <= a.len(),
            a@.len() == b@.len(),
            ok == seq_arms(arm_terms(a@).take(i as int), arm_terms(b@).take(i as int)),
        decreases a.len() - i,
    {
        assert(arm_terms(a@).take(i + 1).drop_last() =~= arm_terms(a@).take(i as int));
        assert(arm_terms(b@).take(i + 1).drop_last() =~= arm_terms(b@).take(i as int));
        ok = ok && a[i].tag == b[i].tag && names_equal(&a[i].bindings, &b[i].bindings)
            && opt_equal(&a[i].reuse_token, &b[i].reuse_token) && structurally_equal(
            &a[i].body,
            &b[i].body,
        );
        i += 1;
    }
    assert(arm_terms(a@).take(a.len() as int) =~= arm_terms(a@));
    assert(arm_terms(b@).take(b.len() as int) =~= arm_terms(b@));
    ok
}

} // verus!
