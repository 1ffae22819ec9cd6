//! Liveness / use-count analysis on the source AST.
//!
//! Perceus needs to know, for each variable at each program point:
//!   - Is this the *last* use? (if so, ownership can be transferred — no dup)
//!   - Is it used in multiple branches? (if so, we need a dup before the branch)
//!
//! This is approximated with simple syntactic use-counting.
//!
//! Sets of names are represented as vectors without repetition, ordered by first
//! occurrence (left to right); see `crate::names`.
use vstd::prelude::*;

use crate::ast::{size, size_arms, size_list, Expr, MatchArm, Pattern};
use crate::names::{
    contains_name, extend_union, insert_name, lemma_remove_all_contains, lemma_remove_contains,
    lemma_remove_no_dup, lemma_union_assoc, lemma_union_contains, lemma_union_empty_left,
    lemma_union_no_dup, names, remove, remove_all, remove_name, remove_names, union,
};

verus! {

// ── Model ─────────────────────────────────────────────────────────────────────

/// Variables bound by a pattern, left to right, repetitions kept.
pub open spec fn pat_vars(p: Pattern) -> Seq<Seq<char>>
    decreases p,
{
    match p {
        Pattern::Var(x) => seq![x@],
        Pattern::Con { fields, .. } => pat_vars_list(fields@),
        _ => Seq::empty(),
    }
}

pub open spec fn pat_vars_list(ps: Seq<Pattern>) -> Seq<Seq<char>>
    decreases ps,
{
    if ps.len() == 0 {
        Seq::empty()
    } else {
        pat_vars_list(ps.drop_last()) + pat_vars(ps.last())
    }
}

/// Variables bound by a pattern, each once, in order of first occurrence.
pub open spec fn pat_var_set(p: Pattern) -> Seq<Seq<char>> {
    union(Seq::empty(), pat_vars(p))
}

/// Free variables of an expression, each once, in order of first occurrence.
pub open spec fn fv(e: Expr) -> Seq<Seq<char>>
    decreases e,
{
    match e {
        Expr::Lit(_) => Seq::empty(),
        Expr::Var(x) => seq![x@],
        Expr::Let { name, value, body } => union(fv(*value), remove(fv(*body), name@)),
        Expr::Lam { param, body } => remove(fv(*body), param@),
        Expr::App(f, x) => union(fv(*f), fv(*x)),
        Expr::If { cond, then_, else_ } => union(union(fv(*cond), fv(*then_)), fv(*else_)),
        Expr::Match { scrutinee, arms } => union(fv(*scrutinee), fv_arms(arms@)),
        Expr::Con { fields, .. } => fv_list(fields@),
        Expr::Foreign { args, .. } => fv_list(args@),
    }
}

pub open spec fn fv_list(es: Seq<Expr>) -> Seq<Seq<char>>
    decreases es,
{
    if es.len() == 0 {
        Seq::empty()
    } else {
        union(fv_list(es.drop_last()), fv(es.last()))
    }
}

/// Free variables of a match arm: those of its body not bound by its pattern.
pub open spec fn fv_arm(arm: MatchArm) -> Seq<Seq<char>>
    decreases arm,
{
    remove_all(fv(arm.body), pat_var_set(arm.pat))
}

pub open spec fn fv_arms(arms: Seq<MatchArm>) -> Seq<Seq<char>>
    decreases arms,
{
    if arms.len() == 0 {
        Seq::empty()
    } else {
        union(fv_arms(arms.drop_last()), fv_arm(arms.last()))
    }
}

/// Syntactic use count of `v` in `e`; branches count as the maximum of the branches.
pub open spec fn uc(v: Seq<char>, e: Expr) -> nat
    decreases e,
{
    match e {
        Expr::Lit(_) => 0,
        Expr::Var(x) => if x@ == v {
            1
        } else {
            0
        },
        Expr::Let { name, value, body } => uc(v, *value) + if name@ == v {
            0
        } else {
            uc(v, *body)
        },
        Expr::Lam { param, body } => if param@ == v {
            0
        } else {
            uc(v, *body)
        },
        Expr::App(f, x) => uc(v, *f) + uc(v, *x),
        Expr::If { cond, then_, else_ } => uc(v, *cond) + max_nat(uc(v, *then_), uc(v, *else_)),
        Expr::Match { scrutinee, arms } => uc(v, *scrutinee) + uc_arms(v, arms@),
        Expr::Con { fields, .. } => uc_list(v, fields@),
        Expr::Foreign { args, .. } => uc_list(v, args@),
    }
}

pub open spec fn max_nat(a: nat, b: nat) -> nat {
    if a >= b {
        a
    } else {
        b
    }
}

pub open spec fn uc_list(v: Seq<char>, es: Seq<Expr>) -> nat
    decreases es,
{
    if es.len() == 0 {
        0
    } else {
        uc_list(v, es.drop_last()) + uc(v, es.last())
    }
}

/// Use count of `v` in one arm: zero where the pattern shadows `v`.
pub open spec fn uc_arm(v: Seq<char>, arm: MatchArm) -> nat
    decreases arm,
{
    if pat_var_set(arm.pat).contains(v) {
        0
    } else {
        uc(v, arm.body)
    }
}

/// Largest use count over the arms (zero for no arms).
pub open spec fn uc_arms(v: Seq<char>, arms: Seq<MatchArm>) -> nat
    decreases arms,
{
    if arms.len() == 0 {
        0
    } else {
        max_nat(uc_arms(v, arms.drop_last()), uc_arm(v, arms.last()))
    }
}

// ── Lemmas ───────────────────────────────────────────────────────────────────

pub proof fn lemma_fv_no_dup(e: Expr)
    ensures
        fv(e).no_duplicates(),
    decreases e,
{
    match e {
        Expr::Lit(_) => {},
        Expr::Var(x) => {},
        Expr::Let { name, value, body } => {
            lemma_fv_no_dup(*value);
        },
        Expr::Lam { param, body } => {
            lemma_fv_no_dup(*body);
            lemma_remove_no_dup(fv(*body), param@);
        },
        Expr::App(f, x) => {
            lemma_fv_no_dup(*f);
        },
        Expr::If { cond, then_, else_ } => {
            lemma_fv_no_dup(*cond);
            lemma_union_no_dup(fv(*cond), fv(*then_));
        },
        Expr::Match { scrutinee, arms } => {
            lemma_fv_no_dup(*scrutinee);
        },
        Expr::Con { fields, .. } => {
            lemma_fv_list_no_dup(fields@);
        },
        Expr::Foreign { args, .. } => {
            lemma_fv_list_no_dup(args@);
        },
    }
    lemma_fv_no_dup_union_closure(e);
}

proof fn lemma_fv_no_dup_union_closure(e: Expr)
    ensures
        (e matches Expr::Let { value, .. } && fv(*value).no_duplicates()) ==> fv(e).no_duplicates(),
        (e matches Expr::App(f, _) && fv(*f).no_duplicates()) ==> fv(e).no_duplicates(),
        (e matches Expr::If { cond, then_, .. } && union(fv(*cond), fv(*then_)).no_duplicates())
            ==> fv(e).no_duplicates(),
        (e matches Expr::Match { scrutinee, .. } && fv(*scrutinee).no_duplicates())
            ==> fv(e).no_duplicates(),
{
    match e {
        Expr::Let { name, value, body } => {
            if fv(*value).no_duplicates() {
                lemma_union_no_dup(fv(*value), remove(fv(*body), name@));
            }
        },
        Expr::App(f, x) => {
            if fv(*f).no_duplicates() {
                lemma_union_no_dup(fv(*f), fv(*x));
            }
        },
        Expr::If { cond, then_, else_ } => {
            if union(fv(*cond), fv(*then_)).no_duplicates() {
                lemma_union_no_dup(union(fv(*cond), fv(*then_)), fv(*else_));
            }
        },
        Expr::Match { scrutinee, arms } => {
            if fv(*scrutinee).no_duplicates() {
                lemma_union_no_dup(fv(*scrutinee), fv_arms(arms@));
            }
        },
        _ => {},
    }
}

pub proof fn lemma_fv_list_no_dup(es: Seq<Expr>)
    ensures
        fv_list(es).no_duplicates(),
    decreases es.len(),
{
    if es.len() > 0 {
        lemma_fv_list_no_dup(es.drop_last());
        lemma_union_no_dup(fv_list(es.drop_last()), fv(es.last()));
    }
}

pub proof fn lemma_fv_arms_no_dup(arms: Seq<MatchArm>)
    ensures
        fv_arms(arms).no_duplicates(),
    decreases arms.len(),
{
    if arms.len() > 0 {
        lemma_fv_arms_no_dup(arms.drop_last());
        lemma_union_no_dup(fv_arms(arms.drop_last()), fv_arm(arms.last()));
    }
}

pub proof fn lemma_pat_var_set_contains(p: Pattern, z: Seq<char>)
    ensures
        pat_var_set(p).contains(z) <==> pat_vars(p).contains(z),
        pat_var_set(p).no_duplicates(),
{
    lemma_union_contains(Seq::empty(), pat_vars(p), z);
    lemma_union_no_dup(Seq::empty(), pat_vars(p));
}


// ── Free variables ───────────────────────────────────────────────────────────

/// Free variables of an expression (variables not bound within it), each once,
/// in order of first occurrence.
pub fn free_vars(expr: &Expr) -> (r: Vec<String>)
    ensures
        names(r@) == fv(*expr),
        names(r@).no_duplicates(),
{
    let mut fvs: Vec<String> = Vec::new();
    collect_fvs(expr, &mut fvs);
    proof {
        lemma_fv_no_dup(*expr);
        lemma_union_empty_left(fv(*expr));
        assert(names(Seq::<String>::empty()) =~= Seq::<Seq<char>>::empty());
    }
    fvs
}

fn collect_fvs(expr: &Expr, out: &mut Vec<String>)
    ensures
        names(final(out)@) == union(names(old(out)@), fv(*expr)),
    decreases expr, 2nat,
{
    let ghost out0 = names(out@);
    match expr {
        Expr::Lit(_) => {},
        Expr::Var(x) => {
            insert_name(out, x.clone());
        },
        Expr::Let { name, value, body } => {
            collect_fvs(value, out);
            let mut body_fvs: Vec<String> = Vec::new();
            collect_fvs(body, &mut body_fvs);
            proof {
                lemma_fv_no_dup(**body);
                assert(names(Seq::<String>::empty()) =~= Seq::<Seq<char>>::empty());
                lemma_union_empty_left(fv(**body));
            }
            let rest = remove_name(&body_fvs, name);
            extend_union(out, &rest);
            proof {
                lemma_union_assoc(out0, fv(**value), remove(fv(**body), name@));
            }
        },
        Expr::Lam { param, body } => {
            let mut body_fvs: Vec<String> = Vec::new();
            collect_fvs(body, &mut body_fvs);
            proof {
                lemma_fv_no_dup(**body);
                assert(names(Seq::<String>::empty()) =~= Seq::<Seq<char>>::empty());
                lemma_union_empty_left(fv(**body));
            }
            let rest = remove_name(&body_fvs, param);
            extend_union(out, &rest);
        },
        Expr::App(f, x) => {
            collect_fvs(f, out);
            collect_fvs(x, out);
            proof {
                lemma_union_assoc(out0, fv(**f), fv(**x));
            }
        },
        Expr::If { cond, then_, else_ } => {
            collect_fvs(cond, out);
            // A variable used in either branch is free in the whole if.
            collect_fvs(then_, out);
            collect_fvs(else_, out);
            proof {
                lemma_union_assoc(out0, fv(**cond), fv(**then_));
                lemma_union_assoc(out0, union(fv(**cond), fv(**then_)), fv(**else_));
            }
        },
        Expr::Match { scrutinee, arms } => {
            collect_fvs(scrutinee, out);
            collect_fvs_arms(arms, out);
            proof {
                lemma_union_assoc(out0, fv(**scrutinee), fv_arms(arms@));
            }
        },
        Expr::Con { fields, .. } => {
            collect_fvs_list(fields, out);
        },
        Expr::Foreign { args, .. } => {
            collect_fvs_list(args, out);
        },
    }
}

fn collect_fvs_arms(arms: &Vec<MatchArm>, out: &mut Vec<String>)
    ensures
        names(final(out)@) == union(names(old(out)@), fv_arms(arms@)),
    decreases arms, 0nat,
{
    let ghost out0 = names(out@);
    let mut i: usize = 0;
    assert(union(out0, fv_arms(arms@.take(0))) == out0);
    while i < arms.len()
        invariant
            0 <= i <= arms.len(),
            names(out@) == union(out0, fv_arms(arms@.take(i as int))),
        decreases arms.len() - i,
    {
        let arm_fvs = free_vars_arm(&arms[i]);
        extend_union(out, &arm_fvs);
        proof {
            assert(arms@.take(i + 1).drop_last() =~= arms@.take(i as int));
            lemma_union_assoc(out0, fv_arms(arms@.take(i as int)), fv_arm(arms@[i as int]));
        }
        i += 1;
    }
    assert(arms@.take(arms.len() as int) =~= arms@);
}

/// Free variables of a sequence of expressions, each once, in order of first occurrence.
/// Free variables of the arms of a match, each once, in order of first occurrence.
pub(crate) fn free_vars_arms(arms: &Vec<MatchArm>) -> (r: Vec<String>)
    ensures
        names(r@) == fv_arms(arms@),
{
    let mut fvs: Vec<String> = Vec::new();
    collect_fvs_arms(arms, &mut fvs);
    proof {
        lemma_fv_arms_no_dup(arms@);
        lemma_union_empty_left(fv_arms(arms@));
    }
    assert(names(Seq::<String>::empty()) =~= Seq::<Seq<char>>::empty());
    fvs
}

pub(crate) fn free_vars_list(es: &Vec<Expr>) -> (r: Vec<String>)
    ensures
        names(r@) == fv_list(es@),
{
    let mut fvs: Vec<String> = Vec::new();
    collect_fvs_list(es, &mut fvs);
    proof {
        lemma_fv_list_no_dup(es@);
        lemma_union_empty_left(fv_list(es@));
        assert(names(Seq::<String>::empty()) =~= Seq::<Seq<char>>::empty());
    }
    fvs
}

fn collect_fvs_list(es: &Vec<Expr>, out: &mut Vec<String>)
    ensures
        names(final(out)@) == union(names(old(out)@), fv_list(es@)),
    decreases es, 0nat,
{
    let ghost out0 = names(out@);
    let mut i: usize = 0;
    assert(union(out0, fv_list(es@.take(0))) == out0);
    while i < es.len()
        invariant
            0 <= i <= es.len(),
            names(out@) == union(out0, fv_list(es@.take(i as int))),
        decreases es.len() - i,
    {
        collect_fvs(&es[i], out);
        proof {
            assert(es@.take(i + 1).drop_last() =~= es@.take(i as int));
            lemma_union_assoc(out0, fv_list(es@.take(i as int)), fv(es@[i as int]));
        }
        i += 1;
    }
    assert(es@.take(es.len() as int) =~= es@);
}

/// Free variables of a match arm: those of the body not bound by the pattern.
pub fn free_vars_arm(arm: &MatchArm) -> (r: Vec<String>)
    ensures
        names(r@) == fv_arm(*arm),
    decreases arm, 1nat,
{
    let mut fvs: Vec<String> = Vec::new();
    collect_fvs(&arm.body, &mut fvs);
    proof {
        lemma_fv_no_dup(arm.body);
        assert(names(Seq::<String>::empty()) =~= Seq::<Seq<char>>::empty());
        lemma_union_empty_left(fv(arm.body));
    }
    let bs = pat_bindings(&arm.pat);
    remove_names(&fvs, &bs)
}

// ── Pattern bindings ─────────────────────────────────────────────────────────

/// Variables bound by a pattern, each once.
pub fn pat_bindings(pat: &Pattern) -> (r: Vec<String>)
    ensures
        names(r@) == pat_var_set(*pat),
{
    let mut bs: Vec<String> = Vec::new();
    collect_pat_bindings(pat, &mut bs);
    assert(names(Seq::<String>::empty()) =~= Seq::<Seq<char>>::empty());
    bs
}

fn collect_pat_bindings(pat: &Pattern, out: &mut Vec<String>)
    ensures
        names(final(out)@) == union(names(old(out)@), pat_vars(*pat)),
    decreases pat, 1nat,
{
    let ghost out0 = names(out@);
    match pat {
        Pattern::Var(x) => {
            insert_name(out, x.clone());
        },
        Pattern::Con { fields, .. } => {
            collect_pat_bindings_list(fields, out);
        },
        _ => {},
    }
}

fn collect_pat_bindings_list(fields: &Vec<Pattern>, out: &mut Vec<String>)
    ensures
        names(final(out)@) == union(names(old(out)@), pat_vars_list(fields@)),
    decreases fields, 0nat,
{
    let ghost out0 = names(out@);
    let mut i: usize = 0;
    assert(union(out0, pat_vars_list(fields@.take(0))) == out0);
    while i < fields.len()
        invariant
            0 <= i <= fields.len(),
            names(out@) == union(out0, pat_vars_list(fields@.take(i as int))),
        decreases fields.len() - i,
    {
        collect_pat_bindings(&fields[i], out);
        proof {
            assert(fields@.take(i + 1).drop_last() =~= fields@.take(i as int));
            crate::names::lemma_union_append(
                out0,
                pat_vars_list(fields@.take(i as int)),
                pat_vars(fields@[i as int]),
            );
        }
        i += 1;
    }
    assert(fields@.take(fields.len() as int) =~= fields@);
}

/// Ordered list of bindings introduced by a pattern (left-to-right field order).
pub fn pat_bindings_ordered(pat: &Pattern) -> (r: Vec<String>)
    ensures
        names(r@) == pat_vars(*pat),
{
    let mut bs: Vec<String> = Vec::new();
    collect_ordered(pat, &mut bs);
    assert(names(Seq::<String>::empty()) + pat_vars(*pat) =~= pat_vars(*pat));
    bs
}

fn collect_ordered(pat: &Pattern, out: &mut Vec<String>)
    ensures
        names(final(out)@) == names(old(out)@) + pat_vars(*pat),
    decreases pat, 1nat,
{
    let ghost out0 = names(out@);
    match pat {
        Pattern::Var(x) => {
            out.push(x.clone());
            assert(names(out@) =~= out0 + seq![x@]);
        },
        Pattern::Con { fields, .. } => {
            collect_ordered_list(fields, out);
        },
        _ => {
            assert(out0 + Seq::<Seq<char>>::empty() =~= out0);
        },
    }
}

fn collect_ordered_list(fields: &Vec<Pattern>, out: &mut Vec<String>)
    ensures
        names(final(out)@) == names(old(out)@) + pat_vars_list(fields@),
    decreases fields, 0nat,
{
    let ghost out0 = names(out@);
    let mut i: usize = 0;
    assert(out0 + pat_vars_list(fields@.take(0)) =~= out0);
    while i < fields.len()
        invariant
            0 <= i <= fields.len(),
            names(out@) == out0 + pat_vars_list(fields@.take(i as int)),
        decreases fields.len() - i,
    {
        collect_ordered(&fields[i], out);
        proof {
            assert(fields@.take(i + 1).drop_last() =~= fields@.take(i as int));
            assert(out0 + pat_vars_list(fields@.take(i + 1)) =~= out0 + pat_vars_list(
                fields@.take(i as int),
            ) + pat_vars(fields@[i as int]));
        }
        i += 1;
    }
    assert(fields@.take(fields.len() as int) =~= fields@);
}


// ── Use counts ───────────────────────────────────────────────────────────────

proof fn lemma_uc_list_prefix(v: Seq<char>, es: Seq<Expr>, j: int)
    requires
        0 <= j <= es.len(),
    ensures
        uc_list(v, es.take(j)) <= uc_list(v, es),
    decreases es.len(),
{
    if j < es.len() {
        assert(es.drop_last().take(j) =~= es.take(j));
        lemma_uc_list_prefix(v, es.drop_last(), j);
    } else {
        assert(es.take(j) =~= es);
    }
}

proof fn lemma_uc_arms_prefix(v: Seq<char>, arms: Seq<MatchArm>, j: int)
    requires
        0 <= j <= arms.len(),
    ensures
        uc_arms(v, arms.take(j)) <= uc_arms(v, arms),
    decreases arms.len(),
{
    if j < arms.len() {
        assert(arms.drop_last().take(j) =~= arms.take(j));
        lemma_uc_arms_prefix(v, arms.drop_last(), j);
    } else {
        assert(arms.take(j) =~= arms);
    }
}

/// How many times does `var` appear (syntactically) in `expr`?
/// Branches are counted as max(then, else) — if the variable is needed
/// in one branch it must be alive entering the if.
pub fn use_count(var: &str, expr: &Expr) -> (r: usize)
    requires
        uc(var@, *expr) <= usize::MAX,
    ensures
        r == uc(var@, *expr),
{
    let v = var.to_owned();
    count_uses(&v, expr)
}

fn count_uses(var: &String, expr: &Expr) -> (r: usize)
    requires
        uc(var@, *expr) <= usize::MAX,
    ensures
        r == uc(var@, *expr),
    decreases expr, 2nat,
{
    match expr {
        Expr::Lit(_) => 0,
        Expr::Var(x) => if *x == *var {
            1
        } else {
            0
        },
        Expr::Let { name, value, body } => {
            let v = count_uses(var, value);
            let b = if *name == *var {
                0
            } else {
                count_uses(var, body)
            };
            v + b
        },
        Expr::Lam { param, body } => {
            if *param == *var {
                0
            } else {
                count_uses(var, body)
            }
        },
        Expr::App(f, x) => count_uses(var, f) + count_uses(var, x),
        Expr::If { cond, then_, else_ } => {
            // The variable is consumed along exactly one branch, but a live copy
            // is needed entering both.  Take the max of the two branches.
            let c = count_uses(var, cond);
            let t = count_uses(var, then_);
            let e = count_uses(var, else_);
            c + if t >= e {
                t
            } else {
                e
            }
        },
        Expr::Match { scrutinee, arms } => {
            let s = count_uses(var, scrutinee);
            // Same branch reasoning as If.
            let arm_max = count_uses_arms(var, arms);
            s + arm_max
        },
        Expr::Con { fields, .. } => count_uses_list(var, fields),
        Expr::Foreign { args, .. } => count_uses_list(var, args),
    }
}

fn count_uses_list(var: &String, es: &Vec<Expr>) -> (r: usize)
    requires
        uc_list(var@, es@) <= usize::MAX,
    ensures
        r == uc_list(var@, es@),
    decreases es, 0nat,
{
    let mut total: usize = 0;
    let mut i: usize = 0;
    while i < es.len()
        invariant
            0 <= i <= es.len(),
            uc_list(var@, es@) <= usize::MAX,
            total == uc_list(var@, es@.take(i as int)),
        decreases es.len() - i,
    {
        proof {
            assert(es@.take(i + 1).drop_last() =~= es@.take(i as int));
            lemma_uc_list_prefix(var@, es@, i + 1);
        }
        let c = count_uses(var, &es[i]);
        total = total + c;
        i += 1;
    }
    assert(es@.take(es.len() as int) =~= es@);
    total
}

fn count_uses_arm(var: &String, arm: &MatchArm) -> (r: usize)
    requires
        uc_arm(var@, *arm) <= usize::MAX,
    ensures
        r == uc_arm(var@, *arm),
    decreases arm, 1nat,
{
    let bs = pat_bindings(&arm.pat);
    if contains_name(&bs, var) {
        0  // shadowed inside this arm
    } else {
        count_uses(var, &arm.body)
    }
}

fn count_uses_arms(var: &String, arms: &Vec<MatchArm>) -> (r: usize)
    requires
        uc_arms(var@, arms@) <= usize::MAX,
    ensures
        r == uc_arms(var@, arms@),
    decreases arms, 0nat,
{
    let mut m: usize = 0;
    let mut i: usize = 0;
    while i < arms.len()
        invariant
            0 <= i <= arms.len(),
            uc_arms(var@, arms@) <= usize::MAX,
            m == uc_arms(var@, arms@.take(i as int)),
        decreases arms.len() - i,
    {
        proof {
            assert(arms@.take(i + 1).drop_last() =~= arms@.take(i as int));
            lemma_uc_arms_prefix(var@, arms@, i + 1);
        }
        let c = count_uses_arm(var, &arms[i]);
        if c > m {
            m = c;
        }
        i += 1;
    }
    assert(arms@.take(arms.len() as int) =~= arms@);
    m
}

// ── Laws ─────────────────────────────────────────────────────────────────────

/// A variable is free in an expression exactly when its use count there is nonzero.
pub proof fn lemma_free_iff_used(v: Seq<char>, e: Expr)
    ensures
        fv(e).contains(v) <==> uc(v, e) > 0,
    decreases e, 2nat,
{
    match e {
        Expr::Lit(_) => {},
        Expr::Var(x) => {
            if fv(e).contains(v) {
                assert(seq![x@][0] == x@);
            } else {
                assert(seq![x@][0] == x@);
            }
        },
        Expr::Let { name, value, body } => {
            lemma_free_iff_used(v, *value);
            lemma_free_iff_used(v, *body);
            lemma_union_contains(fv(*value), remove(fv(*body), name@), v);
            lemma_remove_contains(fv(*body), name@, v);
        },
        Expr::Lam { param, body } => {
            lemma_free_iff_used(v, *body);
            lemma_remove_contains(fv(*body), param@, v);
        },
        Expr::App(f, x) => {
            lemma_free_iff_used(v, *f);
            lemma_free_iff_used(v, *x);
            lemma_union_contains(fv(*f), fv(*x), v);
        },
        Expr::If { cond, then_, else_ } => {
            lemma_free_iff_used(v, *cond);
            lemma_free_iff_used(v, *then_);
            lemma_free_iff_used(v, *else_);
            lemma_union_contains(fv(*cond), fv(*then_), v);
            lemma_union_contains(union(fv(*cond), fv(*then_)), fv(*else_), v);
        },
        Expr::Match { scrutinee, arms } => {
            lemma_free_iff_used(v, *scrutinee);
            lemma_free_iff_used_arms(v, arms@);
            lemma_union_contains(fv(*scrutinee), fv_arms(arms@), v);
        },
        Expr::Con { fields, .. } => {
            lemma_free_iff_used_list(v, fields@);
        },
        Expr::Foreign { args, .. } => {
            lemma_free_iff_used_list(v, args@);
        },
    }
}

/// `lemma_free_iff_used` over a sequence of expressions.
pub proof fn lemma_free_iff_used_list(v: Seq<char>, es: Seq<Expr>)
    ensures
        fv_list(es).contains(v) <==> uc_list(v, es) > 0,
    decreases es, 0nat,
{
    if es.len() > 0 {
        lemma_free_iff_used_list(v, es.drop_last());
        lemma_free_iff_used(v, es.last());
        lemma_union_contains(fv_list(es.drop_last()), fv(es.last()), v);
    }
}

/// `lemma_free_iff_used` for one match arm.
pub proof fn lemma_free_iff_used_arm(v: Seq<char>, arm: MatchArm)
    ensures
        fv_arm(arm).contains(v) <==> uc_arm(v, arm) > 0,
    decreases arm, 1nat,
{
    lemma_free_iff_used(v, arm.body);
    lemma_remove_all_contains(fv(arm.body), pat_var_set(arm.pat), v);
}

/// `lemma_free_iff_used` over the arms of a match.
pub proof fn lemma_free_iff_used_arms(v: Seq<char>, arms: Seq<MatchArm>)
    ensures
        fv_arms(arms).contains(v) <==> uc_arms(v, arms) > 0,
    decreases arms, 0nat,
{
    if arms.len() > 0 {
        lemma_free_iff_used_arms(v, arms.drop_last());
        lemma_free_iff_used_arm(v, arms.last());
        lemma_union_contains(fv_arms(arms.drop_last()), fv_arm(arms.last()), v);
    }
}

/// The set of bindings of a pattern holds exactly the variables of its ordered
/// bindings, each once.
pub proof fn lemma_pat_bindings_agree(p: Pattern, z: Seq<char>)
    ensures
        pat_var_set(p).contains(z) <==> pat_vars(p).contains(z),
        pat_var_set(p).no_duplicates(),
{
    lemma_pat_var_set_contains(p, z);
}


/// A use count never exceeds the size of the expression.
pub proof fn lemma_uc_le_size(v: Seq<char>, e: Expr)
    ensures
        uc(v, e) <= size(e),
    decreases e, 2nat,
{
    match e {
        Expr::Let { value, body, .. } => {
            lemma_uc_le_size(v, *value);
            lemma_uc_le_size(v, *body);
        },
        Expr::Lam { body, .. } => {
            lemma_uc_le_size(v, *body);
        },
        Expr::App(f, x) => {
            lemma_uc_le_size(v, *f);
            lemma_uc_le_size(v, *x);
        },
        Expr::If { cond, then_, else_ } => {
            lemma_uc_le_size(v, *cond);
            lemma_uc_le_size(v, *then_);
            lemma_uc_le_size(v, *else_);
        },
        Expr::Match { scrutinee, arms } => {
            lemma_uc_le_size(v, *scrutinee);
            lemma_uc_le_size_arms(v, arms@);
        },
        Expr::Con { fields, .. } => {
            lemma_uc_le_size_list(v, fields@);
        },
        Expr::Foreign { args, .. } => {
            lemma_uc_le_size_list(v, args@);
        },
        _ => {},
    }
}

proof fn lemma_uc_le_size_list(v: Seq<char>, es: Seq<Expr>)
    ensures
        uc_list(v, es) <= size_list(es),
    decreases es, 0nat,
{
    if es.len() > 0 {
        lemma_uc_le_size_list(v, es.drop_last());
        lemma_uc_le_size(v, es.last());
    }
}

proof fn lemma_uc_le_size_arms(v: Seq<char>, arms: Seq<MatchArm>)
    ensures
        uc_arms(v, arms) <= size_arms(arms),
    decreases arms, 0nat,
{
    if arms.len() > 0 {
        lemma_uc_le_size_arms(v, arms.drop_last());
        lemma_uc_le_size(v, arms.last().body);
        assert(uc_arm(v, arms.last()) <= size(arms.last().body));
    }
}

} // verus!
