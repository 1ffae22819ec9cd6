//! What the Perceus transform guarantees about ownership: it only duplicates
//! and drops references it owns, and it releases every bound variable exactly
//! once on every path through its scope.
use vstd::prelude::*;
use vstd::string::*;

use crate::ast::{Expr, LitV, MatchArm};
use crate::liveness::{
    fv, fv_arm, fv_arms, fv_list, lemma_fv_arms_no_dup, lemma_fv_list_no_dup, lemma_fv_no_dup,
    lemma_free_iff_used, lemma_pat_bindings_agree, pat_var_set, pat_vars, uc,
};
use crate::names::{
    intersect, lemma_intersect_contains, lemma_intersect_no_dup, lemma_remove_all_contains,
    lemma_remove_all_no_dup, lemma_remove_contains, lemma_union_contains, remove, remove_all,
    union,
};
use crate::perceus::{
    arg_count, arg_dups, arm_drops, arms_live, con_term, extra_uses, repeat, reuse_token_spec,
    scrut_kept, scrut_temp, unused_bindings, wrap, xf, xf_arm, xf_arms, xf_list, xf_match,
    xf_with_reuse, clashes, arm_suffix, renamed, rebind, fresh_suffix, max_len,
};
use crate::rc::{ArmTerm, Term};
use crate::text::rep;
use crate::simplify::{
    lemma_step, lemma_tsize_pos, mentions_arms, mentions_list, mentions_t, reduce_dup_f, step_f,
    tsize, uses_arms, uses_list, uses_t,
};

verus! {

/// The names of a sequence, as a set.
pub open spec fn as_set(s: Seq<Seq<char>>) -> Set<Seq<char>> {
    Set::new(|z: Seq<char>| s.contains(z))
}

/// Every Dup and Drop of `t` is of a name of `a` or of a name bound on the way
/// to it (by a `let` or by the bindings of a match arm); inside a lambda only
/// its captures and its parameter may be duplicated or dropped.
pub open spec fn rc_within(t: Term, a: Set<Seq<char>>) -> bool
    decreases t,
{
    match t {
        Term::Dup { var, body } => a.contains(var) && rc_within(*body, a),
        Term::Drop { var, body } => a.contains(var) && rc_within(*body, a),
        Term::Let { name, value, body } => rc_within(*value, a) && rc_within(*body, a.insert(name)),
        Term::Lam { param, captures, body } => rc_within(*body, as_set(captures).insert(param)),
        Term::App(f, x) => rc_within(*f, a) && rc_within(*x, a),
        Term::If { cond, then_, else_ } => rc_within(*cond, a) && rc_within(*then_, a) && rc_within(
            *else_,
            a,
        ),
        Term::Match { arms, .. } => forall|i: int|
            0 <= i < arms.len() ==> rc_within(
                #[trigger] arms[i].body,
                a.union(as_set(arms[i].bindings)),
            ),
        Term::Con { fields, .. } => forall|i: int|
            0 <= i < fields.len() ==> rc_within(#[trigger] fields[i], a),
        Term::Foreign { args, .. } => forall|i: int|
            0 <= i < args.len() ==> rc_within(#[trigger] args[i], a),
        _ => true,
    }
}

// ── Helpers ──────────────────────────────────────────────────────────────────

/// Allowing more names keeps a term within bounds.
proof fn lemma_within_mono(t: Term, a: Set<Seq<char>>, b: Set<Seq<char>>)
    requires
        rc_within(t, a),
        a.subset_of(b),
    ensures
        rc_within(t, b),
    decreases t,
{
    match t {
        Term::Dup { var, body } => lemma_within_mono(*body, a, b),
        Term::Drop { var, body } => lemma_within_mono(*body, a, b),
        Term::Let { name, value, body } => {
            lemma_within_mono(*value, a, b);
            lemma_within_mono(*body, a.insert(name), b.insert(name));
        },
        Term::App(f, x) => {
            lemma_within_mono(*f, a, b);
            lemma_within_mono(*x, a, b);
        },
        Term::If { cond, then_, else_ } => {
            lemma_within_mono(*cond, a, b);
            lemma_within_mono(*then_, a, b);
            lemma_within_mono(*else_, a, b);
        },
        Term::Match { arms, .. } => {
            assert forall|i: int| 0 <= i < arms.len() implies rc_within(
                #[trigger] arms[i].body,
                b.union(as_set(arms[i].bindings)),
            ) by {
                lemma_within_mono(
                    arms[i].body,
                    a.union(as_set(arms[i].bindings)),
                    b.union(as_set(arms[i].bindings)),
                );
            }
        },
        Term::Con { fields, .. } => {
            assert forall|i: int| 0 <= i < fields.len() implies rc_within(#[trigger] fields[i], b) by {
                lemma_within_mono(fields[i], a, b);
            }
        },
        Term::Foreign { args, .. } => {
            assert forall|i: int| 0 <= i < args.len() implies rc_within(#[trigger] args[i], b) by {
                lemma_within_mono(args[i], a, b);
            }
        },
        _ => {},
    }
}

/// Wrapping in Dups or Drops of allowed names keeps a term within bounds.
proof fn lemma_wrap_within(vs: Seq<Seq<char>>, t: Term, dup: bool, a: Set<Seq<char>>)
    requires
        forall|v: Seq<char>| vs.contains(v) ==> a.contains(v),
        rc_within(t, a),
    ensures
        rc_within(wrap(vs, t, dup), a),
    decreases vs.len(),
{
    if vs.len() > 0 {
        assert forall|v: Seq<char>| vs.drop_last().contains(v) implies a.contains(v) by {
            let i = choose|i: int| 0 <= i < vs.drop_last().len() && vs.drop_last()[i] == v;
            assert(vs[i] == v);
        }
        lemma_wrap_within(vs.drop_last(), t, dup, a);
        assert(vs.contains(vs.last())) by {
            assert(vs[vs.len() - 1] == vs.last());
        }
    }
}

proof fn lemma_union_set(a: Seq<Seq<char>>, b: Seq<Seq<char>>)
    ensures
        as_set(union(a, b)) == as_set(a).union(as_set(b)),
{
    assert forall|z: Seq<char>| as_set(union(a, b)).contains(z) == as_set(a).union(
        as_set(b),
    ).contains(z) by {
        lemma_union_contains(a, b, z);
    }
    assert(as_set(union(a, b)) =~= as_set(a).union(as_set(b)));
}

proof fn lemma_union_one(a: Seq<Seq<char>>, x: Seq<char>)
    ensures
        as_set(union(a, seq![x])) == as_set(a).insert(x),
{
    lemma_union_set(a, seq![x]);
    assert(as_set(seq![x]) =~= Set::empty().insert(x)) by {
        assert forall|z: Seq<char>| as_set(seq![x]).contains(z) == (z == x) by {
            if z == x {
                assert(seq![x][0] == z);
            }
        }
    }
    assert(as_set(a).union(as_set(seq![x])) =~= as_set(a).insert(x));
}

proof fn lemma_intersect_within(a: Seq<Seq<char>>, b: Seq<Seq<char>>)
    ensures
        forall|v: Seq<char>| #[trigger] intersect(a, b).contains(v) ==> b.contains(v),
{
    assert forall|v: Seq<char>| #[trigger] intersect(a, b).contains(v) implies b.contains(v) by {
        lemma_intersect_contains(a, b, v);
    }
}

proof fn lemma_repeat_within(v: Seq<char>, n: nat)
    ensures
        forall|z: Seq<char>| #[trigger] repeat(v, n).contains(z) ==> z == v,
    decreases n,
{
    if n > 0 {
        lemma_repeat_within(v, (n - 1) as nat);
        assert forall|z: Seq<char>| #[trigger] repeat(v, n).contains(z) implies z == v by {
            let r = repeat(v, (n - 1) as nat);
            let i = choose|i: int| 0 <= i < repeat(v, n).len() && repeat(v, n)[i] == z;
            if i < r.len() {
                assert(r[i] == z);
                assert(r.contains(z));
            }
        }
    }
}

proof fn lemma_extra_uses_within(vs: Seq<Seq<char>>, es: Seq<Expr>)
    ensures
        forall|z: Seq<char>| #[trigger] extra_uses(vs, es).contains(z) ==> vs.contains(z),
    decreases vs.len(),
{
    if vs.len() > 0 {
        lemma_extra_uses_within(vs.drop_last(), es);
        let n = arg_count(vs.last(), es);
        let k: nat = if n > 0 {
            (n - 1) as nat
        } else {
            0
        };
        lemma_repeat_within(vs.last(), k);
        assert forall|z: Seq<char>| #[trigger] extra_uses(vs, es).contains(z) implies vs.contains(
            z,
        ) by {
            let front = extra_uses(vs.drop_last(), es);
            let back = repeat(vs.last(), k);
            let i = choose|i: int| 0 <= i < extra_uses(vs, es).len() && extra_uses(vs, es)[i] == z;
            assert(extra_uses(vs, es) == front + back);
            if i < front.len() {
                assert(front[i] == z);
                assert(front.contains(z));
                let j = choose|j: int| 0 <= j < vs.drop_last().len() && vs.drop_last()[j] == z;
                assert(vs[j] == z);
            } else {
                assert(back[i - front.len()] == z);
                assert(back.contains(z));
                assert(vs[vs.len() - 1] == z);
            }
        }
    }
}

// ── The law ──────────────────────────────────────────────────────────────────

/// Perceus only duplicates and drops what it owns: in the transform of `e`
/// with the owned variables `owned`, every Dup and Drop is of an owned
/// variable or of one bound on the way to it, and inside a lambda of one of
/// its captures or its parameter.  At the top level nothing is owned, so the
/// free variables of a program are never duplicated or dropped.
pub proof fn lemma_transform_within_owned(e: Expr, owned: Seq<Seq<char>>)
    ensures
        rc_within(xf(e, owned), as_set(owned)),
    decreases e, 0nat,
{
    let a = as_set(owned);
    match e {
        Expr::Lit(_) => {},
        Expr::Var(_) => {},
        Expr::Let { name, value, body } => {
            lemma_transform_within_owned(*value, owned);
            let o2 = union(owned, seq![name@]);
            lemma_transform_within_owned(*body, o2);
            lemma_union_one(owned, name@);
            let rb = xf(*body, o2);
            let b2 = if uc(name@, *body) == 0 {
                Term::Drop { var: name@, body: Box::new(rb) }
            } else {
                rb
            };
            assert(rc_within(b2, a.insert(name@)));
            let ds = intersect(intersect(fv(*value), remove(fv(*body), name@)), owned);
            lemma_intersect_within(intersect(fv(*value), remove(fv(*body), name@)), owned);
            lemma_wrap_within(
                ds,
                Term::Let { name: name@, value: Box::new(xf(*value, owned)), body: Box::new(b2) },
                true,
                a,
            );
        },
        Expr::Lam { param, body } => {
            let caps = intersect(remove(fv(*body), param@), owned);
            let o2 = union(caps, seq![param@]);
            lemma_transform_within_owned(*body, o2);
            lemma_union_one(caps, param@);
            let rb = xf(*body, o2);
            let b2 = if uc(param@, *body) == 0 {
                Term::Drop { var: param@, body: Box::new(rb) }
            } else {
                rb
            };
            assert(rc_within(b2, as_set(caps).insert(param@)));
        },
        Expr::App(f, x) => {
            lemma_transform_within_owned(*f, owned);
            lemma_transform_within_owned(*x, owned);
            lemma_intersect_within(intersect(fv(*f), fv(*x)), owned);
            lemma_wrap_within(
                intersect(intersect(fv(*f), fv(*x)), owned),
                Term::App(Box::new(xf(*f, owned)), Box::new(xf(*x, owned))),
                true,
                a,
            );
        },
        Expr::If { cond, then_, else_ } => {
            let fc = fv(*cond);
            let ft = fv(*then_);
            let fe = fv(*else_);
            let fb = union(ft, fe);
            let bo = remove_all(owned, remove_all(fc, fb));
            assert(as_set(bo).subset_of(a)) by {
                assert forall|z: Seq<char>| as_set(bo).contains(z) implies a.contains(z) by {
                    lemma_remove_all_contains(owned, remove_all(fc, fb), z);
                }
            }
            lemma_transform_within_owned(*cond, owned);
            lemma_transform_within_owned(*then_, bo);
            lemma_transform_within_owned(*else_, bo);
            lemma_intersect_within(remove_all(fe, ft), bo);
            lemma_intersect_within(remove_all(ft, fe), bo);
            let t1 = wrap(intersect(remove_all(fe, ft), bo), xf(*then_, bo), false);
            let e1 = wrap(intersect(remove_all(ft, fe), bo), xf(*else_, bo), false);
            lemma_wrap_within(intersect(remove_all(fe, ft), bo), xf(*then_, bo), false, as_set(bo));
            lemma_wrap_within(intersect(remove_all(ft, fe), bo), xf(*else_, bo), false, as_set(bo));
            lemma_within_mono(t1, as_set(bo), a);
            lemma_within_mono(e1, as_set(bo), a);
            lemma_intersect_within(intersect(fc, fb), owned);
            lemma_wrap_within(
                intersect(intersect(fc, fb), owned),
                Term::If { cond: Box::new(xf(*cond, owned)), then_: Box::new(t1), else_: Box::new(e1) },
                true,
                a,
            );
        },
        Expr::Match { scrutinee, arms } => {
            match *scrutinee {
                Expr::Var(x) => {
                    lemma_match_within(x@, arms@, owned);
                },
                _ => {
                    lemma_transform_within_owned(*scrutinee, owned);
                    let sn = scrut_temp(arms@);
                    let o2 = union(owned, seq![sn]);
                    lemma_match_within(sn, arms@, o2);
                    lemma_union_one(owned, sn);
                    let ds = intersect(intersect(fv(*scrutinee), fv_arms(arms@)), owned);
                    lemma_intersect_within(intersect(fv(*scrutinee), fv_arms(arms@)), owned);
                    lemma_wrap_within(
                        ds,
                        Term::Let {
                            name: sn,
                            value: Box::new(xf(*scrutinee, owned)),
                            body: Box::new(xf_match(sn, arms@, o2)),
                        },
                        true,
                        a,
                    );
                },
            }
        },
        Expr::Con { tag, fields } => {
            lemma_con_within(tag@, fields@, owned, None);
        },
        Expr::Foreign { name, args } => {
            lemma_list_within(args@, owned);
            lemma_arg_dups_within(args@, owned);
            lemma_wrap_within(
                arg_dups(args@, owned),
                Term::Foreign { name: name@, args: xf_list(args@, owned) },
                true,
                a,
            );
        },
    }
}

proof fn lemma_arg_dups_within(es: Seq<Expr>, owned: Seq<Seq<char>>)
    ensures
        forall|z: Seq<char>| #[trigger] arg_dups(es, owned).contains(z) ==> owned.contains(z),
{
    lemma_extra_uses_within(intersect(fv_list(es), owned), es);
    lemma_intersect_within(fv_list(es), owned);
}

proof fn lemma_list_within(es: Seq<Expr>, owned: Seq<Seq<char>>)
    ensures
        forall|i: int| 0 <= i < es.len() ==> rc_within(#[trigger] xf_list(es, owned)[i], as_set(owned)),
    decreases es, 0nat,
{
    assert forall|i: int| 0 <= i < es.len() implies rc_within(
        #[trigger] xf_list(es, owned)[i],
        as_set(owned),
    ) by {
        lemma_transform_within_owned(es[i], owned);
    }
}

proof fn lemma_con_within(
    tag: Seq<char>,
    fields: Seq<Expr>,
    owned: Seq<Seq<char>>,
    reuse: Option<Seq<char>>,
)
    ensures
        rc_within(con_term(tag, fields, owned, reuse), as_set(owned)),
    decreases fields, 1nat,
{
    lemma_list_within(fields, owned);
    lemma_arg_dups_within(fields, owned);
    lemma_wrap_within(
        arg_dups(fields, owned),
        Term::Con { tag, fields: xf_list(fields, owned), reuse },
        true,
        as_set(owned),
    );
}

proof fn lemma_with_reuse_within(e: Expr, owned: Seq<Seq<char>>, tok: Option<Seq<char>>)
    ensures
        rc_within(xf_with_reuse(e, owned, tok), as_set(owned)),
    decreases e, 1nat,
{
    match e {
        Expr::Con { tag, fields } => lemma_con_within(tag@, fields@, owned, tok),
        _ => lemma_transform_within_owned(e, owned),
    }
}

proof fn lemma_match_within(s: Seq<char>, arms: Seq<MatchArm>, owned: Seq<Seq<char>>)
    ensures
        rc_within(xf_match(s, arms, owned), as_set(owned)),
    decreases arms, 3nat,
{
    let xs = xf_arms(s, arms, owned);
    assert forall|i: int| 0 <= i < xs.len() implies rc_within(
        #[trigger] xs[i].body,
        as_set(owned).union(as_set(xs[i].bindings)),
    ) by {
        lemma_arm_within(s, arms, i, owned);
    }
    let m = Term::Match { scrutinee: s, arms: xs };
    let ks: Seq<Seq<char>> = if scrut_kept(s, arms, owned) {
        seq![s]
    } else {
        Seq::empty()
    };
    assert forall|v: Seq<char>| ks.contains(v) implies as_set(owned).contains(v) by {
        if ks.len() > 0 {
            assert(ks[0] == s);
        }
    }
    lemma_wrap_within(ks, m, true, as_set(owned));
}

proof fn lemma_arm_within(s: Seq<char>, arms: Seq<MatchArm>, i: int, owned: Seq<Seq<char>>)
    requires
        0 <= i < arms.len(),
    ensures
        rc_within(
            xf_arm(s, arms, i, owned).body,
            as_set(owned).union(as_set(xf_arm(s, arms, i, owned).bindings)),
        ),
    decreases arms, 1nat,
{
    let arm = arms[i];
    let bs = pat_vars(arm.pat);
    let tok = reuse_token_spec(s, arm.pat);
    let live = arms_live(s, arms, owned);
    let ao = union(live, bs);
    let big = as_set(owned).union(as_set(bs));
    assert forall|z: Seq<char>| live.contains(z) implies owned.contains(z) by {
        lemma_remove_contains(owned, s, z);
    }
    assert(as_set(ao).subset_of(big)) by {
        assert forall|z: Seq<char>| as_set(ao).contains(z) implies big.contains(z) by {
            lemma_union_contains(live, bs, z);
        }
    }
    lemma_with_reuse_within(arm.body, ao, tok);
    lemma_within_mono(xf_with_reuse(arm.body, ao, tok), as_set(ao), big);
    assert forall|z: Seq<char>| unused_bindings(arm).contains(z) implies big.contains(z) by {
        lemma_remove_all_contains(pat_var_set(arm.pat), fv(arm.body), z);
        lemma_pat_bindings_agree(arm.pat, z);
    }
    let inner = wrap(unused_bindings(arm), xf_with_reuse(arm.body, ao, tok), false);
    lemma_wrap_within(unused_bindings(arm), xf_with_reuse(arm.body, ao, tok), false, big);
    // With the clashing bindings renamed, the allowed names are the owned
    // ones and the renamed bindings; the rebinding `let`s bring back the rest.
    let cs = clashes(s, arms, i, owned);
    let sfx = arm_suffix(s, arms, i, owned);
    let nb = bs.map_values(|b: Seq<char>| renamed(b, cs, sfx));
    let allowed = as_set(owned).union(as_set(nb));
    assert(big.subset_of(allowed.union(as_set(cs)))) by {
        assert forall|z: Seq<char>| big.contains(z) implies allowed.union(as_set(cs)).contains(z) by {
            if bs.contains(z) && !cs.contains(z) {
                let k = choose|k: int| 0 <= k < bs.len() && bs[k] == z;
                assert(nb[k] == z);
            }
        }
    }
    lemma_within_mono(inner, big, allowed.union(as_set(cs)));
    lemma_rebind_within(cs, sfx, inner, allowed);
    assert forall|z: Seq<char>| arm_drops(s, arms, i, owned).contains(z) implies allowed.contains(z) by {
        lemma_remove_all_contains(intersect(fv_arms(arms), live), fv_arm(arm), z);
        lemma_intersect_contains(fv_arms(arms), live, z);
    }
    lemma_wrap_within(arm_drops(s, arms, i, owned), rebind(cs, sfx, inner), false, allowed);
}

/// Rebinding the names of `cs` lets the term inside use them.
proof fn lemma_rebind_within(cs: Seq<Seq<char>>, sfx: Seq<char>, t: Term, a: Set<Seq<char>>)
    requires
        rc_within(t, a.union(as_set(cs))),
    ensures
        rc_within(rebind(cs, sfx, t), a),
    decreases cs.len(),
{
    if cs.len() > 0 {
        let init = cs.drop_last();
        let c = cs.last();
        let a2 = a.insert(c);
        assert(rebind(cs, sfx, t) == Term::Let {
            name: c,
            value: Box::new(Term::Var(c + sfx)),
            body: Box::new(rebind(init, sfx, t)),
        });
        assert(a.union(as_set(cs)).subset_of(a2.union(as_set(init)))) by {
            assert forall|z: Seq<char>| a.union(as_set(cs)).contains(z) implies a2.union(
                as_set(init),
            ).contains(z) by {
                if cs.contains(z) && z != c {
                    let k = choose|k: int| 0 <= k < cs.len() && cs[k] == z;
                    assert(init[k] == z);
                }
            }
        }
        lemma_within_mono(t, a.union(as_set(cs)), a2.union(as_set(init)));
        lemma_rebind_within(init, sfx, t, a2);
        assert(rc_within(Term::Var(c + sfx), a));
    } else {
        assert(a.union(as_set(cs)) =~= a);
    }
}


// ── Balance: every reference is released exactly once ───────────────────────

/// 1 where `b` holds, else 0.
pub open spec fn ind(b: bool) -> int {
    if b {
        1
    } else {
        0
    }
}

/// Sum of two counts; an unknown count (`None`) absorbs.
pub open spec fn plus(a: Option<int>, b: Option<int>) -> Option<int> {
    match (a, b) {
        (Some(x), Some(y)) => Some(x + y),
        _ => None,
    }
}

/// The count shared by two alternative paths; `None` where they differ.
pub open spec fn agree(a: Option<int>, b: Option<int>) -> Option<int> {
    if a == b {
        a
    } else {
        None
    }
}

/// Number of occurrences of `x` in `vs`.
pub open spec fn occ(vs: Seq<Seq<char>>, x: Seq<char>) -> int
    decreases vs.len(),
{
    if vs.len() == 0 {
        0
    } else {
        occ(vs.drop_last(), x) + ind(vs.last() == x)
    }
}

/// How many references to `x` every path through `t` releases: its uses (as a
/// variable, as a match scrutinee, as a lambda capture) and its Drops, less its
/// Dups.  One path takes one branch of each `if` and one arm of each `match`;
/// where two paths release a different number, `None`.  A binder of `x`
/// inside `t` hides `x` in its scope.
pub open spec fn net(t: Term, x: Seq<char>) -> Option<int>
    decreases t,
{
    match t {
        Term::Lit(_) => Some(0),
        Term::Var(y) => Some(ind(y == x)),
        Term::Dup { var, body } => plus(net(*body, x), Some(-ind(var == x))),
        Term::Drop { var, body } => plus(net(*body, x), Some(ind(var == x))),
        Term::Let { name, value, body } => if name == x {
            net(*value, x)
        } else {
            plus(net(*value, x), net(*body, x))
        },
        Term::Lam { captures, .. } => Some(ind(captures.contains(x))),
        Term::App(f, a) => plus(net(*f, x), net(*a, x)),
        Term::If { cond, then_, else_ } => plus(
            net(*cond, x),
            agree(net(*then_, x), net(*else_, x)),
        ),
        Term::Match { scrutinee, arms } => plus(Some(ind(scrutinee == x)), net_arms(arms, x)),
        Term::Con { fields, .. } => net_list(fields, x),
        Term::Foreign { args, .. } => net_list(args, x),
    }
}

/// `net` summed over terms evaluated one after the other.
pub open spec fn net_list(ts: Seq<Term>, x: Seq<char>) -> Option<int>
    decreases ts,
{
    if ts.len() == 0 {
        Some(0)
    } else {
        plus(net_list(ts.drop_last(), x), net(ts.last(), x))
    }
}

/// `net` common to all arms of a match (an arm that binds `x` releases none of
/// the outer `x`); `None` where two arms differ.
pub open spec fn net_arms(arms: Seq<ArmTerm>, x: Seq<char>) -> Option<int>
    decreases arms,
{
    if arms.len() == 0 {
        Some(0)
    } else {
        let v = if arms.last().bindings.contains(x) {
            Some(0)
        } else {
            net(arms.last().body, x)
        };
        if arms.len() == 1 {
            v
        } else {
            agree(net_arms(arms.drop_last(), x), v)
        }
    }
}

/// Every variable that `t` binds (a `let` name, a lambda parameter or
/// capture, a match arm binding) is released exactly once on every path
/// through its scope: uses plus Drops equal one plus Dups.
pub open spec fn balanced(t: Term) -> bool
    decreases t,
{
    match t {
        Term::Dup { body, .. } => balanced(*body),
        Term::Drop { body, .. } => balanced(*body),
        Term::Let { name, value, body } => balanced(*value) && balanced(*body) && net(*body, name)
            == Some(1int),
        Term::Lam { param, captures, body } => balanced(*body) && net(*body, param) == Some(1int)
            && forall|c: Seq<char>| #[trigger] captures.contains(c) ==> net(*body, c) == Some(1int),
        Term::App(f, a) => balanced(*f) && balanced(*a),
        Term::If { cond, then_, else_ } => balanced(*cond) && balanced(*then_) && balanced(*else_),
        Term::Match { arms, .. } => forall|i: int|
            #![trigger arms[i]]
            0 <= i < arms.len() ==> balanced(arms[i].body) && forall|b: Seq<char>|
                #[trigger] arms[i].bindings.contains(b) ==> net(arms[i].body, b) == Some(1int),
        Term::Con { fields, .. } => forall|i: int|
            0 <= i < fields.len() ==> balanced(#[trigger] fields[i]),
        Term::Foreign { args, .. } => forall|i: int|
            0 <= i < args.len() ==> balanced(#[trigger] args[i]),
        _ => true,
    }
}

// ── Counting lemmas ─────────────────────────────────────────────────────────

proof fn lemma_net_wrap(vs: Seq<Seq<char>>, t: Term, dup: bool, x: Seq<char>)
    ensures
        net(wrap(vs, t, dup), x) == plus(
            net(t, x),
            Some(
                if dup {
                    -occ(vs, x)
                } else {
                    occ(vs, x)
                },
            ),
        ),
    decreases vs.len(),
{
    if vs.len() > 0 {
        lemma_net_wrap(vs.drop_last(), t, dup, x);
    }
}

proof fn lemma_balanced_wrap(vs: Seq<Seq<char>>, t: Term, dup: bool)
    ensures
        balanced(wrap(vs, t, dup)) == balanced(t),
    decreases vs.len(),
{
    if vs.len() > 0 {
        lemma_balanced_wrap(vs.drop_last(), t, dup);
    }
}

proof fn lemma_occ(vs: Seq<Seq<char>>, x: Seq<char>)
    requires
        vs.no_duplicates(),
    ensures
        occ(vs, x) == ind(vs.contains(x)),
    decreases vs.len(),
{
    if vs.len() > 0 {
        let init = vs.drop_last();
        lemma_occ(init, x);
        assert(!init.contains(vs.last())) by {
            if init.contains(vs.last()) {
                let i = choose|i: int| 0 <= i < init.len() && init[i] == vs.last();
                assert(vs[i] == vs[vs.len() - 1]);
            }
        }
        if init.contains(x) {
            let i = choose|i: int| 0 <= i < init.len() && init[i] == x;
            assert(vs[i] == x);
        }
        if vs.contains(x) && !init.contains(x) {
            let i = choose|i: int| 0 <= i < vs.len() && vs[i] == x;
            if i < vs.len() - 1 {
                assert(init[i] == x);
            }
        }
        if vs.last() == x {
            assert(vs[vs.len() - 1] == x);
        }
    }
}

proof fn lemma_occ_append(a: Seq<Seq<char>>, b: Seq<Seq<char>>, x: Seq<char>)
    ensures
        occ(a + b, x) == occ(a, x) + occ(b, x),
    decreases b.len(),
{
    if b.len() > 0 {
        lemma_occ_append(a, b.drop_last(), x);
        assert((a + b).drop_last() =~= a + b.drop_last());
    } else {
        assert(a + b =~= a);
    }
}

proof fn lemma_occ_repeat(v: Seq<char>, n: nat, x: Seq<char>)
    ensures
        occ(repeat(v, n), x) == (if v == x {
            n as int
        } else {
            0
        }),
    decreases n,
{
    if n > 0 {
        lemma_occ_repeat(v, (n - 1) as nat, x);
        assert(repeat(v, n).drop_last() =~= repeat(v, (n - 1) as nat));
        assert(repeat(v, n).last() == v);
    } else {
        assert(repeat(v, n).len() == 0);
    }
}

proof fn lemma_arg_count(x: Seq<char>, es: Seq<Expr>)
    ensures
        fv_list(es).contains(x) <==> arg_count(x, es) >= 1,
    decreases es.len(),
{
    if es.len() > 0 {
        lemma_arg_count(x, es.drop_last());
        lemma_union_contains(fv_list(es.drop_last()), fv(es.last()), x);
    }
}

proof fn lemma_occ_extra_uses(vs: Seq<Seq<char>>, es: Seq<Expr>, x: Seq<char>)
    requires
        vs.no_duplicates(),
    ensures
        occ(extra_uses(vs, es), x) == (if vs.contains(x) && arg_count(x, es) >= 1 {
            arg_count(x, es) - 1
        } else {
            0
        }),
    decreases vs.len(),
{
    if vs.len() > 0 {
        let init = vs.drop_last();
        let v = vs.last();
        lemma_occ_extra_uses(init, es, x);
        let n = arg_count(v, es);
        let k: nat = if n > 0 {
            (n - 1) as nat
        } else {
            0
        };
        lemma_occ_append(extra_uses(init, es), repeat(v, k), x);
        lemma_occ_repeat(v, k, x);
        assert(!init.contains(v)) by {
            if init.contains(v) {
                let i = choose|i: int| 0 <= i < init.len() && init[i] == v;
                assert(vs[i] == vs[vs.len() - 1]);
            }
        }
        if init.contains(x) {
            let i = choose|i: int| 0 <= i < init.len() && init[i] == x;
            assert(vs[i] == x);
        }
        if vs.contains(x) && !init.contains(x) {
            let i = choose|i: int| 0 <= i < vs.len() && vs[i] == x;
            if i < vs.len() - 1 {
                assert(init[i] == x);
            }
        }
        if v == x {
            assert(vs[vs.len() - 1] == x);
        }
    }
}

proof fn lemma_fv_list_elem(es: Seq<Expr>, i: int, z: Seq<char>)
    requires
        0 <= i < es.len(),
        fv(es[i]).contains(z),
    ensures
        fv_list(es).contains(z),
    decreases es.len(),
{
    lemma_union_contains(fv_list(es.drop_last()), fv(es.last()), z);
    if i < es.len() - 1 {
        assert(es.drop_last()[i] == es[i]);
        lemma_fv_list_elem(es.drop_last(), i, z);
    }
}

proof fn lemma_fv_arms_elem(arms: Seq<MatchArm>, i: int, z: Seq<char>)
    requires
        0 <= i < arms.len(),
        fv_arm(arms[i]).contains(z),
    ensures
        fv_arms(arms).contains(z),
    decreases arms.len(),
{
    lemma_union_contains(fv_arms(arms.drop_last()), fv_arm(arms.last()), z);
    if i < arms.len() - 1 {
        assert(arms.drop_last()[i] == arms[i]);
        lemma_fv_arms_elem(arms.drop_last(), i, z);
    }
}

/// A match all of whose arms release `v` references of `x` releases `v`.
proof fn lemma_net_arms_const(xs: Seq<ArmTerm>, x: Seq<char>, v: int)
    requires
        xs.len() == 0 ==> v == 0,
        forall|i: int|
            #![trigger xs[i]]
            0 <= i < xs.len() ==> (if xs[i].bindings.contains(x) {
                Some(0int)
            } else {
                net(xs[i].body, x)
            }) == Some(v),
    ensures
        net_arms(xs, x) == Some(v),
    decreases xs.len(),
{
    if xs.len() > 1 {
        let init = xs.drop_last();
        assert forall|i: int| #![trigger init[i]] 0 <= i < init.len() implies (if init[i].bindings.contains(x) {
            Some(0int)
        } else {
            net(init[i].body, x)
        }) == Some(v) by {
            assert(init[i] == xs[i]);
        }
        lemma_net_arms_const(init, x, v);
        assert(xs.last() == xs[xs.len() - 1]);
    } else if xs.len() == 1 {
        assert(xs.last() == xs[0]);
    }
}

// ── Fresh names ─────────────────────────────────────────────────────────────

proof fn lemma_max_len_contains(vs: Seq<Seq<char>>, z: Seq<char>)
    requires
        vs.contains(z),
    ensures
        z.len() <= max_len(vs),
    decreases vs.len(),
{
    let init = vs.drop_last();
    if init.contains(z) {
        lemma_max_len_contains(init, z);
    } else {
        let k = choose|k: int| 0 <= k < vs.len() && vs[k] == z;
        if k < vs.len() - 1 {
            assert(init[k] == z);
        }
    }
}

proof fn lemma_rep_us_len(n: nat)
    ensures
        rep("_"@, n).len() == n,
    decreases n,
{
    reveal_strlit("_");
    if n > 0 {
        lemma_rep_us_len((n - 1) as nat);
    }
}

/// Every name of `vs` is shorter than `fresh_suffix(vs)`.
proof fn lemma_fresh_suffix(vs: Seq<Seq<char>>)
    ensures
        fresh_suffix(vs).len() == 1 + max_len(vs),
        forall|z: Seq<char>| #[trigger] vs.contains(z) ==> z.len() < fresh_suffix(vs).len(),
{
    reveal_strlit("_");
    lemma_rep_us_len(max_len(vs));
    assert forall|z: Seq<char>| #[trigger] vs.contains(z) implies z.len() < fresh_suffix(vs).len() by {
        lemma_max_len_contains(vs, z);
    }
}

proof fn lemma_concat_contains(a: Seq<Seq<char>>, b: Seq<Seq<char>>, z: Seq<char>)
    ensures
        a.contains(z) ==> (a + b).contains(z),
        b.contains(z) ==> (a + b).contains(z),
{
    if a.contains(z) {
        let k = choose|k: int| 0 <= k < a.len() && a[k] == z;
        assert((a + b)[k] == z);
    }
    if b.contains(z) {
        let k = choose|k: int| 0 <= k < b.len() && b[k] == z;
        assert((a + b)[a.len() + k] == z);
    }
}

/// The arms do not use the name bound to a non-variable scrutinee.
proof fn lemma_scrut_temp_fresh(arms: Seq<MatchArm>)
    ensures
        !fv_arms(arms).contains(scrut_temp(arms)),
{
    lemma_fresh_suffix(fv_arms(arms));
}

/// What the renaming of arm `i` relies on: the clashing bindings are bindings
/// that reach the arms and that another arm uses, each once, and the suffix is
/// longer than every name reaching the arm, every binding and every name free
/// in the body.
proof fn lemma_arm_facts(s: Seq<char>, arms: Seq<MatchArm>, i: int, o: Seq<Seq<char>>)
    requires
        0 <= i < arms.len(),
    ensures
        clashes(s, arms, i, o).no_duplicates(),
        forall|z: Seq<char>| #[trigger]
            arms_live(s, arms, o).contains(z) ==> z.len() < arm_suffix(s, arms, i, o).len(),
        forall|z: Seq<char>| #[trigger]
            pat_vars(arms[i].pat).contains(z) ==> z.len() < arm_suffix(s, arms, i, o).len(),
        forall|z: Seq<char>| #[trigger]
            fv(arms[i].body).contains(z) ==> z.len() < arm_suffix(s, arms, i, o).len(),
        forall|c: Seq<char>| #[trigger]
            clashes(s, arms, i, o).contains(c) ==> pat_vars(arms[i].pat).contains(c)
                && fv_arms(arms).contains(c) && arms_live(s, arms, o).contains(c) && c.len()
                < arm_suffix(s, arms, i, o).len(),
{
    let arm = arms[i];
    let live = arms_live(s, arms, o);
    let bs = pat_vars(arm.pat);
    let f = fv_arms(arms);
    let avoid = live + bs + fv(arm.body);
    lemma_fresh_suffix(avoid);
    lemma_pat_bindings_agree(arm.pat, s);
    lemma_intersect_no_dup(pat_var_set(arm.pat), intersect(f, live));
    assert forall|z: Seq<char>| #[trigger] live.contains(z) implies z.len() < arm_suffix(
        s,
        arms,
        i,
        o,
    ).len() by {
        lemma_concat_contains(live, bs, z);
        lemma_concat_contains(live + bs, fv(arm.body), z);
    }
    assert forall|z: Seq<char>| #[trigger] bs.contains(z) implies z.len() < arm_suffix(
        s,
        arms,
        i,
        o,
    ).len() by {
        lemma_concat_contains(live, bs, z);
        lemma_concat_contains(live + bs, fv(arm.body), z);
    }
    assert forall|z: Seq<char>| #[trigger] fv(arm.body).contains(z) implies z.len() < arm_suffix(
        s,
        arms,
        i,
        o,
    ).len() by {
        lemma_concat_contains(live + bs, fv(arm.body), z);
    }
    assert forall|c: Seq<char>| #[trigger] clashes(s, arms, i, o).contains(c) implies bs.contains(c)
        && f.contains(c) && live.contains(c) && c.len() < arm_suffix(s, arms, i, o).len() by {
        lemma_intersect_contains(pat_var_set(arm.pat), intersect(f, live), c);
        lemma_intersect_contains(f, live, c);
        lemma_pat_bindings_agree(arm.pat, c);
        lemma_concat_contains(live, bs, c);
        lemma_concat_contains(live + bs, fv(arm.body), c);
    }
}

/// No renamed binding is `x` when `x` is neither kept as a binding nor a renamed one.
proof fn lemma_renamed_not(bs: Seq<Seq<char>>, cs: Seq<Seq<char>>, sfx: Seq<char>, x: Seq<char>)
    requires
        bs.contains(x) ==> cs.contains(x),
        x.len() < sfx.len() || forall|c: Seq<char>| cs.contains(c) ==> x != c + sfx,
    ensures
        !bs.map_values(|b: Seq<char>| renamed(b, cs, sfx)).contains(x),
{
    let nb = bs.map_values(|b: Seq<char>| renamed(b, cs, sfx));
    if nb.contains(x) {
        let k = choose|k: int| 0 <= k < nb.len() && nb[k] == x;
        let b = bs[k];
        assert(bs.contains(b));
        if cs.contains(b) {
            assert(x == b + sfx);
            assert(x.len() >= sfx.len());
        }
    }
}

/// A renamed binding bound again is not released under its own name.
proof fn lemma_rebind_net_bound(cs: Seq<Seq<char>>, sfx: Seq<char>, t: Term, x: Seq<char>)
    requires
        cs.contains(x),
        x.len() < sfx.len(),
    ensures
        net(rebind(cs, sfx, t), x) == Some(0int),
    decreases cs.len(),
{
    let init = cs.drop_last();
    let c = cs.last();
    assert(rebind(cs, sfx, t) == Term::Let {
        name: c,
        value: Box::new(Term::Var(c + sfx)),
        body: Box::new(rebind(init, sfx, t)),
    });
    assert((c + sfx).len() == c.len() + sfx.len());
    assert(c + sfx != x);
    if c == x {
        assert(net(rebind(cs, sfx, t), x) == net(Term::Var(c + sfx), x));
        assert(net(Term::Var(c + sfx), x) == Some(0int));
    }
    if c != x {
        let k = choose|k: int| 0 <= k < cs.len() && cs[k] == x;
        assert(init[k] == x);
        lemma_rebind_net_bound(init, sfx, t, x);
    }
}

/// Names that are neither rebound nor renamed are released as in `t`.
proof fn lemma_rebind_net_other(cs: Seq<Seq<char>>, sfx: Seq<char>, t: Term, x: Seq<char>)
    requires
        !cs.contains(x),
        forall|c: Seq<char>| cs.contains(c) ==> x != c + sfx,
    ensures
        net(rebind(cs, sfx, t), x) == net(t, x),
    decreases cs.len(),
{
    if cs.len() > 0 {
        let init = cs.drop_last();
        assert(rebind(cs, sfx, t) == Term::Let {
            name: cs.last(),
            value: Box::new(Term::Var(cs.last() + sfx)),
            body: Box::new(rebind(init, sfx, t)),
        });
        assert(cs.contains(cs.last())) by {
            assert(cs[cs.len() - 1] == cs.last());
        }
        assert forall|c: Seq<char>| init.contains(c) implies x != c + sfx by {
            let k = choose|k: int| 0 <= k < init.len() && init[k] == c;
            assert(cs[k] == c);
        }
        assert(!init.contains(x)) by {
            if init.contains(x) {
                let k = choose|k: int| 0 <= k < init.len() && init[k] == x;
                assert(cs[k] == x);
            }
        }
        lemma_rebind_net_other(init, sfx, t, x);
        assert(net(Term::Var(cs.last() + sfx), x) == Some(0int));
        assert(net(rebind(cs, sfx, t), x) == plus(Some(0int), net(rebind(init, sfx, t), x)));
        assert(plus(Some(0int), net(t, x)) == net(t, x));
    }
}

/// A renamed binding is released once by its `let` and otherwise as in `t`.
proof fn lemma_rebind_net_renamed(cs: Seq<Seq<char>>, sfx: Seq<char>, t: Term, c: Seq<char>)
    requires
        cs.contains(c),
        cs.no_duplicates(),
        forall|z: Seq<char>| #[trigger] cs.contains(z) ==> z.len() < sfx.len(),
    ensures
        net(rebind(cs, sfx, t), c + sfx) == plus(Some(1int), net(t, c + sfx)),
    decreases cs.len(),
{
    let init = cs.drop_last();
    let x = c + sfx;
    assert(rebind(cs, sfx, t) == Term::Let {
        name: cs.last(),
        value: Box::new(Term::Var(cs.last() + sfx)),
        body: Box::new(rebind(init, sfx, t)),
    });
    assert(cs.contains(cs.last())) by {
        assert(cs[cs.len() - 1] == cs.last());
    }
    assert(!cs.contains(x)) by {
        if cs.contains(x) {
            assert(x.len() < sfx.len());
        }
    }
    assert(!init.contains(x)) by {
        if init.contains(x) {
            let k = choose|k: int| 0 <= k < init.len() && init[k] == x;
            assert(cs[k] == x);
        }
    }
    if cs.last() == c {
        assert forall|d: Seq<char>| init.contains(d) implies x != d + sfx by {
            let k = choose|k: int| 0 <= k < init.len() && init[k] == d;
            assert(cs[k] == d);
            if x == d + sfx {
                assert(cs.contains(d));
                assert(d.len() == c.len());
                assert(c =~= (c + sfx).subrange(0, c.len() as int));
                assert(d =~= (d + sfx).subrange(0, d.len() as int));
                assert(cs[k] == cs[cs.len() - 1]);
                assert(k != cs.len() - 1);
            }
        }
        lemma_rebind_net_other(init, sfx, t, x);
        assert(net(Term::Var(cs.last() + sfx), x) == Some(1int));
        assert(net(rebind(cs, sfx, t), x) == plus(Some(1int), net(rebind(init, sfx, t), x)));
    } else {
        let k = choose|k: int| 0 <= k < cs.len() && cs[k] == c;
        assert(init[k] == c);
        assert(init.no_duplicates());
        assert forall|z: Seq<char>| #[trigger] init.contains(z) implies z.len() < sfx.len() by {
            let j = choose|j: int| 0 <= j < init.len() && init[j] == z;
            assert(cs[j] == z);
            assert(cs.contains(z));
        }
        assert(cs.last() + sfx != x) by {
            if cs.last() + sfx == x {
                assert((cs.last() + sfx).len() == cs.last().len() + sfx.len());
                assert(cs.last().len() == c.len());
                assert(c =~= (c + sfx).subrange(0, c.len() as int));
                assert(cs.last() =~= (cs.last() + sfx).subrange(0, cs.last().len() as int));
            }
        }
        lemma_rebind_net_renamed(init, sfx, t, c);
        assert(cs.last() != x);
        assert(net(Term::Var(cs.last() + sfx), x) == Some(0int));
        assert(net(rebind(cs, sfx, t), x) == plus(Some(0int), net(rebind(init, sfx, t), x)));
    }
}

/// Rebinding keeps balance: each rebound name is released once by `t`.
proof fn lemma_rebind_balanced(cs: Seq<Seq<char>>, sfx: Seq<char>, t: Term)
    requires
        balanced(t),
        cs.no_duplicates(),
        forall|z: Seq<char>| #[trigger] cs.contains(z) ==> z.len() < sfx.len(),
        forall|c: Seq<char>| #[trigger] cs.contains(c) ==> net(t, c) == Some(1int),
    ensures
        balanced(rebind(cs, sfx, t)),
    decreases cs.len(),
{
    if cs.len() > 0 {
        let init = cs.drop_last();
        let c = cs.last();
        assert(cs.contains(c)) by {
            assert(cs[cs.len() - 1] == c);
        }
        assert(init.no_duplicates());
        assert forall|z: Seq<char>| #[trigger] init.contains(z) implies z.len() < sfx.len()
            && net(t, z) == Some(1int) by {
            let j = choose|j: int| 0 <= j < init.len() && init[j] == z;
            assert(cs[j] == z);
            assert(cs.contains(z));
        }
        assert(rebind(cs, sfx, t) == Term::Let {
            name: c,
            value: Box::new(Term::Var(c + sfx)),
            body: Box::new(rebind(init, sfx, t)),
        });
        lemma_rebind_balanced(init, sfx, t);
        assert(!init.contains(c)) by {
            if init.contains(c) {
                let j = choose|j: int| 0 <= j < init.len() && init[j] == c;
                assert(cs[j] == cs[cs.len() - 1]);
            }
        }
        assert forall|d: Seq<char>| init.contains(d) implies c != d + sfx by {
            let j = choose|j: int| 0 <= j < init.len() && init[j] == d;
            assert(cs[j] == d);
            assert(cs.contains(d));
        }
        lemma_rebind_net_other(init, sfx, t, c);
        assert(net(t, c) == Some(1int));
        assert(balanced(Term::Var(c + sfx)));
    }
}

// ── What the transform releases ─────────────────────────────────────────────

proof fn lemma_union_single(a: Seq<Seq<char>>, n: Seq<char>, z: Seq<char>)
    ensures
        union(a, seq![n]).contains(z) <==> (a.contains(z) || z == n),
{
    lemma_union_contains(a, seq![n], z);
    if z == n {
        assert(seq![n][0] == z);
    }
}

/// The transform of `e` releases each owned name once if `e` uses it and not
/// at all otherwise, and releases nothing of a name that is neither owned nor
/// free in `e`.
pub proof fn lemma_transform_releases_owned(e: Expr, o: Seq<Seq<char>>, x: Seq<char>)
    requires
        o.contains(x) || !fv(e).contains(x),
    ensures
        net(xf(e, o), x) == Some(ind(fv(e).contains(x))),
    decreases e, 2nat,
{
    match e {
        Expr::Lit(_) => {
            assert(fv(e).len() == 0);
        },
        Expr::Var(y) => {
            assert(seq![y@][0] == y@);
        },
        Expr::Let { .. } => lemma_net_let(e, o, x),
        Expr::Lam { .. } => lemma_net_lam(e, o, x),
        Expr::App(..) => lemma_net_app(e, o, x),
        Expr::If { .. } => lemma_net_if(e, o, x),
        Expr::Match { .. } => lemma_net_match_expr(e, o, x),
        Expr::Con { tag, fields } => {
            lemma_net_con(tag@, fields@, o, None, x);
        },
        Expr::Foreign { name, args } => {
            lemma_net_args(args@, o, x);
            lemma_net_wrap(
                arg_dups(args@, o),
                Term::Foreign { name: name@, args: xf_list(args@, o) },
                true,
                x,
            );
        },
    }
}

proof fn lemma_net_let(e: Expr, o: Seq<Seq<char>>, x: Seq<char>)
    requires
        e is Let,
        o.contains(x) || !fv(e).contains(x),
    ensures
        net(xf(e, o), x) == Some(ind(fv(e).contains(x))),
    decreases e, 1nat,
{
    if let Expr::Let { name, value, body } = e {
        let n = name@;
        let o2 = union(o, seq![n]);
        let rem = remove(fv(*body), n);
        lemma_union_contains(fv(*value), rem, x);
        lemma_remove_contains(fv(*body), n, x);
        lemma_union_single(o, n, x);
        let rb = xf(*body, o2);
        let bb = if uc(n, *body) == 0 {
            Term::Drop { var: n, body: Box::new(rb) }
        } else {
            rb
        };
        let l = Term::Let { name: n, value: Box::new(xf(*value, o)), body: Box::new(bb) };
        let d = intersect(intersect(fv(*value), rem), o);
        lemma_net_wrap(d, l, true, x);
        lemma_fv_no_dup(*value);
        lemma_intersect_no_dup(fv(*value), rem);
        lemma_intersect_no_dup(intersect(fv(*value), rem), o);
        lemma_occ(d, x);
        lemma_intersect_contains(intersect(fv(*value), rem), o, x);
        lemma_intersect_contains(fv(*value), rem, x);
        assert(xf(e, o) == wrap(d, l, true));
        lemma_transform_releases_owned(*value, o, x);
        if n != x {
            lemma_transform_releases_owned(*body, o2, x);
            assert(net(bb, x) == net(rb, x));
        }
    }
}

proof fn lemma_net_lam(e: Expr, o: Seq<Seq<char>>, x: Seq<char>)
    requires
        e is Lam,
        o.contains(x) || !fv(e).contains(x),
    ensures
        net(xf(e, o), x) == Some(ind(fv(e).contains(x))),
    decreases e, 1nat,
{
    if let Expr::Lam { param, body } = e {
        let p = param@;
        lemma_intersect_contains(remove(fv(*body), p), o, x);
        lemma_remove_contains(fv(*body), p, x);
    }
}

proof fn lemma_net_app(e: Expr, o: Seq<Seq<char>>, x: Seq<char>)
    requires
        e is App,
        o.contains(x) || !fv(e).contains(x),
    ensures
        net(xf(e, o), x) == Some(ind(fv(e).contains(x))),
    decreases e, 1nat,
{
    if let Expr::App(f, a) = e {
        lemma_union_contains(fv(*f), fv(*a), x);
        let d = intersect(intersect(fv(*f), fv(*a)), o);
        lemma_net_wrap(d, Term::App(Box::new(xf(*f, o)), Box::new(xf(*a, o))), true, x);
        lemma_fv_no_dup(*f);
        lemma_intersect_no_dup(fv(*f), fv(*a));
        lemma_intersect_no_dup(intersect(fv(*f), fv(*a)), o);
        lemma_occ(d, x);
        lemma_intersect_contains(intersect(fv(*f), fv(*a)), o, x);
        lemma_intersect_contains(fv(*f), fv(*a), x);
        lemma_transform_releases_owned(*f, o, x);
        lemma_transform_releases_owned(*a, o, x);
    }
}

proof fn lemma_net_if(e: Expr, o: Seq<Seq<char>>, x: Seq<char>)
    requires
        e is If,
        o.contains(x) || !fv(e).contains(x),
    ensures
        net(xf(e, o), x) == Some(ind(fv(e).contains(x))),
    decreases e, 1nat,
{
    if let Expr::If { cond, then_, else_ } = e {
        lemma_net_if_parts(e, *cond, *then_, *else_, o, x);
    }
}

proof fn lemma_net_if_parts(
    e: Expr,
    cond: Expr,
    then_: Expr,
    else_: Expr,
    o: Seq<Seq<char>>,
    x: Seq<char>,
)
    requires
        e == (Expr::If { cond: Box::new(cond), then_: Box::new(then_), else_: Box::new(else_) }),
        o.contains(x) || !fv(e).contains(x),
    ensures
        net(xf(e, o), x) == Some(ind(fv(e).contains(x))),
    decreases e, 0nat,
{
    let fc = fv(cond);
    let ft = fv(then_);
    let fe = fv(else_);
    let fb = union(ft, fe);
    let bo = remove_all(o, remove_all(fc, fb));
    let dt = intersect(remove_all(fe, ft), bo);
    let de = intersect(remove_all(ft, fe), bo);
    let d = intersect(intersect(fc, fb), o);
    lemma_union_contains(fc, ft, x);
    lemma_union_contains(union(fc, ft), fe, x);
    lemma_union_contains(ft, fe, x);
    assert forall|z: Seq<char>| #[trigger] bo.contains(z) implies o.contains(z) by {
        lemma_remove_all_contains(o, remove_all(fc, fb), z);
    }
    lemma_remove_all_contains(o, remove_all(fc, fb), x);
    lemma_remove_all_contains(fc, fb, x);
    let tt = wrap(dt, xf(then_, bo), false);
    let te = wrap(de, xf(else_, bo), false);
    let ti = Term::If { cond: Box::new(xf(cond, o)), then_: Box::new(tt), else_: Box::new(te) };
    assert(xf(e, o) == wrap(d, ti, true));
    lemma_net_wrap(d, ti, true, x);
    lemma_net_wrap(dt, xf(then_, bo), false, x);
    lemma_net_wrap(de, xf(else_, bo), false, x);
    lemma_fv_no_dup(cond);
    lemma_fv_no_dup(then_);
    lemma_fv_no_dup(else_);
    lemma_intersect_no_dup(fc, fb);
    lemma_intersect_no_dup(intersect(fc, fb), o);
    lemma_remove_all_no_dup(fe, ft);
    lemma_remove_all_no_dup(ft, fe);
    lemma_intersect_no_dup(remove_all(fe, ft), bo);
    lemma_intersect_no_dup(remove_all(ft, fe), bo);
    lemma_occ(d, x);
    lemma_occ(dt, x);
    lemma_occ(de, x);
    lemma_intersect_contains(intersect(fc, fb), o, x);
    lemma_intersect_contains(fc, fb, x);
    lemma_intersect_contains(remove_all(fe, ft), bo, x);
    lemma_intersect_contains(remove_all(ft, fe), bo, x);
    lemma_remove_all_contains(fe, ft, x);
    lemma_remove_all_contains(ft, fe, x);
    lemma_transform_releases_owned(cond, o, x);
    lemma_transform_releases_owned(then_, bo, x);
    lemma_transform_releases_owned(else_, bo, x);
}

/// The arguments of a constructor or foreign call release an owned name once
/// per argument that uses it, and the Dups in front of them take back all but one.
proof fn lemma_net_args(es: Seq<Expr>, o: Seq<Seq<char>>, x: Seq<char>)
    requires
        o.contains(x) || !fv_list(es).contains(x),
    ensures
        net_list(xf_list(es, o), x) == Some(
            if o.contains(x) {
                arg_count(x, es) as int
            } else {
                0
            },
        ),
        plus(net_list(xf_list(es, o), x), Some(-occ(arg_dups(es, o), x))) == Some(
            ind(fv_list(es).contains(x)),
        ),
    decreases es, 1nat,
{
    lemma_net_list(es, o, x);
    let vs = intersect(fv_list(es), o);
    lemma_fv_list_no_dup(es);
    lemma_intersect_no_dup(fv_list(es), o);
    lemma_occ_extra_uses(vs, es, x);
    lemma_intersect_contains(fv_list(es), o, x);
    lemma_arg_count(x, es);
}

proof fn lemma_net_list(es: Seq<Expr>, o: Seq<Seq<char>>, x: Seq<char>)
    requires
        o.contains(x) || !fv_list(es).contains(x),
    ensures
        net_list(xf_list(es, o), x) == Some(
            if o.contains(x) {
                arg_count(x, es) as int
            } else {
                0
            },
        ),
    decreases es, 0nat,
{
    if es.len() > 0 {
        let init = es.drop_last();
        assert(xf_list(es, o).drop_last() =~= xf_list(init, o));
        assert(xf_list(es, o).last() == xf(es.last(), o));
        lemma_union_contains(fv_list(init), fv(es.last()), x);
        lemma_net_list(init, o, x);
        lemma_transform_releases_owned(es.last(), o, x);
    } else {
        assert(xf_list(es, o).len() == 0);
    }
}

proof fn lemma_net_con(
    tag: Seq<char>,
    fields: Seq<Expr>,
    o: Seq<Seq<char>>,
    reuse: Option<Seq<char>>,
    x: Seq<char>,
)
    requires
        o.contains(x) || !fv_list(fields).contains(x),
    ensures
        net(con_term(tag, fields, o, reuse), x) == Some(ind(fv_list(fields).contains(x))),
    decreases fields, 2nat,
{
    lemma_net_args(fields, o, x);
    lemma_net_wrap(
        arg_dups(fields, o),
        Term::Con { tag, fields: xf_list(fields, o), reuse },
        true,
        x,
    );
}

proof fn lemma_net_with_reuse(
    e: Expr,
    o: Seq<Seq<char>>,
    tok: Option<Seq<char>>,
    x: Seq<char>,
)
    requires
        o.contains(x) || !fv(e).contains(x),
    ensures
        net(xf_with_reuse(e, o, tok), x) == Some(ind(fv(e).contains(x))),
    decreases e, 3nat,
{
    match e {
        Expr::Con { tag, fields } => lemma_net_con(tag@, fields@, o, tok, x),
        _ => lemma_transform_releases_owned(e, o, x),
    }
}

proof fn lemma_net_match_expr(e: Expr, o: Seq<Seq<char>>, x: Seq<char>)
    requires
        e is Match,
        o.contains(x) || !fv(e).contains(x),
    ensures
        net(xf(e, o), x) == Some(ind(fv(e).contains(x))),
    decreases e, 1nat,
{
    if let Expr::Match { scrutinee, arms } = e {
        let f = fv_arms(arms@);
        lemma_union_contains(fv(*scrutinee), f, x);
        match *scrutinee {
            Expr::Var(y) => {
                assert(seq![y@][0] == y@);
                lemma_net_match(y@, arms@, o, x);
            },
            _ => {
                let sn = scrut_temp(arms@);
                lemma_scrut_temp_fresh(arms@);
                let o2 = union(o, seq![sn]);
                let m = xf_match(sn, arms@, o2);
                let l = Term::Let { name: sn, value: Box::new(xf(*scrutinee, o)), body: Box::new(m) };
                let d = intersect(intersect(fv(*scrutinee), f), o);
                assert(xf(e, o) == wrap(d, l, true));
                lemma_net_wrap(d, l, true, x);
                lemma_fv_no_dup(*scrutinee);
                lemma_intersect_no_dup(fv(*scrutinee), f);
                lemma_intersect_no_dup(intersect(fv(*scrutinee), f), o);
                lemma_occ(d, x);
                lemma_intersect_contains(intersect(fv(*scrutinee), f), o, x);
                lemma_intersect_contains(fv(*scrutinee), f, x);
                lemma_transform_releases_owned(*scrutinee, o, x);
                if x != sn {
                    lemma_union_single(o, sn, x);
                    lemma_net_match(sn, arms@, o2, x);
                }
            },
        }
    }
}

/// A match on the variable `s` releases each owned name once if the
/// scrutinee or an arm uses it, and nothing of a name neither owned nor used.
proof fn lemma_net_match(
    s: Seq<char>,
    arms: Seq<MatchArm>,
    o: Seq<Seq<char>>,
    x: Seq<char>,
)
    requires
        o.contains(x) || !(x == s || fv_arms(arms).contains(x)),
    ensures
        net(xf_match(s, arms, o), x) == Some(ind(x == s || fv_arms(arms).contains(x))),
    decreases arms, 3nat,
{
    let f = fv_arms(arms);
    let kept = scrut_kept(s, arms, o);
    let live = arms_live(s, arms, o);
    let xs = xf_arms(s, arms, o);
    let v = ind(f.contains(x) && live.contains(x));
    assert forall|i: int| #![trigger xs[i]] 0 <= i < xs.len() implies (if xs[i].bindings.contains(x) {
        Some(0int)
    } else {
        net(xs[i].body, x)
    }) == Some(v) by {
        lemma_net_arm(s, arms, i, o, x);
    }
    if arms.len() == 0 {
        assert(f.len() == 0);
    }
    lemma_net_arms_const(xs, x, v);
    let ks: Seq<Seq<char>> = if kept {
        seq![s]
    } else {
        Seq::empty()
    };
    assert(ks.no_duplicates());
    assert(ks.contains(x) <==> (kept && x == s)) by {
        if kept {
            assert(ks[0] == s);
        }
    }
    lemma_occ(ks, x);
    lemma_net_wrap(ks, Term::Match { scrutinee: s, arms: xs }, true, x);
    lemma_remove_contains(o, s, x);
}

/// The term of arm `i` inside its drops and rebinding `let`s.
#[verifier::opaque]
pub open spec fn arm_inner(s: Seq<char>, arms: Seq<MatchArm>, i: int, o: Seq<Seq<char>>) -> Term {
    wrap(
        unused_bindings(arms[i]),
        xf_with_reuse(
            arms[i].body,
            union(arms_live(s, arms, o), pat_vars(arms[i].pat)),
            reuse_token_spec(s, arms[i].pat),
        ),
        false,
    )
}

/// The renamed bindings of arm `i`.
pub open spec fn arm_bindings(s: Seq<char>, arms: Seq<MatchArm>, i: int, o: Seq<Seq<char>>) -> Seq<
    Seq<char>,
> {
    pat_vars(arms[i].pat).map_values(
        |b: Seq<char>| renamed(b, clashes(s, arms, i, o), arm_suffix(s, arms, i, o)),
    )
}

proof fn lemma_arm_shape(s: Seq<char>, arms: Seq<MatchArm>, i: int, o: Seq<Seq<char>>)
    requires
        0 <= i < arms.len(),
    ensures
        xf_arm(s, arms, i, o).bindings == arm_bindings(s, arms, i, o),
        xf_arm(s, arms, i, o).body == wrap(
            arm_drops(s, arms, i, o),
            rebind(clashes(s, arms, i, o), arm_suffix(s, arms, i, o), arm_inner(s, arms, i, o)),
            false,
        ),
{
    reveal(arm_inner);
}

/// What the arm's inner term releases of a name that is not a binding of the
/// arm, and of each binding.
proof fn lemma_arm_inner_net(
    s: Seq<char>,
    arms: Seq<MatchArm>,
    i: int,
    o: Seq<Seq<char>>,
    x: Seq<char>,
)
    requires
        0 <= i < arms.len(),
        arms_live(s, arms, o).contains(x) || pat_vars(arms[i].pat).contains(x) || !fv(
            arms[i].body,
        ).contains(x),
    ensures
        pat_vars(arms[i].pat).contains(x) ==> net(arm_inner(s, arms, i, o), x) == Some(1int),
        !pat_vars(arms[i].pat).contains(x) ==> net(arm_inner(s, arms, i, o), x) == Some(
            ind(fv_arm(arms[i]).contains(x)),
        ),
    decreases arms, 0nat,
{
    let arm = arms[i];
    let bs = pat_vars(arm.pat);
    let live = arms_live(s, arms, o);
    let tok = reuse_token_spec(s, arm.pat);
    let ao = union(live, bs);
    let xw = xf_with_reuse(arm.body, ao, tok);
    let ub = unused_bindings(arm);
    assert(arms[i] == arm);
    reveal(arm_inner);
    lemma_net_wrap(ub, xw, false, x);
    lemma_pat_bindings_agree(arm.pat, x);
    lemma_remove_all_no_dup(pat_var_set(arm.pat), fv(arm.body));
    lemma_remove_all_contains(pat_var_set(arm.pat), fv(arm.body), x);
    lemma_remove_all_contains(fv(arm.body), pat_var_set(arm.pat), x);
    lemma_occ(ub, x);
    lemma_union_contains(live, bs, x);
    lemma_net_with_reuse(arm.body, ao, tok, x);
}

/// Each arm of a match on `s` releases an outer name exactly when some arm
/// uses it and it reaches the arms.
proof fn lemma_net_arm(
    s: Seq<char>,
    arms: Seq<MatchArm>,
    i: int,
    o: Seq<Seq<char>>,
    x: Seq<char>,
)
    requires
        0 <= i < arms.len(),
        o.contains(x) || !(x == s || fv_arms(arms).contains(x)),
    ensures
        (if xf_arm(s, arms, i, o).bindings.contains(x) {
            Some(0int)
        } else {
            net(xf_arm(s, arms, i, o).body, x)
        }) == Some(ind(fv_arms(arms).contains(x) && arms_live(s, arms, o).contains(x))),
    decreases arms, 2nat,
{
    let bs = pat_vars(arms[i].pat);
    let cs = clashes(s, arms, i, o);
    let sfx = arm_suffix(s, arms, i, o);
    lemma_arm_shape(s, arms, i, o);
    lemma_arm_facts(s, arms, i, o);
    if bs.contains(x) {
        lemma_net_arm_binding(s, arms, i, o, x);
    } else if exists|c: Seq<char>| cs.contains(c) && x == c + sfx {
        let c = choose|c: Seq<char>| cs.contains(c) && x == c + sfx;
        let k = choose|k: int| 0 <= k < bs.len() && bs[k] == c;
        assert(arm_bindings(s, arms, i, o)[k] == x);
        assert(!arms_live(s, arms, o).contains(x));
    } else {
        lemma_net_arm_outer(s, arms, i, o, x);
    }
}

/// `lemma_net_arm` for a name that the arm's pattern binds.
proof fn lemma_net_arm_binding(
    s: Seq<char>,
    arms: Seq<MatchArm>,
    i: int,
    o: Seq<Seq<char>>,
    x: Seq<char>,
)
    requires
        0 <= i < arms.len(),
        pat_vars(arms[i].pat).contains(x),
    ensures
        (if arm_bindings(s, arms, i, o).contains(x) {
            Some(0int)
        } else {
            net(
                wrap(
                    arm_drops(s, arms, i, o),
                    rebind(clashes(s, arms, i, o), arm_suffix(s, arms, i, o), arm_inner(s, arms, i, o)),
                    false,
                ),
                x,
            )
        }) == Some(ind(fv_arms(arms).contains(x) && arms_live(s, arms, o).contains(x))),
{
    let arm = arms[i];
    let bs = pat_vars(arm.pat);
    let f = fv_arms(arms);
    let live = arms_live(s, arms, o);
    let cs = clashes(s, arms, i, o);
    let sfx = arm_suffix(s, arms, i, o);
    let drops = arm_drops(s, arms, i, o);
    let inner = arm_inner(s, arms, i, o);
    let nb = arm_bindings(s, arms, i, o);
    assert(arms[i] == arm);
    lemma_arm_facts(s, arms, i, o);
    lemma_pat_bindings_agree(arm.pat, x);
    lemma_intersect_contains(f, live, x);
    lemma_intersect_contains(pat_var_set(arm.pat), intersect(f, live), x);
    if !cs.contains(x) {
        let k = choose|k: int| 0 <= k < bs.len() && bs[k] == x;
        assert(nb[k] == x);
    } else {
        lemma_remove_all_contains(intersect(f, live), fv_arm(arm), x);
        lemma_remove_all_contains(fv(arm.body), pat_var_set(arm.pat), x);
        lemma_fv_arms_no_dup(arms);
        lemma_intersect_no_dup(f, live);
        lemma_remove_all_no_dup(intersect(f, live), fv_arm(arm));
        lemma_occ(drops, x);
        lemma_net_wrap(drops, rebind(cs, sfx, inner), false, x);
        lemma_renamed_not(bs, cs, sfx, x);
        lemma_rebind_net_bound(cs, sfx, inner, x);
    }
}

/// `lemma_net_arm` for a name that is neither bound nor introduced by the arm.
proof fn lemma_net_arm_outer(
    s: Seq<char>,
    arms: Seq<MatchArm>,
    i: int,
    o: Seq<Seq<char>>,
    x: Seq<char>,
)
    requires
        0 <= i < arms.len(),
        o.contains(x) || !(x == s || fv_arms(arms).contains(x)),
        !pat_vars(arms[i].pat).contains(x),
        forall|c: Seq<char>|
            clashes(s, arms, i, o).contains(c) ==> x != c + arm_suffix(s, arms, i, o),
    ensures
        !arm_bindings(s, arms, i, o).contains(x),
        net(
            wrap(
                arm_drops(s, arms, i, o),
                rebind(clashes(s, arms, i, o), arm_suffix(s, arms, i, o), arm_inner(s, arms, i, o)),
                false,
            ),
            x,
        ) == Some(ind(fv_arms(arms).contains(x) && arms_live(s, arms, o).contains(x))),
    decreases arms, 1nat,
{
    let arm = arms[i];
    let bs = pat_vars(arm.pat);
    let f = fv_arms(arms);
    let live = arms_live(s, arms, o);
    let cs = clashes(s, arms, i, o);
    let sfx = arm_suffix(s, arms, i, o);
    let drops = arm_drops(s, arms, i, o);
    let inner = arm_inner(s, arms, i, o);
    assert(arms[i] == arm);
    lemma_intersect_contains(pat_var_set(arm.pat), intersect(f, live), x);
    lemma_remove_contains(o, s, x);
    lemma_pat_bindings_agree(arm.pat, x);
    lemma_intersect_contains(f, live, x);
    lemma_remove_all_contains(intersect(f, live), fv_arm(arm), x);
    lemma_remove_all_contains(fv(arm.body), pat_var_set(arm.pat), x);
    lemma_fv_arms_no_dup(arms);
    lemma_intersect_no_dup(f, live);
    lemma_remove_all_no_dup(intersect(f, live), fv_arm(arm));
    lemma_occ(drops, x);
    lemma_net_wrap(drops, rebind(cs, sfx, inner), false, x);
    assert(!cs.contains(x));
    lemma_renamed_not(bs, cs, sfx, x);
    lemma_rebind_net_other(cs, sfx, inner, x);
    if fv_arm(arm).contains(x) {
        lemma_fv_arms_elem(arms, i, x);
    }
    lemma_arm_inner_net(s, arms, i, o, x);
}

// ── Balance of every binder ─────────────────────────────────────────────────

/// Every binder in the transform of `e` is released exactly once on every path.
proof fn lemma_bal_xf(e: Expr, o: Seq<Seq<char>>)
    ensures
        balanced(xf(e, o)),
    decreases e, 2nat,
{
    match e {
        Expr::Let { .. } => lemma_bal_let(e, o),
        Expr::Lam { .. } => lemma_bal_lam(e, o),
        Expr::App(f, a) => {
            lemma_bal_xf(*f, o);
            lemma_bal_xf(*a, o);
            lemma_balanced_wrap(
                intersect(intersect(fv(*f), fv(*a)), o),
                Term::App(Box::new(xf(*f, o)), Box::new(xf(*a, o))),
                true,
            );
        },
        Expr::If { .. } => lemma_bal_if(e, o),
        Expr::Match { .. } => lemma_bal_match_expr(e, o),
        Expr::Con { tag, fields } => lemma_bal_con(tag@, fields@, o, None),
        Expr::Foreign { name, args } => {
            lemma_bal_list(args@, o);
            lemma_balanced_wrap(
                arg_dups(args@, o),
                Term::Foreign { name: name@, args: xf_list(args@, o) },
                true,
            );
        },
        _ => {},
    }
}

proof fn lemma_bal_let(e: Expr, o: Seq<Seq<char>>)
    requires
        e is Let,
    ensures
        balanced(xf(e, o)),
    decreases e, 1nat,
{
    if let Expr::Let { name, value, body } = e {
        let n = name@;
        let o2 = union(o, seq![n]);
        let rem = remove(fv(*body), n);
        lemma_union_single(o, n, n);
        let rb = xf(*body, o2);
        let bb = if uc(n, *body) == 0 {
            Term::Drop { var: n, body: Box::new(rb) }
        } else {
            rb
        };
        let l = Term::Let { name: n, value: Box::new(xf(*value, o)), body: Box::new(bb) };
        let d = intersect(intersect(fv(*value), rem), o);
        assert(xf(e, o) == wrap(d, l, true));
        lemma_balanced_wrap(d, l, true);
        lemma_bal_xf(*value, o);
        lemma_bal_xf(*body, o2);
        lemma_transform_releases_owned(*body, o2, n);
        lemma_free_iff_used(n, *body);
        assert(balanced(bb));
        assert(net(bb, n) == Some(1int));
        assert(balanced(l));
    }
}

proof fn lemma_bal_lam(e: Expr, o: Seq<Seq<char>>)
    requires
        e is Lam,
    ensures
        balanced(xf(e, o)),
    decreases e, 1nat,
{
    if let Expr::Lam { param, body } = e {
        let p = param@;
        let caps = intersect(remove(fv(*body), p), o);
        let o2 = union(caps, seq![p]);
        lemma_union_single(caps, p, p);
        let rb = xf(*body, o2);
        let bb = if uc(p, *body) == 0 {
            Term::Drop { var: p, body: Box::new(rb) }
        } else {
            rb
        };
        lemma_bal_xf(*body, o2);
        lemma_transform_releases_owned(*body, o2, p);
        lemma_free_iff_used(p, *body);
        assert(xf(e, o) == Term::Lam { param: p, captures: caps, body: Box::new(bb) });
        assert(balanced(bb));
        assert(net(bb, p) == Some(1int));
        assert forall|c: Seq<char>| #[trigger] caps.contains(c) implies net(bb, c) == Some(1int) by {
            lemma_intersect_contains(remove(fv(*body), p), o, c);
            lemma_remove_contains(fv(*body), p, c);
            lemma_union_single(caps, p, c);
            lemma_transform_releases_owned(*body, o2, c);
        }
    }
}

proof fn lemma_bal_if(e: Expr, o: Seq<Seq<char>>)
    requires
        e is If,
    ensures
        balanced(xf(e, o)),
    decreases e, 1nat,
{
    if let Expr::If { cond, then_, else_ } = e {
        let fc = fv(*cond);
        let ft = fv(*then_);
        let fe = fv(*else_);
        let fb = union(ft, fe);
        let bo = remove_all(o, remove_all(fc, fb));
        assert forall|z: Seq<char>| #[trigger] bo.contains(z) implies o.contains(z) by {
            lemma_remove_all_contains(o, remove_all(fc, fb), z);
        }
        lemma_bal_xf(*cond, o);
        lemma_bal_xf(*then_, bo);
        lemma_bal_xf(*else_, bo);
        let dt = intersect(remove_all(fe, ft), bo);
        let de = intersect(remove_all(ft, fe), bo);
        lemma_balanced_wrap(dt, xf(*then_, bo), false);
        lemma_balanced_wrap(de, xf(*else_, bo), false);
        let ti = Term::If {
            cond: Box::new(xf(*cond, o)),
            then_: Box::new(wrap(dt, xf(*then_, bo), false)),
            else_: Box::new(wrap(de, xf(*else_, bo), false)),
        };
        lemma_balanced_wrap(intersect(intersect(fc, fb), o), ti, true);
    }
}

proof fn lemma_bal_list(es: Seq<Expr>, o: Seq<Seq<char>>)
    ensures
        forall|i: int| 0 <= i < es.len() ==> balanced(#[trigger] xf_list(es, o)[i]),
    decreases es, 0nat,
{
    assert forall|i: int| 0 <= i < es.len() implies balanced(#[trigger] xf_list(es, o)[i]) by {
        lemma_bal_xf(es[i], o);
    }
}

proof fn lemma_bal_con(
    tag: Seq<char>,
    fields: Seq<Expr>,
    o: Seq<Seq<char>>,
    reuse: Option<Seq<char>>,
)
    ensures
        balanced(con_term(tag, fields, o, reuse)),
    decreases fields, 1nat,
{
    lemma_bal_list(fields, o);
    lemma_balanced_wrap(
        arg_dups(fields, o),
        Term::Con { tag, fields: xf_list(fields, o), reuse },
        true,
    );
}

proof fn lemma_bal_with_reuse(e: Expr, o: Seq<Seq<char>>, tok: Option<Seq<char>>)
    ensures
        balanced(xf_with_reuse(e, o, tok)),
    decreases e, 3nat,
{
    match e {
        Expr::Con { tag, fields } => lemma_bal_con(tag@, fields@, o, tok),
        _ => lemma_bal_xf(e, o),
    }
}

proof fn lemma_bal_match_expr(e: Expr, o: Seq<Seq<char>>)
    requires
        e is Match,
    ensures
        balanced(xf(e, o)),
    decreases e, 1nat,
{
    if let Expr::Match { scrutinee, arms } = e {
        let f = fv_arms(arms@);
        match *scrutinee {
            Expr::Var(y) => {
                lemma_bal_match(y@, arms@, o);
            },
            _ => {
                let sn = scrut_temp(arms@);
                lemma_scrut_temp_fresh(arms@);
                let o2 = union(o, seq![sn]);
                let m = xf_match(sn, arms@, o2);
                let l = Term::Let { name: sn, value: Box::new(xf(*scrutinee, o)), body: Box::new(m) };
                let d = intersect(intersect(fv(*scrutinee), f), o);
                assert(xf(e, o) == wrap(d, l, true));
                lemma_balanced_wrap(d, l, true);
                lemma_bal_xf(*scrutinee, o);
                lemma_union_single(o, sn, sn);
                lemma_bal_match(sn, arms@, o2);
                lemma_net_match(sn, arms@, o2, sn);
            },
        }
    }
}

proof fn lemma_bal_match(s: Seq<char>, arms: Seq<MatchArm>, o: Seq<Seq<char>>)
    ensures
        balanced(xf_match(s, arms, o)),
    decreases arms, 3nat,
{
    let xs = xf_arms(s, arms, o);
    assert forall|i: int| #![trigger xs[i]] 0 <= i < xs.len() implies balanced(xs[i].body)
        && forall|b: Seq<char>| #[trigger] xs[i].bindings.contains(b) ==> net(xs[i].body, b)
            == Some(1int) by {
        lemma_bal_arm(s, arms, i, o);
    }
    let ks: Seq<Seq<char>> = if scrut_kept(s, arms, o) {
        seq![s]
    } else {
        Seq::empty()
    };
    lemma_balanced_wrap(ks, Term::Match { scrutinee: s, arms: xs }, true);
}

proof fn lemma_bal_arm(s: Seq<char>, arms: Seq<MatchArm>, i: int, o: Seq<Seq<char>>)
    requires
        0 <= i < arms.len(),
    ensures
        balanced(xf_arm(s, arms, i, o).body),
        forall|b: Seq<char>| #[trigger] xf_arm(s, arms, i, o).bindings.contains(b) ==> net(
            xf_arm(s, arms, i, o).body,
            b,
        ) == Some(1int),
    decreases arms, 2nat,
{
    let arm = arms[i];
    let bs = pat_vars(arm.pat);
    let live = arms_live(s, arms, o);
    let tok = reuse_token_spec(s, arm.pat);
    let ao = union(live, bs);
    let cs = clashes(s, arms, i, o);
    let sfx = arm_suffix(s, arms, i, o);
    let xw = xf_with_reuse(arm.body, ao, tok);
    let ub = unused_bindings(arm);
    let inner = arm_inner(s, arms, i, o);
    let drops = arm_drops(s, arms, i, o);
    let nb = arm_bindings(s, arms, i, o);
    assert(arms[i] == arm);
    lemma_arm_shape(s, arms, i, o);
    lemma_arm_facts(s, arms, i, o);
    lemma_bal_with_reuse(arm.body, ao, tok);
    lemma_balanced_wrap(ub, xw, false);
    assert(balanced(inner)) by {
        reveal(arm_inner);
    }
    assert forall|c: Seq<char>| #[trigger] cs.contains(c) implies net(inner, c) == Some(1int) by {
        lemma_arm_inner_net(s, arms, i, o, c);
    }
    lemma_rebind_balanced(cs, sfx, inner);
    lemma_balanced_wrap(drops, rebind(cs, sfx, inner), false);
    assert forall|b2: Seq<char>| #[trigger] nb.contains(b2) implies net(
        wrap(drops, rebind(cs, sfx, inner), false),
        b2,
    ) == Some(1int) by {
        lemma_bal_arm_binding(s, arms, i, o, b2);
    }
}

/// Each binding of arm `i`, renamed or not, is released once by the arm.
proof fn lemma_bal_arm_binding(
    s: Seq<char>,
    arms: Seq<MatchArm>,
    i: int,
    o: Seq<Seq<char>>,
    b2: Seq<char>,
)
    requires
        0 <= i < arms.len(),
        arm_bindings(s, arms, i, o).contains(b2),
    ensures
        net(
            wrap(
                arm_drops(s, arms, i, o),
                rebind(clashes(s, arms, i, o), arm_suffix(s, arms, i, o), arm_inner(s, arms, i, o)),
                false,
            ),
            b2,
        ) == Some(1int),
    decreases arms, 1nat,
{
    let arm = arms[i];
    let bs = pat_vars(arm.pat);
    let f = fv_arms(arms);
    let live = arms_live(s, arms, o);
    let cs = clashes(s, arms, i, o);
    let sfx = arm_suffix(s, arms, i, o);
    let inner = arm_inner(s, arms, i, o);
    let drops = arm_drops(s, arms, i, o);
    let nb = arm_bindings(s, arms, i, o);
    assert(arms[i] == arm);
    lemma_arm_facts(s, arms, i, o);
    let k = choose|k: int| 0 <= k < nb.len() && nb[k] == b2;
    let b = bs[k];
    assert(bs.contains(b));
    lemma_net_wrap(drops, rebind(cs, sfx, inner), false, b2);
    lemma_fv_arms_no_dup(arms);
    lemma_intersect_no_dup(f, live);
    lemma_remove_all_no_dup(intersect(f, live), fv_arm(arm));
    lemma_occ(drops, b2);
    lemma_remove_all_contains(intersect(f, live), fv_arm(arm), b2);
    lemma_intersect_contains(f, live, b2);
    lemma_pat_bindings_agree(arm.pat, b);
    lemma_intersect_contains(pat_var_set(arm.pat), intersect(f, live), b);
    if cs.contains(b) {
        assert(b2 == b + sfx);
        assert(!live.contains(b2));
        assert(!bs.contains(b2));
        assert(!fv(arm.body).contains(b2));
        lemma_rebind_net_renamed(cs, sfx, inner, b);
        lemma_arm_inner_net(s, arms, i, o, b2);
        lemma_remove_all_contains(fv(arm.body), pat_var_set(arm.pat), b2);
    } else {
        assert(b2 == b);
        assert forall|c: Seq<char>| cs.contains(c) implies b2 != c + sfx by {
            assert((c + sfx).len() == c.len() + sfx.len());
        }
        lemma_rebind_net_other(cs, sfx, inner, b);
        lemma_arm_inner_net(s, arms, i, o, b);
    }
}

/// Perceus releases every reference exactly once.  In the transform of a
/// top-level expression, each variable bound by a `let`, a lambda (its
/// parameter and each capture) or a match arm is, on every path through its
/// scope (one branch at each `if`, one arm at each `match`), used or dropped
/// exactly once more than it is duplicated.
pub proof fn lemma_transform_balanced(e: Expr)
    ensures
        balanced(xf(e, Seq::empty())),
{
    lemma_bal_xf(e, Seq::empty());
}

// ── What simplification may remove ─────────────────────────────────────────

/// Every path through `t` releases `x` at most `uses_t(x, t)` times: the use
/// count the simplifier consults counts every release (a use as a variable, a
/// lambda capture, a scrutinee or a Drop) on any path.
pub proof fn lemma_uses_bound_releases(t: Term, x: Seq<char>)
    ensures
        net(t, x) matches Some(k) ==> k <= uses_t(x, t),
    decreases t,
{
    match t {
        Term::Dup { body, .. } => lemma_uses_bound_releases(*body, x),
        Term::Drop { body, .. } => lemma_uses_bound_releases(*body, x),
        Term::Let { value, body, .. } => {
            lemma_uses_bound_releases(*value, x);
            lemma_uses_bound_releases(*body, x);
        },
        Term::App(f, a) => {
            lemma_uses_bound_releases(*f, x);
            lemma_uses_bound_releases(*a, x);
        },
        Term::If { cond, then_, else_ } => {
            lemma_uses_bound_releases(*cond, x);
            lemma_uses_bound_releases(*then_, x);
            lemma_uses_bound_releases(*else_, x);
        },
        Term::Match { arms, .. } => lemma_uses_bound_arms(arms, x),
        Term::Con { fields, .. } => lemma_uses_bound_list(fields, x),
        Term::Foreign { args, .. } => lemma_uses_bound_list(args, x),
        _ => {},
    }
}

proof fn lemma_uses_bound_list(ts: Seq<Term>, x: Seq<char>)
    ensures
        net_list(ts, x) matches Some(k) ==> k <= uses_list(x, ts),
    decreases ts,
{
    if ts.len() > 0 {
        lemma_uses_bound_list(ts.drop_last(), x);
        lemma_uses_bound_releases(ts.last(), x);
    }
}

proof fn lemma_uses_bound_arms(arms: Seq<ArmTerm>, x: Seq<char>)
    ensures
        net_arms(arms, x) matches Some(k) ==> k <= uses_arms(x, arms),
    decreases arms,
{
    if arms.len() > 0 {
        lemma_uses_bound_arms(arms.drop_last(), x);
        lemma_uses_bound_releases(arms.last().body, x);
    }
}

/// A term that does not mention `x` releases none of it.
pub proof fn lemma_unmentioned_not_released(t: Term, x: Seq<char>)
    requires
        !mentions_t(x, t),
    ensures
        net(t, x) == Some(0int),
    decreases t,
{
    match t {
        Term::Dup { body, .. } => lemma_unmentioned_not_released(*body, x),
        Term::Drop { body, .. } => lemma_unmentioned_not_released(*body, x),
        Term::Let { name, value, body } => {
            lemma_unmentioned_not_released(*value, x);
            if name != x {
                lemma_unmentioned_not_released(*body, x);
            }
        },
        Term::App(f, a) => {
            lemma_unmentioned_not_released(*f, x);
            lemma_unmentioned_not_released(*a, x);
        },
        Term::If { cond, then_, else_ } => {
            lemma_unmentioned_not_released(*cond, x);
            lemma_unmentioned_not_released(*then_, x);
            lemma_unmentioned_not_released(*else_, x);
        },
        Term::Match { arms, .. } => lemma_unmentioned_arms(arms, x),
        Term::Con { fields, .. } => lemma_unmentioned_list(fields, x),
        Term::Foreign { args, .. } => lemma_unmentioned_list(args, x),
        _ => {},
    }
}

proof fn lemma_unmentioned_list(ts: Seq<Term>, x: Seq<char>)
    requires
        !mentions_list(x, ts),
    ensures
        net_list(ts, x) == Some(0int),
    decreases ts,
{
    if ts.len() > 0 {
        lemma_unmentioned_list(ts.drop_last(), x);
        lemma_unmentioned_not_released(ts.last(), x);
    }
}

proof fn lemma_unmentioned_arms(arms: Seq<ArmTerm>, x: Seq<char>)
    requires
        !mentions_arms(x, arms),
    ensures
        net_arms(arms, x) == Some(0int),
    decreases arms,
{
    if arms.len() > 0 {
        lemma_unmentioned_arms(arms.drop_last(), x);
        if !arms.last().bindings.contains(x) {
            lemma_unmentioned_not_released(arms.last().body, x);
        }
    }
}

/// The simplifier takes a Dup of `x` away from the body `e` (leaving `e`
/// itself) only where no path through `e` releases `x` more than once, so the
/// reference the Dup made was not needed.
pub proof fn lemma_dup_removed_only_if_single_release(x: Seq<char>, e: Term, n: nat)
    requires
        n >= tsize(e),
        reduce_dup_f(x, e, n) == e,
    ensures
        net(e, x) matches Some(k) ==> k <= 1,
    decreases n,
{
    lemma_tsize_pos(e);
    let m = (n - 1) as nat;
    match e {
        Term::Drop { var: v, body: inner } => {
            if v == x {
                lemma_step(*inner, m, tsize(*inner));
                assert(tsize(step_f(*inner, m)) < tsize(e));
            }
        },
        _ => {},
    }
    let commuted = match e {
        Term::Let { name, value, .. } => name != x && !mentions_t(x, *value),
        _ => false,
    };
    if let Term::Let { name, value, body: inner } = e {
        if commuted {
            lemma_dup_removed_only_if_single_release(x, *inner, m);
            lemma_unmentioned_not_released(*value, x);
            return;
        }
    }
    let is_cancel = match e {
        Term::Drop { var: v, .. } => v == x,
        _ => false,
    };
    if !is_cancel && !commuted {
        if uses_t(x, e) <= 1 {
            lemma_uses_bound_releases(e, x);
        } else {
            assert(tsize(Term::Dup { var: x, body: Box::new(e) }) == 1 + tsize(e));
        }
    }
}

// ── The transform keeps the program's literals ──────────────────────────────

/// The literals of an expression, in the order they are written (literal
/// patterns are not expressions and are not counted).
pub open spec fn lits(e: Expr) -> Seq<LitV>
    decreases e,
{
    match e {
        Expr::Lit(l) => seq![l@],
        Expr::Var(_) => Seq::empty(),
        Expr::Let { value, body, .. } => lits(*value) + lits(*body),
        Expr::Lam { body, .. } => lits(*body),
        Expr::App(f, a) => lits(*f) + lits(*a),
        Expr::If { cond, then_, else_ } => lits(*cond) + lits(*then_) + lits(*else_),
        Expr::Match { scrutinee, arms } => lits(*scrutinee) + lits_arms(arms@),
        Expr::Con { fields, .. } => lits_list(fields@),
        Expr::Foreign { args, .. } => lits_list(args@),
    }
}

pub open spec fn lits_list(es: Seq<Expr>) -> Seq<LitV>
    decreases es,
{
    if es.len() == 0 {
        Seq::empty()
    } else {
        lits_list(es.drop_last()) + lits(es.last())
    }
}

pub open spec fn lits_arms(arms: Seq<MatchArm>) -> Seq<LitV>
    decreases arms,
{
    if arms.len() == 0 {
        Seq::empty()
    } else {
        lits_arms(arms.drop_last()) + lits(arms.last().body)
    }
}

/// The literals of an RC term, in the order they are written.
pub open spec fn tlits(t: Term) -> Seq<LitV>
    decreases t,
{
    match t {
        Term::Lit(l) => seq![l],
        Term::Var(_) => Seq::empty(),
        Term::Let { value, body, .. } => tlits(*value) + tlits(*body),
        Term::Lam { body, .. } => tlits(*body),
        Term::App(f, a) => tlits(*f) + tlits(*a),
        Term::If { cond, then_, else_ } => tlits(*cond) + tlits(*then_) + tlits(*else_),
        Term::Dup { body, .. } => tlits(*body),
        Term::Drop { body, .. } => tlits(*body),
        Term::Match { arms, .. } => tlits_arms(arms),
        Term::Con { fields, .. } => tlits_list(fields),
        Term::Foreign { args, .. } => tlits_list(args),
    }
}

pub open spec fn tlits_list(ts: Seq<Term>) -> Seq<LitV>
    decreases ts,
{
    if ts.len() == 0 {
        Seq::empty()
    } else {
        tlits_list(ts.drop_last()) + tlits(ts.last())
    }
}

pub open spec fn tlits_arms(arms: Seq<ArmTerm>) -> Seq<LitV>
    decreases arms,
{
    if arms.len() == 0 {
        Seq::empty()
    } else {
        tlits_arms(arms.drop_last()) + tlits(arms.last().body)
    }
}

proof fn lemma_tlits_wrap(vs: Seq<Seq<char>>, t: Term, dup: bool)
    ensures
        tlits(wrap(vs, t, dup)) == tlits(t),
    decreases vs.len(),
{
    if vs.len() > 0 {
        lemma_tlits_wrap(vs.drop_last(), t, dup);
    }
}

proof fn lemma_tlits_rebind(cs: Seq<Seq<char>>, sfx: Seq<char>, t: Term)
    ensures
        tlits(rebind(cs, sfx, t)) == tlits(t),
    decreases cs.len(),
{
    if cs.len() > 0 {
        lemma_tlits_rebind(cs.drop_last(), sfx, t);
        assert(tlits(Term::Var(cs.last() + sfx)) =~= Seq::<LitV>::empty());
        assert(Seq::<LitV>::empty() + tlits(rebind(cs.drop_last(), sfx, t)) =~= tlits(t));
    }
}

proof fn lemma_tlits_arms_match(xs: Seq<ArmTerm>, arms: Seq<MatchArm>)
    requires
        xs.len() == arms.len(),
        forall|i: int| #![trigger xs[i]] 0 <= i < xs.len() ==> tlits(xs[i].body) == lits(arms[i].body),
    ensures
        tlits_arms(xs) == lits_arms(arms),
    decreases xs.len(),
{
    if xs.len() > 0 {
        let xi = xs.drop_last();
        let ai = arms.drop_last();
        assert forall|i: int| #![trigger xi[i]] 0 <= i < xi.len() implies tlits(xi[i].body) == lits(
            ai[i].body,
        ) by {
            assert(xi[i] == xs[i]);
            assert(ai[i] == arms[i]);
        }
        lemma_tlits_arms_match(xi, ai);
        assert(xs.last() == xs[xs.len() - 1]);
    }
}

/// Perceus only adds reference-counting operations and bindings of names: the
/// literals of its result are those of the source, unchanged and in order.
pub proof fn lemma_transform_keeps_literals(e: Expr, o: Seq<Seq<char>>)
    ensures
        tlits(xf(e, o)) == lits(e),
    decreases e, 2nat,
{
    match e {
        Expr::Let { name, value, body } => {
            let n = name@;
            let rb = xf(*body, union(o, seq![n]));
            let bb = if uc(n, *body) == 0 {
                Term::Drop { var: n, body: Box::new(rb) }
            } else {
                rb
            };
            let l = Term::Let { name: n, value: Box::new(xf(*value, o)), body: Box::new(bb) };
            let d = intersect(intersect(fv(*value), remove(fv(*body), n)), o);
            assert(xf(e, o) == wrap(d, l, true));
            lemma_transform_keeps_literals(*value, o);
            lemma_transform_keeps_literals(*body, union(o, seq![n]));
            assert(tlits(bb) == tlits(rb));
            lemma_tlits_wrap(d, l, true);
        },
        Expr::Lam { param, body } => {
            let p = param@;
            let caps = intersect(remove(fv(*body), p), o);
            let rb = xf(*body, union(caps, seq![p]));
            lemma_transform_keeps_literals(*body, union(caps, seq![p]));
            assert(tlits(Term::Drop { var: p, body: Box::new(rb) }) == tlits(rb));
        },
        Expr::App(f, a) => {
            lemma_transform_keeps_literals(*f, o);
            lemma_transform_keeps_literals(*a, o);
            lemma_tlits_wrap(
                intersect(intersect(fv(*f), fv(*a)), o),
                Term::App(Box::new(xf(*f, o)), Box::new(xf(*a, o))),
                true,
            );
        },
        Expr::If { .. } => lemma_lits_if(e, o),
        Expr::Match { .. } => lemma_lits_match_expr(e, o),
        Expr::Con { tag, fields } => lemma_lits_con(tag@, fields@, o, None),
        Expr::Foreign { name, args } => {
            lemma_lits_list(args@, o);
            lemma_tlits_wrap(
                arg_dups(args@, o),
                Term::Foreign { name: name@, args: xf_list(args@, o) },
                true,
            );
        },
        _ => {},
    }
}

proof fn lemma_lits_if(e: Expr, o: Seq<Seq<char>>)
    requires
        e is If,
    ensures
        tlits(xf(e, o)) == lits(e),
    decreases e, 1nat,
{
    if let Expr::If { cond, then_, else_ } = e {
        let fc = fv(*cond);
        let ft = fv(*then_);
        let fe = fv(*else_);
        let fb = union(ft, fe);
        let bo = remove_all(o, remove_all(fc, fb));
        let dt = intersect(remove_all(fe, ft), bo);
        let de = intersect(remove_all(ft, fe), bo);
        lemma_transform_keeps_literals(*cond, o);
        lemma_transform_keeps_literals(*then_, bo);
        lemma_transform_keeps_literals(*else_, bo);
        lemma_tlits_wrap(dt, xf(*then_, bo), false);
        lemma_tlits_wrap(de, xf(*else_, bo), false);
        let ti = Term::If {
            cond: Box::new(xf(*cond, o)),
            then_: Box::new(wrap(dt, xf(*then_, bo), false)),
            else_: Box::new(wrap(de, xf(*else_, bo), false)),
        };
        lemma_tlits_wrap(intersect(intersect(fc, fb), o), ti, true);
    }
}

proof fn lemma_lits_list(es: Seq<Expr>, o: Seq<Seq<char>>)
    ensures
        tlits_list(xf_list(es, o)) == lits_list(es),
    decreases es, 0nat,
{
    if es.len() > 0 {
        let init = es.drop_last();
        assert(xf_list(es, o).drop_last() =~= xf_list(init, o));
        assert(xf_list(es, o).last() == xf(es.last(), o));
        lemma_lits_list(init, o);
        lemma_transform_keeps_literals(es.last(), o);
    } else {
        assert(xf_list(es, o).len() == 0);
    }
}

proof fn lemma_lits_con(tag: Seq<char>, fields: Seq<Expr>, o: Seq<Seq<char>>, reuse: Option<Seq<char>>)
    ensures
        tlits(con_term(tag, fields, o, reuse)) == lits_list(fields),
    decreases fields, 1nat,
{
    lemma_lits_list(fields, o);
    lemma_tlits_wrap(arg_dups(fields, o), Term::Con { tag, fields: xf_list(fields, o), reuse }, true);
}

proof fn lemma_lits_with_reuse(e: Expr, o: Seq<Seq<char>>, tok: Option<Seq<char>>)
    ensures
        tlits(xf_with_reuse(e, o, tok)) == lits(e),
    decreases e, 3nat,
{
    match e {
        Expr::Con { tag, fields } => lemma_lits_con(tag@, fields@, o, tok),
        _ => lemma_transform_keeps_literals(e, o),
    }
}

proof fn lemma_lits_match_expr(e: Expr, o: Seq<Seq<char>>)
    requires
        e is Match,
    ensures
        tlits(xf(e, o)) == lits(e),
    decreases e, 1nat,
{
    if let Expr::Match { scrutinee, arms } = e {
        match *scrutinee {
            Expr::Var(y) => {
                lemma_lits_match(y@, arms@, o);
                assert(lits(*scrutinee) =~= Seq::<LitV>::empty());
                assert(lits(e) =~= lits_arms(arms@));
            },
            _ => {
                let sn = scrut_temp(arms@);
                let o2 = union(o, seq![sn]);
                let m = xf_match(sn, arms@, o2);
                let l = Term::Let { name: sn, value: Box::new(xf(*scrutinee, o)), body: Box::new(m) };
                let d = intersect(intersect(fv(*scrutinee), fv_arms(arms@)), o);
                assert(xf(e, o) == wrap(d, l, true));
                lemma_tlits_wrap(d, l, true);
                lemma_transform_keeps_literals(*scrutinee, o);
                lemma_lits_match(sn, arms@, o2);
            },
        }
    }
}

proof fn lemma_lits_match(s: Seq<char>, arms: Seq<MatchArm>, o: Seq<Seq<char>>)
    ensures
        tlits(xf_match(s, arms, o)) == lits_arms(arms),
    decreases arms, 3nat,
{
    let xs = xf_arms(s, arms, o);
    assert forall|i: int| #![trigger xs[i]] 0 <= i < xs.len() implies tlits(xs[i].body) == lits(
        arms[i].body,
    ) by {
        lemma_lits_arm(s, arms, i, o);
    }
    lemma_tlits_arms_match(xs, arms);
    let ks: Seq<Seq<char>> = if scrut_kept(s, arms, o) {
        seq![s]
    } else {
        Seq::empty()
    };
    lemma_tlits_wrap(ks, Term::Match { scrutinee: s, arms: xs }, true);
}

proof fn lemma_lits_arm(s: Seq<char>, arms: Seq<MatchArm>, i: int, o: Seq<Seq<char>>)
    requires
        0 <= i < arms.len(),
    ensures
        tlits(xf_arm(s, arms, i, o).body) == lits(arms[i].body),
    decreases arms, 2nat,
{
    let arm = arms[i];
    let ao = union(arms_live(s, arms, o), pat_vars(arm.pat));
    let tok = reuse_token_spec(s, arm.pat);
    let xw = xf_with_reuse(arm.body, ao, tok);
    lemma_arm_shape(s, arms, i, o);
    lemma_lits_with_reuse(arm.body, ao, tok);
    reveal(arm_inner);
    lemma_tlits_wrap(unused_bindings(arm), xw, false);
    lemma_tlits_rebind(clashes(s, arms, i, o), arm_suffix(s, arms, i, o), arm_inner(s, arms, i, o));
    lemma_tlits_wrap(
        arm_drops(s, arms, i, o),
        rebind(clashes(s, arms, i, o), arm_suffix(s, arms, i, o), arm_inner(s, arms, i, o)),
        false,
    );
}

} // verus!
