//! RC-annotated AST — output of the Perceus transform.
//!
//! An intermediate representation where every reference-counting operation is
//! explicit. The Perceus algorithm decides *where* to insert Dup and Drop.
pub mod pp;

use vstd::prelude::*;

use crate::ast::{Lit, LitV};
use crate::names::{copy_names, names};

verus! {

/// A reuse token names the memory of a just-deconstructed value.
/// If the token is "live" (RC was 1 at deconstruction time), the
/// Con node that consumes it can skip malloc and write into that slot.
pub type ReuseToken = String;

#[derive(Debug)]
pub enum Expr {
    /// Literals are shared with the source AST; they are not reference counted.
    Lit(Lit),
    Var(String),
    Let { name: String, value: Box<Expr>, body: Box<Expr> },
    Lam {
        param: String,
        /// Variables captured from the enclosing scope.
        captures: Vec<String>,
        body: Box<Expr>,
    },
    App(Box<Expr>, Box<Expr>),
    If { cond: Box<Expr>, then_: Box<Expr>, else_: Box<Expr> },
    /// rc_inc(var); evaluate body.
    Dup { var: String, body: Box<Expr> },
    /// rc_dec(var); evaluate body.
    Drop { var: String, body: Box<Expr> },
    /// Pattern match. The scrutinee is *consumed* (ownership transferred in).
    Match { scrutinee: String, arms: Vec<MatchArm> },
    /// Constructor call; with `reuse`, the emitted C reuses that allocation.
    Con { tag: String, fields: Vec<Expr>, reuse: Option<ReuseToken> },
    /// Direct call to a named C function — escape hatch for I/O / arithmetic.
    Foreign { name: String, args: Vec<Expr> },
}

#[derive(Debug)]
pub struct MatchArm {
    /// The constructor tag this arm matches (or "_" for wildcard).
    pub tag: String,
    /// Field variables extracted from the matched constructor.
    pub bindings: Vec<String>,
    /// Reuse token for the scrutinee's allocation, usable by a Con in this arm.
    pub reuse_token: Option<ReuseToken>,
    pub body: Expr,
}

// ── Mathematical model ───────────────────────────────────────────────────────

/// The value of an RC expression, with names taken by their characters.
pub enum Term {
    Lit(LitV),
    Var(Seq<char>),
    Let { name: Seq<char>, value: Box<Term>, body: Box<Term> },
    Lam { param: Seq<char>, captures: Seq<Seq<char>>, body: Box<Term> },
    App(Box<Term>, Box<Term>),
    If { cond: Box<Term>, then_: Box<Term>, else_: Box<Term> },
    Dup { var: Seq<char>, body: Box<Term> },
    Drop { var: Seq<char>, body: Box<Term> },
    Match { scrutinee: Seq<char>, arms: Seq<ArmTerm> },
    Con { tag: Seq<char>, fields: Seq<Term>, reuse: Option<Seq<char>> },
    Foreign { name: Seq<char>, args: Seq<Term> },
}

/// The value of an RC match arm.
pub struct ArmTerm {
    pub tag: Seq<char>,
    pub bindings: Seq<Seq<char>>,
    pub reuse_token: Option<Seq<char>>,
    pub body: Term,
}

pub open spec fn opt_chars(o: Option<String>) -> Option<Seq<char>> {
    match o {
        Some(s) => Some(s@),
        None => None,
    }
}


pub open spec fn term(e: Expr) -> Term
    decreases e,
{
    match e {
        Expr::Lit(l) => Term::Lit(l@),
        Expr::Var(x) => Term::Var(x@),
        Expr::Let { name, value, body } => Term::Let {
            name: name@,
            value: Box::new(term(*value)),
            body: Box::new(term(*body)),
        },
        Expr::Lam { param, captures, body } => Term::Lam {
            param: param@,
            captures: names(captures@),
            body: Box::new(term(*body)),
        },
        Expr::App(f, x) => Term::App(Box::new(term(*f)), Box::new(term(*x))),
        Expr::If { cond, then_, else_ } => Term::If {
            cond: Box::new(term(*cond)),
            then_: Box::new(term(*then_)),
            else_: Box::new(term(*else_)),
        },
        Expr::Dup { var, body } => Term::Dup { var: var@, body: Box::new(term(*body)) },
        Expr::Drop { var, body } => Term::Drop { var: var@, body: Box::new(term(*body)) },
        Expr::Match { scrutinee, arms } => Term::Match {
            scrutinee: scrutinee@,
            arms: Seq::new(
                arms@.len(),
                |i: int|
                    if 0 <= i < arms@.len() {
                        arm_term(arms@[i])
                    } else {
                        ArmTerm {
                            tag: Seq::empty(),
                            bindings: Seq::empty(),
                            reuse_token: None,
                            body: Term::Var(Seq::empty()),
                        }
                    },
            ),
        },
        Expr::Con { tag, fields, reuse } => Term::Con {
            tag: tag@,
            fields: Seq::new(
                fields@.len(),
                |i: int|
                    if 0 <= i < fields@.len() {
                        term(fields@[i])
                    } else {
                        Term::Var(Seq::empty())
                    },
            ),
            reuse: opt_chars(reuse),
        },
        Expr::Foreign { name, args } => Term::Foreign {
            name: name@,
            args: Seq::new(
                args@.len(),
                |i: int|
                    if 0 <= i < args@.len() {
                        term(args@[i])
                    } else {
                        Term::Var(Seq::empty())
                    },
            ),
        },
    }
}

pub open spec fn arm_term(a: MatchArm) -> ArmTerm
    decreases a,
{
    ArmTerm {
        tag: a.tag@,
        bindings: names(a.bindings@),
        reuse_token: opt_chars(a.reuse_token),
        body: term(a.body),
    }
}

pub open spec fn terms(es: Seq<Expr>) -> Seq<Term> {
    Seq::new(es.len(), |i: int| term(es[i]))
}

pub open spec fn arm_terms(arms: Seq<MatchArm>) -> Seq<ArmTerm> {
    Seq::new(arms.len(), |i: int| arm_term(arms[i]))
}

/// The children sequences of a term are the views of the children.
pub proof fn lemma_view_children(e: Expr)
    ensures
        e matches Expr::Con { fields, .. } ==> (e@ matches Term::Con { fields: fs, .. } && fs
            == terms(fields@)),
        e matches Expr::Foreign { args, .. } ==> (e@ matches Term::Foreign { args: a, .. } && a
            == terms(args@)),
        e matches Expr::Match { arms, .. } ==> (e@ matches Term::Match { arms: a, .. } && a
            == arm_terms(arms@)),
{
    match e {
        Expr::Con { fields, .. } => {
            if let Term::Con { fields: fs, .. } = term(e) {
                assert(fs =~= terms(fields@));
            }
        },
        Expr::Foreign { args, .. } => {
            if let Term::Foreign { args: a, .. } = term(e) {
                assert(a =~= terms(args@));
            }
        },
        Expr::Match { arms, .. } => {
            if let Term::Match { arms: a, .. } = term(e) {
                assert(a =~= arm_terms(arms@));
            }
        },
        _ => {},
    }
}

impl View for Expr {
    type V = Term;

    open spec fn view(&self) -> Term {
        term(*self)
    }
}

impl View for MatchArm {
    type V = ArmTerm;

    open spec fn view(&self) -> ArmTerm {
        arm_term(*self)
    }
}

impl Expr {
    /// A copy of this expression with the same value.
    pub fn duplicate(&self) -> (r: Self)
        ensures
            r@ == self@,
        decreases self,
    {
        proof {
            lemma_view_children(*self);
        }
        match self {
            Expr::Lit(l) => Expr::Lit(l.copy()),
            Expr::Var(x) => Expr::Var(x.clone()),
            Expr::Let { name, value, body } => Expr::Let {
                name: name.clone(),
                value: Box::new(value.duplicate()),
                body: Box::new(body.duplicate()),
            },
            Expr::Lam { param, captures, body } => Expr::Lam {
                param: param.clone(),
                captures: copy_names(captures),
                body: Box::new(body.duplicate()),
            },
            Expr::App(f, x) => Expr::App(Box::new(f.duplicate()), Box::new(x.duplicate())),
            Expr::If { cond, then_, else_ } => Expr::If {
                cond: Box::new(cond.duplicate()),
                then_: Box::new(then_.duplicate()),
                else_: Box::new(else_.duplicate()),
            },
            Expr::Dup { var, body } => Expr::Dup { var: var.clone(), body: Box::new(body.duplicate()) },
            Expr::Drop { var, body } => Expr::Drop {
                var: var.clone(),
                body: Box::new(body.duplicate()),
            },
            Expr::Match { scrutinee, arms } => {
                let out = duplicate_arms(arms);
                let r = Expr::Match { scrutinee: scrutinee.clone(), arms: out };
                proof {
                    lemma_view_children(r);
                    assert(arm_terms(out@) =~= arm_terms(arms@));
                }
                r
            },
            Expr::Con { tag, fields, reuse } => {
                let out = duplicate_list(fields);
                let r = Expr::Con { tag: tag.clone(), fields: out, reuse: copy_opt(reuse) };
                proof {
                    lemma_view_children(r);
                    assert(terms(out@) =~= terms(fields@));
                }
                r
            },
            Expr::Foreign { name, args } => {
                let out = duplicate_list(args);
                let r = Expr::Foreign { name: name.clone(), args: out };
                proof {
                    lemma_view_children(r);
                    assert(terms(out@) =~= terms(args@));
                }
                r
            },
        }
    }
}

impl Clone for Expr {
    fn clone(&self) -> (r: Self)
        ensures
            r@ == self@,
    {
        self.duplicate()
    }
}

impl Clone for MatchArm {
    fn clone(&self) -> (r: Self)
        ensures
            r@ == self@,
    {
        MatchArm {
            tag: self.tag.clone(),
            bindings: copy_names(&self.bindings),
            reuse_token: copy_opt(&self.reuse_token),
            body: self.body.duplicate(),
        }
    }
}

fn duplicate_list(es: &Vec<Expr>) -> (r: Vec<Expr>)
    ensures
        r@.len() == es@.len(),
        forall|j: int| 0 <= j < es@.len() ==> #[trigger] term(r@[j]) == term(es@[j]),
    decreases es,
{
    let mut out: Vec<Expr> = Vec::new();
    let mut i: usize = 0;
    while i < es.len()
        invariant
            0 <= i <= es.len(),
            out@.len() == i,
            forall|j: int| 0 <= j < i ==> #[trigger] term(out@[j]) == term(es@[j]),
        decreases es.len() - i,
    {
        out.push(es[i].duplicate());
        i += 1;
    }
    out
}

fn duplicate_arms(arms: &Vec<MatchArm>) -> (r: Vec<MatchArm>)
    ensures
        r@.len() == arms@.len(),
        forall|j: int| 0 <= j < arms@.len() ==> #[trigger] arm_term(r@[j]) == arm_term(arms@[j]),
    decreases arms,
{
    let mut out: Vec<MatchArm> = Vec::new();
    let mut i: usize = 0;
    while i < arms.len()
        invariant
            0 <= i <= arms.len(),
            out@.len() == i,
            forall|j: int| 0 <= j < i ==> #[trigger] arm_term(out@[j]) == arm_term(arms@[j]),
        decreases arms.len() - i,
    {
        let a = &arms[i];
        let copy = MatchArm {
            tag: a.tag.clone(),
            bindings: copy_names(&a.bindings),
            reuse_token: copy_opt(&a.reuse_token),
            body: a.body.duplicate(),
        };
        out.push(copy);
        i += 1;
    }
    out
}

/// A copy of an optional name.
pub fn copy_opt(o: &Option<String>) -> (r: Option<String>)
    ensures
        opt_chars(r) == opt_chars(*o),
{
    match o {
        Some(s) => Some(s.clone()),
        None => None,
    }
}

// ── Builder helpers ──────────────────────────────────────────────────────────

impl Expr {
    pub fn var(name: &str) -> (r: Self)
        ensures
            r@ == Term::Var(name@),
    {
        Expr::Var(name.to_owned())
    }

    pub fn dup(var: &str, body: Expr) -> (r: Self)
        ensures
            r@ == (Term::Dup { var: var@, body: Box::new(body@) }),
    {
        Expr::Dup { var: var.to_owned(), body: Box::new(body) }
    }

    pub fn drop_(var: &str, body: Expr) -> (r: Self)
        ensures
            r@ == (Term::Drop { var: var@, body: Box::new(body@) }),
    {
        Expr::Drop { var: var.to_owned(), body: Box::new(body) }
    }
}

} // verus!
