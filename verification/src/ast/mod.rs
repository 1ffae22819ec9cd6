//! Source AST for Lumi — a small functional language.
pub mod pp;

use vstd::prelude::*;

verus! {

/// A literal value.
#[derive(Debug)]
pub enum Lit {
    Int(i64),
    Bool(bool),
    Unit,
    Str(String),
}

/// A pattern in a match arm.
#[derive(Debug)]
pub enum Pattern {
    Wildcard,
    Var(String),
    Lit(Lit),
    Con { tag: String, fields: Vec<Pattern> },
}

/// One arm of a `match`.
#[derive(Debug)]
pub struct MatchArm {
    pub pat: Pattern,
    pub body: Expr,
}

/// Source expressions.
#[derive(Debug)]
pub enum Expr {
    Lit(Lit),
    Var(String),
    Let { name: String, value: Box<Expr>, body: Box<Expr> },
    Lam { param: String, body: Box<Expr> },
    App(Box<Expr>, Box<Expr>),
    If { cond: Box<Expr>, then_: Box<Expr>, else_: Box<Expr> },
    Match { scrutinee: Box<Expr>, arms: Vec<MatchArm> },
    /// Algebraic data type constructor: Tag(field0, field1, ...)
    Con { tag: String, fields: Vec<Expr> },
    /// Direct call to a named C function — escape hatch for I/O / arithmetic.
    Foreign { name: String, args: Vec<Expr> },
}

/// The mathematical value of a literal: strings are taken by their characters.
pub enum LitV {
    Int(i64),
    Bool(bool),
    Unit,
    Str(Seq<char>),
}

impl View for Lit {
    type V = LitV;

    open spec fn view(&self) -> LitV {
        match self {
            Lit::Int(n) => LitV::Int(*n),
            Lit::Bool(b) => LitV::Bool(*b),
            Lit::Unit => LitV::Unit,
            Lit::Str(s) => LitV::Str(s@),
        }
    }
}

impl Lit {
    /// A copy of this literal with the same value.
    pub fn copy(&self) -> (r: Lit)
        ensures
            r@ == self@,
    {
        match self {
            Lit::Int(n) => Lit::Int(*n),
            Lit::Bool(b) => Lit::Bool(*b),
            Lit::Unit => Lit::Unit,
            Lit::Str(s) => Lit::Str(s.clone()),
        }
    }
}

/// The value of a pattern, with names taken by their characters.
pub enum PatV {
    Wildcard,
    Var(Seq<char>),
    Lit(LitV),
    Con { tag: Seq<char>, fields: Seq<PatV> },
}

/// The value of an expression, with names taken by their characters.
pub enum ExprV {
    Lit(LitV),
    Var(Seq<char>),
    Let { name: Seq<char>, value: Box<ExprV>, body: Box<ExprV> },
    Lam { param: Seq<char>, body: Box<ExprV> },
    App(Box<ExprV>, Box<ExprV>),
    If { cond: Box<ExprV>, then_: Box<ExprV>, else_: Box<ExprV> },
    Match { scrutinee: Box<ExprV>, arms: Seq<ArmV> },
    Con { tag: Seq<char>, fields: Seq<ExprV> },
    Foreign { name: Seq<char>, args: Seq<ExprV> },
}

/// The value of a match arm.
pub struct ArmV {
    pub pat: PatV,
    pub body: ExprV,
}

pub open spec fn pat_v(p: Pattern) -> PatV
    decreases p,
{
    match p {
        Pattern::Wildcard => PatV::Wildcard,
        Pattern::Var(x) => PatV::Var(x@),
        Pattern::Lit(l) => PatV::Lit(l@),
        Pattern::Con { tag, fields } => PatV::Con {
            tag: tag@,
            fields: Seq::new(
                fields@.len(),
                |i: int|
                    if 0 <= i < fields@.len() {
                        pat_v(fields@[i])
                    } else {
                        PatV::Wildcard
                    },
            ),
        },
    }
}

pub open spec fn expr_v(e: Expr) -> ExprV
    decreases e,
{
    match e {
        Expr::Lit(l) => ExprV::Lit(l@),
        Expr::Var(x) => ExprV::Var(x@),
        Expr::Let { name, value, body } => ExprV::Let {
            name: name@,
            value: Box::new(expr_v(*value)),
            body: Box::new(expr_v(*body)),
        },
        Expr::Lam { param, body } => ExprV::Lam { param: param@, body: Box::new(expr_v(*body)) },
        Expr::App(f, x) => ExprV::App(Box::new(expr_v(*f)), Box::new(expr_v(*x))),
        Expr::If { cond, then_, else_ } => ExprV::If {
            cond: Box::new(expr_v(*cond)),
            then_: Box::new(expr_v(*then_)),
            else_: Box::new(expr_v(*else_)),
        },
        Expr::Match { scrutinee, arms } => ExprV::Match {
            scrutinee: Box::new(expr_v(*scrutinee)),
            arms: Seq::new(
                arms@.len(),
                |i: int|
                    if 0 <= i < arms@.len() {
                        ArmV { pat: pat_v(arms@[i].pat), body: expr_v(arms@[i].body) }
                    } else {
                        ArmV { pat: PatV::Wildcard, body: ExprV::Var(Seq::empty()) }
                    },
            ),
        },
        Expr::Con { tag, fields } => ExprV::Con {
            tag: tag@,
            fields: Seq::new(
                fields@.len(),
                |i: int|
                    if 0 <= i < fields@.len() {
                        expr_v(fields@[i])
                    } else {
                        ExprV::Var(Seq::empty())
                    },
            ),
        },
        Expr::Foreign { name, args } => ExprV::Foreign {
            name: name@,
            args: Seq::new(
                args@.len(),
                |i: int|
                    if 0 <= i < args@.len() {
                        expr_v(args@[i])
                    } else {
                        ExprV::Var(Seq::empty())
                    },
            ),
        },
    }
}

impl View for Pattern {
    type V = PatV;

    open spec fn view(&self) -> PatV {
        pat_v(*self)
    }
}

impl View for Expr {
    type V = ExprV;

    open spec fn view(&self) -> ExprV {
        expr_v(*self)
    }
}

impl View for MatchArm {
    type V = ArmV;

    open spec fn view(&self) -> ArmV {
        ArmV { pat: self.pat@, body: self.body@ }
    }
}

/// Views of a sequence of expressions.
pub open spec fn expr_vs(es: Seq<Expr>) -> Seq<ExprV> {
    Seq::new(es.len(), |i: int| es[i]@)
}

/// Views of a sequence of patterns.
pub open spec fn pat_vs(ps: Seq<Pattern>) -> Seq<PatV> {
    Seq::new(ps.len(), |i: int| ps[i]@)
}

/// Views of a sequence of match arms.
pub open spec fn arm_vs(arms: Seq<MatchArm>) -> Seq<ArmV> {
    Seq::new(arms.len(), |i: int| arms[i]@)
}

/// The children sequences of a value are the views of the children.
pub proof fn lemma_expr_v_children(e: Expr)
    ensures
        e matches Expr::Con { fields, .. } ==> (e@ matches ExprV::Con { fields: fs, .. } && fs
            == expr_vs(fields@)),
        e matches Expr::Foreign { args, .. } ==> (e@ matches ExprV::Foreign { args: a, .. } && a
            == expr_vs(args@)),
        e matches Expr::Match { arms, .. } ==> (e@ matches ExprV::Match { arms: a, .. } && a
            == arm_vs(arms@)),
{
    match e {
        Expr::Con { fields, .. } => {
            if let ExprV::Con { fields: fs, .. } = expr_v(e) {
                assert(fs =~= expr_vs(fields@));
            }
        },
        Expr::Foreign { args, .. } => {
            if let ExprV::Foreign { args: a, .. } = expr_v(e) {
                assert(a =~= expr_vs(args@));
            }
        },
        Expr::Match { arms, .. } => {
            if let ExprV::Match { arms: a, .. } = expr_v(e) {
                assert(a =~= arm_vs(arms@));
            }
        },
        _ => {},
    }
}

/// The field sequence of a constructor pattern is the views of the fields.
pub proof fn lemma_pat_v_children(p: Pattern)
    ensures
        p matches Pattern::Con { fields, .. } ==> (p@ matches PatV::Con { fields: fs, .. } && fs
            == pat_vs(fields@)),
{
    if let Pattern::Con { fields, .. } = p {
        if let PatV::Con { fields: fs, .. } = pat_v(p) {
            assert(fs =~= pat_vs(fields@));
        }
    }
}

// ── Builder helpers so constructing programs stays readable ──────────────────

impl Expr {
    pub fn var(name: &str) -> (r: Self)
        ensures
            r matches Expr::Var(x) && x@ == name@,
    {
        Expr::Var(name.to_owned())
    }

    pub fn int_(n: i64) -> (r: Self)
        ensures
            r matches Expr::Lit(Lit::Int(m)) && m == n,
    {
        Expr::Lit(Lit::Int(n))
    }

    pub fn bool_(b: bool) -> (r: Self)
        ensures
            r matches Expr::Lit(Lit::Bool(c)) && c == b,
    {
        Expr::Lit(Lit::Bool(b))
    }

    pub fn unit() -> (r: Self)
        ensures
            r matches Expr::Lit(Lit::Unit),
    {
        Expr::Lit(Lit::Unit)
    }

    pub fn lam(param: &str, body: Expr) -> (r: Self)
        ensures
            r matches Expr::Lam { param: p, body: b } && p@ == param@ && *b == body,
    {
        Expr::Lam { param: param.to_owned(), body: Box::new(body) }
    }

    pub fn app(f: Expr, x: Expr) -> (r: Self)
        ensures
            r == Expr::App(Box::new(f), Box::new(x)),
    {
        Expr::App(Box::new(f), Box::new(x))
    }

    pub fn let_(name: &str, value: Expr, body: Expr) -> (r: Self)
        ensures
            r matches Expr::Let { name: n, value: v, body: b } && n@ == name@ && *v == value && *b
                == body,
    {
        Expr::Let { name: name.to_owned(), value: Box::new(value), body: Box::new(body) }
    }

    pub fn if_(cond: Expr, then_: Expr, else_: Expr) -> (r: Self)
        ensures
            r == (Expr::If { cond: Box::new(cond), then_: Box::new(then_), else_: Box::new(else_) }),
    {
        Expr::If { cond: Box::new(cond), then_: Box::new(then_), else_: Box::new(else_) }
    }

    pub fn match_(scrutinee: Expr, arms: Vec<MatchArm>) -> (r: Self)
        ensures
            r == (Expr::Match { scrutinee: Box::new(scrutinee), arms }),
    {
        Expr::Match { scrutinee: Box::new(scrutinee), arms }
    }

    pub fn con(tag: &str, fields: Vec<Expr>) -> (r: Self)
        ensures
            r matches Expr::Con { tag: t, fields: fs } && t@ == tag@ && fs == fields,
    {
        Expr::Con { tag: tag.to_owned(), fields }
    }

    pub fn str_(s: &str) -> (r: Self)
        ensures
            r matches Expr::Lit(Lit::Str(t)) && t@ == s@,
    {
        Expr::Lit(Lit::Str(s.to_owned()))
    }

    pub fn foreign(name: &str, args: Vec<Expr>) -> (r: Self)
        ensures
            r matches Expr::Foreign { name: n, args: a } && n@ == name@ && a == args,
    {
        Expr::Foreign { name: name.to_owned(), args }
    }
}

impl Pattern {
    pub fn var(name: &str) -> (r: Self)
        ensures
            r matches Pattern::Var(x) && x@ == name@,
    {
        Pattern::Var(name.to_owned())
    }

    pub fn con(tag: &str, fields: Vec<Pattern>) -> (r: Self)
        ensures
            r matches Pattern::Con { tag: t, fields: fs } && t@ == tag@ && fs == fields,
    {
        Pattern::Con { tag: tag.to_owned(), fields }
    }
}

impl MatchArm {
    pub fn new(pat: Pattern, body: Expr) -> (r: Self)
        ensures
            r == (MatchArm { pat, body }),
    {
        MatchArm { pat, body }
    }
}

/// Number of nodes in an expression (patterns not counted).
pub open spec fn size(e: Expr) -> nat
    decreases e,
{
    match e {
        Expr::Lit(_) => 1,
        Expr::Var(_) => 1,
        Expr::Let { value, body, .. } => 1 + size(*value) + size(*body),
        Expr::Lam { body, .. } => 1 + size(*body),
        Expr::App(f, x) => 1 + size(*f) + size(*x),
        Expr::If { cond, then_, else_ } => 1 + size(*cond) + size(*then_) + size(*else_),
        Expr::Match { scrutinee, arms } => 1 + size(*scrutinee) + size_arms(arms@),
        Expr::Con { fields, .. } => 1 + size_list(fields@),
        Expr::Foreign { args, .. } => 1 + size_list(args@),
    }
}

pub open spec fn size_list(es: Seq<Expr>) -> nat
    decreases es,
{
    if es.len() == 0 {
        0
    } else {
        size_list(es.drop_last()) + size(es.last())
    }
}

pub open spec fn size_arms(arms: Seq<MatchArm>) -> nat
    decreases arms,
{
    if arms.len() == 0 {
        0
    } else {
        size_arms(arms.drop_last()) + size(arms.last().body)
    }
}


pub proof fn lemma_size_list_elem(es: Seq<Expr>, i: int)
    requires
        0 <= i < es.len(),
    ensures
        size(es[i]) <= size_list(es),
    decreases es.len(),
{
    if i < es.len() - 1 {
        lemma_size_list_elem(es.drop_last(), i);
    }
}

pub proof fn lemma_size_arms_elem(arms: Seq<MatchArm>, i: int)
    requires
        0 <= i < arms.len(),
    ensures
        size(arms[i].body) <= size_arms(arms),
    decreases arms.len(),
{
    if i < arms.len() - 1 {
        lemma_size_arms_elem(arms.drop_last(), i);
    }
}


// ── Copies ───────────────────────────────────────────────────────────────────

impl Pattern {
    /// A copy of this pattern with the same value.
    pub fn duplicate(&self) -> (r: Self)
        ensures
            r@ == self@,
        decreases self,
    {
        match self {
            Pattern::Wildcard => Pattern::Wildcard,
            Pattern::Var(x) => Pattern::Var(x.clone()),
            Pattern::Lit(l) => Pattern::Lit(l.copy()),
            Pattern::Con { tag, fields } => {
                let out = duplicate_pats(fields);
                let r = Pattern::Con { tag: tag.clone(), fields: out };
                proof {
                    if let PatV::Con { fields: a, .. } = pat_v(r) {
                        if let PatV::Con { fields: b, .. } = pat_v(*self) {
                            assert forall|k: int| 0 <= k < a.len() implies a[k] == b[k] by {
                                assert(pat_v(out@[k]) == pat_v(fields@[k]));
                            }
                            assert(a =~= b);
                        }
                    }
                }
                r
            },
        }
    }
}

fn duplicate_pats(ps: &Vec<Pattern>) -> (r: Vec<Pattern>)
    ensures
        r@.len() == ps@.len(),
        forall|j: int| 0 <= j < ps@.len() ==> #[trigger] pat_v(r@[j]) == pat_v(ps@[j]),
    decreases ps,
{
    let mut out: Vec<Pattern> = Vec::new();
    let mut i: usize = 0;
    while i < ps.len()
        invariant
            0 <= i <= ps.len(),
            out@.len() == i,
            forall|j: int| 0 <= j < i ==> #[trigger] pat_v(out@[j]) == pat_v(ps@[j]),
        decreases ps.len() - i,
    {
        out.push(ps[i].duplicate());
        i += 1;
    }
    out
}

fn duplicate_match_arms(arms: &Vec<MatchArm>) -> (r: Vec<MatchArm>)
    ensures
        r@.len() == arms@.len(),
        forall|j: int|
            0 <= j < arms@.len() ==> #[trigger] pat_v(r@[j].pat) == pat_v(arms@[j].pat) && expr_v(
                r@[j].body,
            ) == expr_v(arms@[j].body),
    decreases arms,
{
    let mut out: Vec<MatchArm> = Vec::new();
    let mut i: usize = 0;
    while i < arms.len()
        invariant
            0 <= i <= arms.len(),
            out@.len() == i,
            forall|j: int|
                0 <= j < i ==> #[trigger] pat_v(out@[j].pat) == pat_v(arms@[j].pat) && expr_v(
                    out@[j].body,
                ) == expr_v(arms@[j].body),
        decreases arms.len() - i,
    {
        let a = MatchArm { pat: arms[i].pat.duplicate(), body: arms[i].body.duplicate() };
        out.push(a);
        i += 1;
    }
    out
}

impl Expr {
    /// A copy of this expression with the same value.
    pub fn duplicate(&self) -> (r: Self)
        ensures
            r@ == self@,
        decreases self,
    {
        match self {
            Expr::Lit(l) => Expr::Lit(l.copy()),
            Expr::Var(x) => Expr::Var(x.clone()),
            Expr::Let { name, value, body } => Expr::Let {
                name: name.clone(),
                value: Box::new(value.duplicate()),
                body: Box::new(body.duplicate()),
            },
            Expr::Lam { param, body } => Expr::Lam {
                param: param.clone(),
                body: Box::new(body.duplicate()),
            },
            Expr::App(f, x) => Expr::App(Box::new(f.duplicate()), Box::new(x.duplicate())),
            Expr::If { cond, then_, else_ } => Expr::If {
                cond: Box::new(cond.duplicate()),
                then_: Box::new(then_.duplicate()),
                else_: Box::new(else_.duplicate()),
            },
            Expr::Match { scrutinee, arms } => {
                let out = duplicate_match_arms(arms);
                let r = Expr::Match { scrutinee: Box::new(scrutinee.duplicate()), arms: out };
                proof {
                    if let ExprV::Match { arms: a, .. } = expr_v(r) {
                        if let ExprV::Match { arms: b, .. } = expr_v(*self) {
                            assert forall|k: int| 0 <= k < a.len() implies a[k] == b[k] by {
                                assert(pat_v(out@[k].pat) == pat_v(arms@[k].pat));
                            }
                            assert(a =~= b);
                        }
                    }
                }
                r
            },
            Expr::Con { tag, fields } => {
                let out = duplicate_exprs(fields);
                let r = Expr::Con { tag: tag.clone(), fields: out };
                proof {
                    if let ExprV::Con { fields: a, .. } = expr_v(r) {
                        if let ExprV::Con { fields: b, .. } = expr_v(*self) {
                            assert forall|k: int| 0 <= k < a.len() implies a[k] == b[k] by {
                                assert(expr_v(out@[k]) == expr_v(fields@[k]));
                            }
                            assert(a =~= b);
                        }
                    }
                }
                r
            },
            Expr::Foreign { name, args } => {
                let out = duplicate_exprs(args);
                let r = Expr::Foreign { name: name.clone(), args: out };
                proof {
                    if let ExprV::Foreign { args: a, .. } = expr_v(r) {
                        if let ExprV::Foreign { args: b, .. } = expr_v(*self) {
                            assert forall|k: int| 0 <= k < a.len() implies a[k] == b[k] by {
                                assert(expr_v(out@[k]) == expr_v(args@[k]));
                            }
                            assert(a =~= b);
                        }
                    }
                }
                r
            },
        }
    }
}

fn duplicate_exprs(es: &Vec<Expr>) -> (r: Vec<Expr>)
    ensures
        r@.len() == es@.len(),
        forall|j: int| 0 <= j < es@.len() ==> #[trigger] expr_v(r@[j]) == expr_v(es@[j]),
    decreases es,
{
    let mut out: Vec<Expr> = Vec::new();
    let mut i: usize = 0;
    while i < es.len()
        invariant
            0 <= i <= es.len(),
            out@.len() == i,
            forall|j: int| 0 <= j < i ==> #[trigger] expr_v(out@[j]) == expr_v(es@[j]),
        decreases es.len() - i,
    {
        out.push(es[i].duplicate());
        i += 1;
    }
    out
}

impl Clone for Lit {
    fn clone(&self) -> (r: Self)
        ensures
            r@ == self@,
    {
        self.copy()
    }
}

impl Clone for Pattern {
    fn clone(&self) -> (r: Self)
        ensures
            r@ == self@,
    {
        self.duplicate()
    }
}

impl Clone for MatchArm {
    fn clone(&self) -> (r: Self)
        ensures
            r@ == self@,
    {
        MatchArm { pat: self.pat.duplicate(), body: self.body.duplicate() }
    }
}

impl Clone for Expr {
    fn clone(&self) -> (r: Self)
        ensures
            r@ == self@,
    {
        self.duplicate()
    }
}

} // verus!
