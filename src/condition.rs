//! Boolean guard expressions: negation normal form, expansion into
//! disjunctive clauses, and the test syntax of each clause.

use vstd::prelude::*;
use vstd::string::*;
use crate::text::owned;
use crate::compile::{CompileOptions, CompilerState, FunctionCompilerState};

verus! {

/// Condition for the execute command.
#[derive(Debug, PartialEq, Eq, Hash)]
pub enum Condition {
    Atom(String),
    Not(Box<Condition>),
    And(Box<Condition>, Box<Condition>),
    Or(Box<Condition>, Box<Condition>),
}

/// Number of nodes of a condition tree.
pub open spec fn cond_size(c: Condition) -> nat
    decreases c,
{
    match c {
        Condition::Atom(_) => 1,
        Condition::Not(a) => 1 + cond_size(*a),
        Condition::And(a, b) => 1 + cond_size(*a) + cond_size(*b),
        Condition::Or(a, b) => 1 + cond_size(*a) + cond_size(*b),
    }
}

pub open spec fn mk_not(a: Condition) -> Condition {
    Condition::Not(Box::new(a))
}

pub open spec fn mk_and(a: Condition, b: Condition) -> Condition {
    Condition::And(Box::new(a), Box::new(b))
}

pub open spec fn mk_or(a: Condition, b: Condition) -> Condition {
    Condition::Or(Box::new(a), Box::new(b))
}

/// The condition with negations pushed down to the atoms by De Morgan's laws
/// and double negations removed.
pub open spec fn normal_form(c: Condition) -> Condition
    decreases cond_size(c)
    via normal_form_decreases
{
    match c {
        Condition::Atom(_) => c,
        Condition::Not(inner) => match *inner {
            Condition::Atom(_) => c,
            Condition::Not(x) => normal_form(*x),
            Condition::And(a, b) => mk_or(normal_form(mk_not(*a)), normal_form(mk_not(*b))),
            Condition::Or(a, b) => mk_and(normal_form(mk_not(*a)), normal_form(mk_not(*b))),
        },
        Condition::And(a, b) => mk_and(normal_form(*a), normal_form(*b)),
        Condition::Or(a, b) => mk_or(normal_form(*a), normal_form(*b)),
    }
}

#[via_fn]
proof fn normal_form_decreases(c: Condition) {
    reveal_with_fuel(cond_size, 2);
}

/// Every negation in `c` wraps an atom.
pub open spec fn is_normal(c: Condition) -> bool
    decreases c,
{
    match c {
        Condition::Atom(_) => true,
        Condition::Not(a) => (*a) is Atom,
        Condition::And(a, b) => is_normal(*a) && is_normal(*b),
        Condition::Or(a, b) => is_normal(*a) && is_normal(*b),
    }
}

/// `c` is normal and holds no disjunction.
pub open spec fn is_clause(c: Condition) -> bool
    decreases c,
{
    match c {
        Condition::Atom(_) => true,
        Condition::Not(a) => (*a) is Atom,
        Condition::And(a, b) => is_clause(*a) && is_clause(*b),
        Condition::Or(_, _) => false,
    }
}

/// Each clause of `xs` joined by a conjunction with each clause of `ys`,
/// ordered by `xs` first.
pub open spec fn and_product(xs: Seq<Condition>, ys: Seq<Condition>) -> Seq<Condition>
    decreases xs.len(),
{
    if xs.len() == 0 {
        Seq::empty()
    } else {
        and_product(xs.drop_last(), ys) + ys.map_values(|y: Condition| mk_and(xs.last(), y))
    }
}

/// The clauses of `c`, in implicit disjunction.
pub open spec fn clauses(c: Condition) -> Seq<Condition>
    decreases c,
{
    match c {
        Condition::Or(a, b) => clauses(*a) + clauses(*b),
        Condition::And(a, b) => and_product(clauses(*a), clauses(*b)),
        _ => seq![c],
    }
}

/// The disjunctive clauses of an arbitrary condition.
pub open spec fn disjunctive_clauses(c: Condition) -> Seq<Condition> {
    clauses(normal_form(c))
}

/// The test syntax of a clause.
pub open spec fn guard_text(c: Condition) -> Seq<char>
    decreases c,
{
    match c {
        Condition::Atom(s) => "if "@ + s@,
        Condition::Not(a) => match *a {
            Condition::Atom(s) => "unless "@ + s@,
            _ => Seq::empty(),
        },
        Condition::And(a, b) => guard_text(*a) + " "@ + guard_text(*b),
        Condition::Or(_, _) => Seq::empty(),
    }
}

/// The test syntax of each disjunctive clause of `c`.
pub open spec fn guard_lines(c: Condition) -> Seq<Seq<char>> {
    disjunctive_clauses(c).map_values(|k: Condition| guard_text(k))
}

pub proof fn lemma_normal_form_is_normal(c: Condition)
    ensures
        is_normal(normal_form(c)),
    decreases cond_size(c),
{
    reveal_with_fuel(cond_size, 2);
    match c {
        Condition::Atom(_) => {},
        Condition::Not(inner) => match *inner {
            Condition::Atom(_) => {},
            Condition::Not(x) => lemma_normal_form_is_normal(*x),
            Condition::And(a, b) => {
                lemma_normal_form_is_normal(mk_not(*a));
                lemma_normal_form_is_normal(mk_not(*b));
            },
            Condition::Or(a, b) => {
                lemma_normal_form_is_normal(mk_not(*a));
                lemma_normal_form_is_normal(mk_not(*b));
            },
        },
        Condition::And(a, b) => {
            lemma_normal_form_is_normal(*a);
            lemma_normal_form_is_normal(*b);
        },
        Condition::Or(a, b) => {
            lemma_normal_form_is_normal(*a);
            lemma_normal_form_is_normal(*b);
        },
    }
}

pub proof fn lemma_normal_fixed(c: Condition)
    requires
        is_normal(c),
    ensures
        normal_form(c) == c,
    decreases c,
{
    match c {
        Condition::And(a, b) => {
            lemma_normal_fixed(*a);
            lemma_normal_fixed(*b);
        },
        Condition::Or(a, b) => {
            lemma_normal_fixed(*a);
            lemma_normal_fixed(*b);
        },
        _ => {},
    }
}

/// Normalizing twice gives what normalizing once gives, and the result has no
/// negation of a conjunction, a disjunction or a negation.
pub proof fn lemma_normalize_idempotent(c: Condition)
    ensures
        normal_form(normal_form(c)) == normal_form(c),
        is_normal(normal_form(c)),
{
    lemma_normal_form_is_normal(c);
    lemma_normal_fixed(normal_form(c));
}

pub proof fn lemma_and_product_len(xs: Seq<Condition>, ys: Seq<Condition>)
    ensures
        and_product(xs, ys).len() == xs.len() * ys.len(),
    decreases xs.len(),
{
    if xs.len() > 0 {
        lemma_and_product_len(xs.drop_last(), ys);
        assert(xs.len() * ys.len() == (xs.len() - 1) * ys.len() + ys.len()) by (nonlinear_arith);
    }
}

pub proof fn lemma_and_product_clauses(xs: Seq<Condition>, ys: Seq<Condition>)
    requires
        forall|i: int| 0 <= i < xs.len() ==> is_clause(#[trigger] xs[i]),
        forall|i: int| 0 <= i < ys.len() ==> is_clause(#[trigger] ys[i]),
    ensures
        forall|i: int|
            0 <= i < and_product(xs, ys).len() ==> is_clause(#[trigger] and_product(xs, ys)[i]),
    decreases xs.len(),
{
    if xs.len() > 0 {
        lemma_and_product_clauses(xs.drop_last(), ys);
        let front = and_product(xs.drop_last(), ys);
        let back = ys.map_values(|y: Condition| mk_and(xs.last(), y));
        assert forall|i: int| 0 <= i < and_product(xs, ys).len() implies is_clause(
            #[trigger] and_product(xs, ys)[i],
        ) by {
            if i >= front.len() {
                assert(and_product(xs, ys)[i] == back[i - front.len()]);
                assert(is_clause(ys[i - front.len()]));
                assert(is_clause(xs[xs.len() - 1]));
            } else {
                assert(and_product(xs, ys)[i] == front[i]);
            }
        }
    }
}

pub proof fn lemma_clauses_of_normal(c: Condition)
    requires
        is_normal(c),
    ensures
        forall|i: int| 0 <= i < clauses(c).len() ==> is_clause(#[trigger] clauses(c)[i]),
    decreases c,
{
    match c {
        Condition::And(a, b) => {
            lemma_clauses_of_normal(*a);
            lemma_clauses_of_normal(*b);
            lemma_and_product_clauses(clauses(*a), clauses(*b));
        },
        Condition::Or(a, b) => {
            lemma_clauses_of_normal(*a);
            lemma_clauses_of_normal(*b);
            let l = clauses(*a) + clauses(*b);
            assert forall|i: int| 0 <= i < l.len() implies is_clause(#[trigger] l[i]) by {
                if i < clauses(*a).len() {
                    assert(l[i] == clauses(*a)[i]);
                } else {
                    assert(l[i] == clauses(*b)[i - clauses(*a).len()]);
                }
            }
        },
        _ => {},
    }
}

/// The disjunctive clauses of a conjunction number the product of the
/// operands' clause counts; those of a disjunction number their sum.
pub proof fn lemma_clause_counts(a: Condition, b: Condition)
    ensures
        disjunctive_clauses(mk_and(a, b)).len() == disjunctive_clauses(a).len()
            * disjunctive_clauses(b).len(),
        disjunctive_clauses(mk_or(a, b)).len() == disjunctive_clauses(a).len()
            + disjunctive_clauses(b).len(),
{
    lemma_and_product_len(disjunctive_clauses(a), disjunctive_clauses(b));
}

/// Every disjunctive clause holds no disjunction, and negates only atoms.
pub proof fn lemma_disjunctive_clauses_are_clauses(c: Condition)
    ensures
        forall|i: int|
            0 <= i < disjunctive_clauses(c).len() ==> is_clause(
                #[trigger] disjunctive_clauses(c)[i],
            ),
{
    lemma_normal_form_is_normal(c);
    lemma_clauses_of_normal(normal_form(c));
}

impl Clone for Condition {
    fn clone(&self) -> Self {
        self.duplicate()
    }
}

impl Condition {
    /// A copy of this condition, equal to it.
    pub fn duplicate(&self) -> (r: Condition)
        ensures
            r == *self,
        decreases self,
    {
        match self {
            Condition::Atom(s) => Condition::Atom(s.clone()),
            Condition::Not(a) => Condition::Not(Box::new(a.duplicate())),
            Condition::And(a, b) => Condition::And(Box::new(a.duplicate()), Box::new(b.duplicate())),
            Condition::Or(a, b) => Condition::Or(Box::new(a.duplicate()), Box::new(b.duplicate())),
        }
    }

    /// An atomic condition with the given test text.
    pub fn atom(s: &str) -> (r: Condition)
        ensures
            r matches Condition::Atom(t) && t@ == s@,
    {
        Condition::Atom(owned(s))
    }

    /// The negation of `self`.
    pub fn not(self) -> (r: Condition)
        ensures
            r == mk_not(self),
    {
        Condition::Not(Box::new(self))
    }

    /// The conjunction of `self` and `rhs`.
    pub fn and(self, rhs: Condition) -> (r: Condition)
        ensures
            r == mk_and(self, rhs),
    {
        Condition::And(Box::new(self), Box::new(rhs))
    }

    /// The disjunction of `self` and `rhs`.
    pub fn or(self, rhs: Condition) -> (r: Condition)
        ensures
            r == mk_or(self, rhs),
    {
        Condition::Or(Box::new(self), Box::new(rhs))
    }

    /// Normalize the condition to eliminate complex negations, using De
    /// Morgan's laws.
    pub fn normalize(&self) -> (r: Condition)
        ensures
            r == normal_form(*self),
            is_normal(r),
        decreases cond_size(*self),
    {
        proof {
            lemma_normal_form_is_normal(*self);
            reveal_with_fuel(cond_size, 2);
        }
        match self {
            Condition::Atom(_) => self.duplicate(),
            Condition::Not(c) => match &**c {
                Condition::Atom(s) => Condition::Not(Box::new(Condition::Atom(s.clone()))),
                Condition::Not(x) => x.normalize(),
                Condition::And(a, b) => {
                    let na = Condition::Not(Box::new(a.duplicate()));
                    let nb = Condition::Not(Box::new(b.duplicate()));
                    Condition::Or(Box::new(na.normalize()), Box::new(nb.normalize()))
                },
                Condition::Or(a, b) => {
                    let na = Condition::Not(Box::new(a.duplicate()));
                    let nb = Condition::Not(Box::new(b.duplicate()));
                    Condition::And(Box::new(na.normalize()), Box::new(nb.normalize()))
                },
            },
            Condition::And(a, b) => Condition::And(Box::new(a.normalize()), Box::new(b.normalize())),
            Condition::Or(a, b) => Condition::Or(Box::new(a.normalize()), Box::new(b.normalize())),
        }
    }

    /// Convert the condition into a truth table: a list of clauses in
    /// disjunction, none holding a disjunction or a complex negation.
    pub fn to_truth_table(&self) -> (r: Vec<Condition>)
        ensures
            r@ == disjunctive_clauses(*self),
    {
        let n = self.normalize();
        n.expand()
    }

    fn expand(&self) -> (r: Vec<Condition>)
        ensures
            r@ == clauses(*self),
        decreases self,
    {
        match self {
            Condition::Or(a, b) => {
                let mut l = a.expand();
                let mut rr = b.expand();
                l.append(&mut rr);
                l
            },
            Condition::And(a, b) => {
                let xs = a.expand();
                let ys = b.expand();
                let mut out: Vec<Condition> = Vec::new();
                let mut i: usize = 0;
                while i < xs.len()
                    invariant
                        i <= xs@.len(),
                        out@ == and_product(xs@.take(i as int), ys@),
                    decreases xs.len() - i,
                {
                    let mut j: usize = 0;
                    let ghost base = out@;
                    while j < ys.len()
                        invariant
                            i < xs@.len(),
                            j <= ys@.len(),
                            out@ == base + ys@.take(j as int).map_values(
                                |y: Condition| mk_and(xs@[i as int], y),
                            ),
                        decreases ys.len() - j,
                    {
                        out.push(Condition::And(Box::new(xs[i].duplicate()), Box::new(ys[j].duplicate())));
                        j = j + 1;
                        proof {
                            assert(ys@.take(j as int).map_values(|y: Condition| mk_and(xs@[i as int], y))
                                =~= ys@.take(j - 1).map_values(|y: Condition| mk_and(xs@[i as int], y)).push(
                                mk_and(xs@[i as int], ys@[j - 1])));
                            assert(out@ =~= base + ys@.take(j as int).map_values(
                                |y: Condition| mk_and(xs@[i as int], y),
                            ));
                        }
                    }
                    proof {
                        assert(ys@.take(j as int) =~= ys@);
                        assert(xs@.take(i + 1).drop_last() =~= xs@.take(i as int));
                    }
                    i = i + 1;
                }
                proof {
                    assert(xs@.take(i as int) =~= xs@);
                }
                out
            },
            _ => {
                let mut v: Vec<Condition> = Vec::new();
                v.push(self.duplicate());
                proof {
                    assert(v@ =~= seq![*self]);
                }
                v
            },
        }
    }

    /// The test syntax of a clause; `None` where a disjunction or a negation
    /// of a compound condition remains.
    pub fn str_cond(&self) -> (r: Option<String>)
        ensures
            r is Some <==> is_clause(*self),
            r matches Some(s) ==> s@ == guard_text(*self),
        decreases self,
    {
        match self {
            Condition::Atom(s) => Some(owned("if ").concat(s.as_str())),
            Condition::Not(n) => match &**n {
                Condition::Atom(s) => Some(owned("unless ").concat(s.as_str())),
                _ => None,
            },
            Condition::And(a, b) => {
                let sa = a.str_cond();
                let sb = b.str_cond();
                match (sa, sb) {
                    (Some(x), Some(y)) => Some(x.concat(" ").concat(y.as_str())),
                    _ => None,
                }
            },
            Condition::Or(_, _) => None,
        }
    }
}

impl Condition {
    /// Compile the condition into the test syntax of each of its
    /// disjunctive clauses.
    pub fn compile(
        &self,
        options: &CompileOptions,
        global_state: &CompilerState,
        function_state: &FunctionCompilerState,
    ) -> (r: Vec<String>)
        ensures
            r@.map_values(|s: String| s@) == guard_lines(*self),
    {
        let table = self.to_truth_table();
        proof {
            lemma_disjunctive_clauses_are_clauses(*self);
        }
        let mut out: Vec<String> = Vec::new();
        let mut i: usize = 0;
        while i < table.len()
            invariant
                i <= table@.len(),
                table@ == disjunctive_clauses(*self),
                forall|k: int| 0 <= k < table@.len() ==> is_clause(#[trigger] table@[k]),
                out@.map_values(|s: String| s@) == table@.take(i as int).map_values(|k: Condition| guard_text(k)),
            decreases table.len() - i,
        {
            assert(is_clause(table@[i as int]));
            let text = match table[i].str_cond() {
                Some(t) => t,
                None => String::new(),
            };
            proof {
                assert(out@.push(text).map_values(|s: String| s@) =~= out@.map_values(|s: String| s@).push(text@));
                assert(table@.take(i + 1).map_values(|k: Condition| guard_text(k)) =~= table@.take(i as int).map_values(
                    |k: Condition| guard_text(k),
                ).push(guard_text(table@[i as int])));
            }
            out.push(text);
            i = i + 1;
        }
        assert(table@.take(i as int) =~= table@);
        out
    }
}

} // verus!
