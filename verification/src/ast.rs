//! The syntax the mutation operators look at: a function, or an expression in its body, as far as
//! what each operator decides depends on it.
use vstd::prelude::*;

use crate::fn_return_default::ReturnType;

verus! {

/// A unary operator.
#[derive(Clone, Copy, Debug, PartialEq, Eq, Structural)]
pub enum UnOp {
    /// `!`
    Not,
    /// `-`
    Neg,
    /// `*`
    Deref,
}

/// A pattern as name resolution sees it.
#[derive(Clone, Copy, Debug, PartialEq, Eq, Structural)]
pub enum ResolvedPat {
    /// `_`.
    Wild,
    /// A binding, and whether it binds a subpattern (`x @ ..`).
    Binding { has_subpattern: bool },
    /// Any other pattern, a unit variant's path among them.
    Other,
}

/// A pattern: in parentheses, or as resolution sees it; `None` where resolution has nothing for
/// it.
pub enum Pat {
    Paren(Box<Pat>),
    Resolved(Option<ResolvedPat>),
}

/// An arm of a `match`.
pub struct Arm {
    /// The arm's pattern, as the source prints it.
    pub pat: String,
    /// The arm's pattern, as resolution sees it.
    pub pat_kind: Pat,
    pub has_guard: bool,
    /// Whether the arm has a body, as every arm but one of a never type has.
    pub has_body: bool,
}

/// An expression in a function body.
pub enum Expr {
    /// `continue`, with its label if it has one.
    Continue { label: Option<String> },
    /// `break`, with its label if it has one, and whether it carries a value.
    Break { label: Option<String>, has_value: bool },
    /// `match` over these arms.
    Match { arms: Vec<Arm> },
    /// A struct literal with these fields, and whether it has a base expression (`..base`).
    Struct { fields: Vec<String>, has_base: bool },
    /// A unary operation.
    Unary { op: UnOp },
    /// Any other expression.
    Other,
}

/// A function, as far as an operator reads it.
pub struct FnItem {
    /// The ids of the statements of its body, in order; `None` for a function without a body.
    pub body: Option<Vec<u32>>,
    pub return_type: ReturnType,
}

/// Where an operator is asked to mutate.
pub enum MutLoc {
    Fn(FnItem),
    FnBodyExpr(Expr),
}

/// The indices `0..n` without `i`, in order.
pub open spec fn all_but(n: nat, i: nat) -> Seq<usize> {
    Seq::new((n - 1) as nat, |j: int| if j < i { j as usize } else { (j + 1) as usize })
}

/// The indices `0..n` without `i`, in order.
pub fn indices_but(n: usize, i: usize) -> (r: Vec<usize>)
    requires
        i < n,
    ensures
        r@ == all_but(n as nat, i as nat),
{
    let mut r: Vec<usize> = Vec::new();
    let mut j: usize = 0;
    while j < n
        invariant
            i < n,
            j <= n,
            r@.len() == (if j <= i { j as int } else { j - 1 }),
            forall|t: int|
                0 <= t < r@.len() ==> #[trigger] r@[t] == (if t < i { t } else { t + 1 }),
        decreases n - j,
    {
        if j != i {
            r.push(j);
        }
        j += 1;
    }
    assert(r@ =~= all_but(n as nat, i as nat));
    r
}

/// The indices `all_but(n, i)` are those below `n` but `i`, each once, in increasing order.
pub proof fn lemma_all_but(n: nat, i: nat)
    requires
        i < n,
        n <= usize::MAX + 1,
    ensures
        all_but(n, i).len() == n - 1,
        !all_but(n, i).contains(i as usize),
        forall|j: usize| j < n && j != i ==> #[trigger] all_but(n, i).contains(j),
        forall|a: int, b: int| 0 <= a < b < all_but(n, i).len() ==> all_but(n, i)[a] < all_but(n, i)[b],
        forall|a: int| 0 <= a < all_but(n, i).len() ==> (all_but(n, i)[a] as int) < n,
{
    let s = all_but(n, i);
    assert forall|a: int| 0 <= a < s.len() implies (s[a] as int) != i && (s[a] as int) < n && (s[a]
        as int) == (if a < i { a } else { a + 1 }) by {
    }
    assert forall|j: usize| j < n && j != i implies #[trigger] s.contains(j) by {
        if j < i {
            assert(s[j as int] == j);
        } else {
            assert(s[j - 1] == j);
        }
    }
}

} // verus!
