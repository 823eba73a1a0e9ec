//! Delete a match arm, so the value it matched falls through to a later arm.
use vstd::prelude::*;

use crate::ast::{all_but, indices_but, Arm, Expr, MutLoc, Pat, ResolvedPat};

verus! {

pub const MATCH_ARM_DELETE: &'static str = "match_arm_delete";

/// Delete the match arm with this pattern.
pub struct MatchArmDeleteMutation {
    pub arm_pat: String,
}

impl MatchArmDeleteMutation {
    pub fn op_name(&self) -> (r: &'static str)
        ensures
            r@ == MATCH_ARM_DELETE@,
    {
        MATCH_ARM_DELETE
    }

    pub fn display_name(&self) -> (r: String)
        ensures
            r@ == "delete match arm `"@ + self.arm_pat@ + "`"@,
    {
        let mut r = String::from_str("delete match arm `");
        r.append(self.arm_pat.as_str());
        r.append("`");
        r
    }

    pub fn span_label(&self) -> (r: String)
        ensures
            r@ == "delete match arm"@,
    {
        String::from_str("delete match arm")
    }
}

/// Whether a pattern matches every value: a wildcard, or a binding with no subpattern, in any
/// number of parentheses. A bare identifier is a binding or a unit variant's path, and only
/// resolution knows which: `None` parses exactly like `x` does.
pub open spec fn irrefutable(pat: Pat) -> bool
    decreases pat,
{
    match pat {
        Pat::Paren(inner) => irrefutable(*inner),
        Pat::Resolved(Some(ResolvedPat::Wild)) => true,
        Pat::Resolved(Some(ResolvedPat::Binding { has_subpattern })) => !has_subpattern,
        Pat::Resolved(_) => false,
    }
}

/// Whether a pattern matches every value.
pub fn is_irrefutable(pat: &Pat) -> (r: bool)
    ensures
        r == irrefutable(*pat),
    decreases pat,
{
    match pat {
        Pat::Paren(inner) => is_irrefutable(inner),
        Pat::Resolved(Some(ResolvedPat::Wild)) => true,
        Pat::Resolved(Some(ResolvedPat::Binding { has_subpattern })) => !*has_subpattern,
        Pat::Resolved(_) => false,
    }
}

/// An arm that catches every value that reaches it: no guard, and a pattern that matches all.
pub open spec fn is_catch_all(arm: Arm) -> bool {
    !arm.has_guard && irrefutable(arm.pat_kind)
}

/// The last catch-all arm among the first `m`; -1 if there is none.
pub open spec fn last_catch_all(arms: Seq<Arm>, m: nat) -> int
    decreases m,
{
    if m == 0 {
        -1
    } else if is_catch_all(arms[m - 1]) {
        m - 1
    } else {
        last_catch_all(arms, (m - 1) as nat)
    }
}

proof fn lemma_last_catch_all_bound(arms: Seq<Arm>, m: nat)
    ensures
        -1 <= last_catch_all(arms, m) < m,
    decreases m,
{
    if m > 0 {
        lemma_last_catch_all_bound(arms, (m - 1) as nat);
    }
}

/// For the first `m` arms, one deletion of each that stands before `last` and has a body: the
/// arm's pattern, and the arms the match keeps without it.
pub open spec fn arm_deletions(arms: Seq<Arm>, m: nat, last: int) -> Seq<(Seq<char>, Seq<usize>)>
    decreases m,
{
    if m == 0 {
        Seq::empty()
    } else if m - 1 < last && arms[m - 1].has_body {
        arm_deletions(arms, (m - 1) as nat, last).push(
            (arms[m - 1].pat@, all_but(arms.len(), (m - 1) as nat)),
        )
    } else {
        arm_deletions(arms, (m - 1) as nat, last)
    }
}

/// The mutations of a `match`: a deleted arm's values must still be matched, so only the arms
/// before the last catch-all arm are deleted, and none where there is no catch-all arm: a
/// mutation that does not compile breaks the whole run.
pub open spec fn arm_mutations(loc: MutLoc) -> Seq<(Seq<char>, Seq<usize>)> {
    match loc {
        MutLoc::FnBodyExpr(Expr::Match { arms }) => {
            let last = last_catch_all(arms@, arms@.len());
            if last < 0 {
                Seq::empty()
            } else {
                arm_deletions(arms@, arms@.len(), last)
            }
        },
        _ => Seq::empty(),
    }
}

pub open spec fn mutation_views(ms: Seq<(MatchArmDeleteMutation, Vec<usize>)>) -> Seq<
    (Seq<char>, Seq<usize>),
> {
    ms.map_values(|m: (MatchArmDeleteMutation, Vec<usize>)| (m.0.arm_pat@, m.1@))
}

/// The last catch-all arm, if any.
fn find_last_catch_all(arms: &Vec<Arm>) -> (r: Option<usize>)
    ensures
        match r {
            Some(i) => i as int == last_catch_all(arms@, arms@.len()),
            None => last_catch_all(arms@, arms@.len()) < 0,
        },
{
    let mut m: usize = arms.len();
    while m > 0
        invariant
            m <= arms.len(),
            last_catch_all(arms@, arms@.len()) == last_catch_all(arms@, m as nat),
        decreases m,
    {
        if !arms[m - 1].has_guard && is_irrefutable(&arms[m - 1].pat_kind) {
            return Some(m - 1);
        }
        m -= 1;
    }
    None
}

/// Delete a match arm, so the value it matched falls through to a later arm.
pub struct MatchArmDelete;

impl MatchArmDelete {
    /// One mutation per deletable arm: the arm's pattern, and the indices of the arms the mutated
    /// match keeps, in order.
    pub fn try_apply(&self, loc: &MutLoc) -> (r: Vec<(MatchArmDeleteMutation, Vec<usize>)>)
        ensures
            mutation_views(r@) == arm_mutations(*loc),
    {
        let mut out: Vec<(MatchArmDeleteMutation, Vec<usize>)> = Vec::new();
        let arms = match loc {
            MutLoc::FnBodyExpr(Expr::Match { arms }) => arms,
            _ => {
                proof {
                    assert(mutation_views(out@) =~= arm_mutations(*loc));
                }
                return out;
            },
        };
        let last = match find_last_catch_all(arms) {
            Some(last) => last,
            None => {
                proof {
                    assert(mutation_views(out@) =~= arm_mutations(*loc));
                }
                return out;
            },
        };
        proof {
            lemma_last_catch_all_bound(arms@, arms@.len());
        }
        let mut i: usize = 0;
        while i < arms.len()
            invariant
                i <= arms.len(),
                last < arms.len(),
                last as int == last_catch_all(arms@, arms@.len()),
                mutation_views(out@) == arm_deletions(arms@, i as nat, last as int),
            decreases arms.len() - i,
        {
            if i < last && arms[i].has_body {
                let kept = indices_but(arms.len(), i);
                let ghost before = out@;
                out.push((MatchArmDeleteMutation { arm_pat: arms[i].pat.clone() }, kept));
                proof {
                    assert(mutation_views(out@) =~= mutation_views(before).push(
                        (arms@[i as int].pat@, all_but(arms@.len(), i as nat)),
                    ));
                }
            }
            i += 1;
        }
        out
    }
}

proof fn lemma_deletions_keep(arms: Seq<Arm>, m: nat, last: int, j: int)
    requires
        m <= arms.len(),
        0 <= last < arms.len(),
        0 <= j < arm_deletions(arms, m, last).len(),
    ensures
        exists|i: int|
            0 <= i < last && arm_deletions(arms, m, last)[j] == (arms[i].pat@, all_but(
                arms.len(),
                i as nat,
            )),
    decreases m,
{
    let d = arm_deletions(arms, (m - 1) as nat, last);
    if m - 1 < last && arms[m - 1].has_body {
        if j < d.len() {
            lemma_deletions_keep(arms, (m - 1) as nat, last, j);
            let i = choose|i: int| 0 <= i < last && d[j] == (arms[i].pat@, all_but(arms.len(), i as nat));
            assert(arm_deletions(arms, m, last)[j] == d[j]);
        } else {
            assert(arm_deletions(arms, m, last)[j] == (arms[m - 1].pat@, all_but(arms.len(), (m - 1) as nat)));
        }
    } else {
        lemma_deletions_keep(arms, (m - 1) as nat, last, j);
    }
}

/// Every arm a mutation deletes stands before the last catch-all arm, which every mutated match
/// keeps: so the values the deleted arm matched fall through to a later arm, and the mutated match
/// is still exhaustive.
pub proof fn lemma_mutated_match_keeps_catch_all(arms: Vec<Arm>, j: int)
    requires
        0 <= j < arm_mutations(MutLoc::FnBodyExpr(Expr::Match { arms })).len(),
    ensures
        ({
            let last = last_catch_all(arms@, arms@.len());
            let kept = arm_mutations(MutLoc::FnBodyExpr(Expr::Match { arms }))[j].1;
            &&& 0 <= last < arms@.len()
            &&& is_catch_all(arms@[last])
            &&& kept.contains((last as usize))
        }),
{
    let a = arms@;
    let last = last_catch_all(a, a.len());
    lemma_last_catch_all_bound(a, a.len());
    lemma_last_catch_all_is_catch_all(a, a.len());
    lemma_deletions_keep(a, a.len(), last, j);
    let i = choose|i: int|
        0 <= i < last && arm_deletions(a, a.len(), last)[j] == (a[i].pat@, all_but(
            a.len(),
            i as nat,
        ));
    let kept = all_but(a.len(), i as nat);
    assert(kept[last - 1] == last as usize);
}

proof fn lemma_last_catch_all_is_catch_all(arms: Seq<Arm>, m: nat)
    requires
        last_catch_all(arms, m) >= 0,
    ensures
        is_catch_all(arms[last_catch_all(arms, m)]),
    decreases m,
{
    if m > 0 && !is_catch_all(arms[m - 1]) {
        lemma_last_catch_all_is_catch_all(arms, (m - 1) as nat);
    }
}

} // verus!
