//! Replace a match arm's guard with a fixed value, so the arm always or never applies.
use vstd::prelude::*;

use crate::ast::{Arm, Expr, MutLoc};

verus! {

pub const MATCH_GUARD_VALUE: &'static str = "match_guard_value";

/// Replace a match arm's guard with `value`.
pub struct MatchGuardValueMutation {
    pub value: bool,
}

pub open spec fn guard_display_name(value: bool) -> Seq<char> {
    "replace match arm guard with `"@ + (if value { "true"@ } else { "false"@ }) + "`"@
}

impl MatchGuardValueMutation {
    pub fn op_name(&self) -> (r: &'static str)
        ensures
            r@ == MATCH_GUARD_VALUE@,
    {
        MATCH_GUARD_VALUE
    }

    pub fn display_name(&self) -> (r: String)
        ensures
            r@ == guard_display_name(self.value),
    {
        let mut r = String::from_str("replace match arm guard with `");
        r.append(if self.value { "true" } else { "false" });
        r.append("`");
        r
    }

    pub fn span_label(&self) -> (r: String)
        ensures
            r@ == guard_display_name(self.value),
    {
        self.display_name()
    }
}

/// For the first `m` arms, two mutations for each that has a guard: the guard replaced with
/// `true`, then with `false`; each as the value and the index of the arm.
pub open spec fn guard_replacements(arms: Seq<Arm>, m: nat) -> Seq<(bool, usize)>
    decreases m,
{
    if m == 0 {
        Seq::empty()
    } else if arms[m - 1].has_guard {
        guard_replacements(arms, (m - 1) as nat) + seq![
            (true, (m - 1) as usize),
            (false, (m - 1) as usize),
        ]
    } else {
        guard_replacements(arms, (m - 1) as nat)
    }
}

/// The mutations of a `match`: a guard never contributes to exhaustiveness, so a fixed value
/// always type-checks.
pub open spec fn guard_mutations(loc: MutLoc) -> Seq<(bool, usize)> {
    match loc {
        MutLoc::FnBodyExpr(Expr::Match { arms }) => guard_replacements(arms@, arms@.len()),
        _ => Seq::empty(),
    }
}

pub open spec fn mutation_views(ms: Seq<(MatchGuardValueMutation, usize)>) -> Seq<(bool, usize)> {
    ms.map_values(|m: (MatchGuardValueMutation, usize)| (m.0.value, m.1))
}

/// Replace a match arm's guard with a fixed value.
pub struct MatchGuardValue;

impl MatchGuardValue {
    /// Two mutations per guarded arm, each with the index of the arm whose guard becomes the value.
    pub fn try_apply(&self, loc: &MutLoc) -> (r: Vec<(MatchGuardValueMutation, usize)>)
        ensures
            mutation_views(r@) == guard_mutations(*loc),
    {
        let mut out: Vec<(MatchGuardValueMutation, usize)> = Vec::new();
        let arms = match loc {
            MutLoc::FnBodyExpr(Expr::Match { arms }) => arms,
            _ => {
                proof {
                    assert(mutation_views(out@) =~= guard_mutations(*loc));
                }
                return out;
            },
        };
        let mut i: usize = 0;
        while i < arms.len()
            invariant
                i <= arms.len(),
                mutation_views(out@) == guard_replacements(arms@, i as nat),
            decreases arms.len() - i,
        {
            if arms[i].has_guard {
                let ghost before = out@;
                out.push((MatchGuardValueMutation { value: true }, i));
                out.push((MatchGuardValueMutation { value: false }, i));
                proof {
                    assert(mutation_views(out@) =~= mutation_views(before) + seq![(true, i), (false, i)]);
                }
            }
            i += 1;
        }
        out
    }
}

proof fn lemma_guard_replacements(arms: Seq<Arm>, m: nat)
    requires
        m <= arms.len(),
        arms.len() <= usize::MAX,
    ensures
        forall|i: int|
            0 <= i < m && (#[trigger] arms[i]).has_guard ==> guard_replacements(arms, m).contains(
                (true, i as usize),
            ) && guard_replacements(arms, m).contains((false, i as usize)),
        forall|k: int|
            0 <= k < guard_replacements(arms, m).len() ==> (#[trigger] guard_replacements(arms, m)[k]).1
                < m && arms[guard_replacements(arms, m)[k].1 as int].has_guard,
    decreases m,
{
    if m > 0 {
        let prev = guard_replacements(arms, (m - 1) as nat);
        lemma_guard_replacements(arms, (m - 1) as nat);
        let cur = guard_replacements(arms, m);
        if arms[m - 1].has_guard {
            let tail = seq![(true, (m - 1) as usize), (false, (m - 1) as usize)];
            assert(cur == prev + tail);
            assert forall|i: int| 0 <= i < m && (#[trigger] arms[i]).has_guard implies cur.contains(
                (true, i as usize),
            ) && cur.contains((false, i as usize)) by {
                if i < m - 1 {
                    let a = choose|a: int| 0 <= a < prev.len() && prev[a] == (true, i as usize);
                    let b = choose|b: int| 0 <= b < prev.len() && prev[b] == (false, i as usize);
                    assert(cur[a] == prev[a]);
                    assert(cur[b] == prev[b]);
                } else {
                    assert(cur[prev.len() as int] == (true, i as usize));
                    assert(cur[prev.len() + 1int] == (false, i as usize));
                }
            }
            assert forall|k: int| 0 <= k < cur.len() implies (#[trigger] cur[k]).1 < m
                && arms[cur[k].1 as int].has_guard by {
                if k < prev.len() {
                    assert(cur[k] == prev[k]);
                } else {
                    assert(cur[k] == tail[k - prev.len()]);
                    assert(((m - 1) as usize) as int == m - 1);
                }
            }
        } else {
            assert forall|i: int| 0 <= i < m && (#[trigger] arms[i]).has_guard implies cur.contains(
                (true, i as usize),
            ) && cur.contains((false, i as usize)) by {
                assert(i < m - 1);
            }
        }
    }
}

/// Every arm with a guard has it fixed both ways, to `true` and to `false`, whatever its pattern;
/// and every mutation fixes the guard of an arm that has one.
pub proof fn lemma_every_guard_fixed_both_ways(arms: Vec<Arm>)
    ensures
        forall|i: int|
            0 <= i < arms@.len() && (#[trigger] arms@[i]).has_guard ==> guard_mutations(
                MutLoc::FnBodyExpr(Expr::Match { arms }),
            ).contains((true, i as usize)) && guard_mutations(
                MutLoc::FnBodyExpr(Expr::Match { arms }),
            ).contains((false, i as usize)),
        forall|k: int|
            0 <= k < guard_mutations(MutLoc::FnBodyExpr(Expr::Match { arms })).len() ==> {
                let m = #[trigger] guard_mutations(MutLoc::FnBodyExpr(Expr::Match { arms }))[k];
                m.1 < arms@.len() && arms@[m.1 as int].has_guard
            },
{
    assert(arms@.len() == arms.len());
    lemma_guard_replacements(arms@, arms@.len());
}

} // verus!
