//! Swap `continue` expressions for `break` expressions and vice versa.
use vstd::prelude::*;

use crate::ast::{Expr, MutLoc};

verus! {

pub const CONTINUE_BREAK_SWAP: &'static str = "continue_break_swap";

/// A `break` without a value or a `continue`, with its label if it has one.
pub enum Jump {
    Break(Option<String>),
    Continue(Option<String>),
}

/// The text of a label, if there is one.
pub open spec fn label_view(label: Option<String>) -> Option<Seq<char>> {
    match label {
        Some(l) => Some(l@),
        None => None,
    }
}

/// A jump as whether it is a `break`, and its label.
pub open spec fn jump_view(j: Jump) -> (bool, Option<Seq<char>>) {
    match j {
        Jump::Break(label) => (true, label_view(label)),
        Jump::Continue(label) => (false, label_view(label)),
    }
}

/// How a jump is named to the user.
pub open spec fn jump_text(j: (bool, Option<Seq<char>>)) -> Seq<char> {
    match j {
        (true, Some(l)) => "break with label `"@ + l + "`"@,
        (true, None) => "break"@,
        (false, Some(l)) => "continue with label `"@ + l + "`"@,
        (false, None) => "continue"@,
    }
}

fn jump_text_of(j: &Jump) -> (r: String)
    ensures
        r@ == jump_text(jump_view(*j)),
{
    match j {
        Jump::Break(Some(l)) => {
            let mut r = String::from_str("break with label `");
            r.append(l.as_str());
            r.append("`");
            r
        },
        Jump::Break(None) => String::from_str("break"),
        Jump::Continue(Some(l)) => {
            let mut r = String::from_str("continue with label `");
            r.append(l.as_str());
            r.append("`");
            r
        },
        Jump::Continue(None) => String::from_str("continue"),
    }
}

/// Swap the original jump for the replacement.
pub struct ContinueBreakSwapMutation {
    pub original_expr: Jump,
    pub replacement_expr: Jump,
}

impl ContinueBreakSwapMutation {
    pub fn op_name(&self) -> (r: &'static str)
        ensures
            r@ == CONTINUE_BREAK_SWAP@,
    {
        CONTINUE_BREAK_SWAP
    }

    pub fn display_name(&self) -> (r: String)
        ensures
            r@ == "swap "@ + jump_text(jump_view(self.original_expr)) + " for "@ + jump_text(
                jump_view(self.replacement_expr),
            ),
    {
        let mut r = String::from_str("swap ");
        let original = jump_text_of(&self.original_expr);
        r.append(original.as_str());
        r.append(" for ");
        let replacement = jump_text_of(&self.replacement_expr);
        r.append(replacement.as_str());
        r
    }

    pub fn span_label(&self) -> (r: String)
        ensures
            r@ == "swap for "@ + jump_text(jump_view(self.replacement_expr)),
    {
        let mut r = String::from_str("swap for ");
        let replacement = jump_text_of(&self.replacement_expr);
        r.append(replacement.as_str());
        r
    }
}

/// The type of the loop a jump goes to.
#[derive(Clone, Copy, Debug, PartialEq, Eq, Structural)]
pub enum LoopType {
    Unit,
    /// `!`: a `loop` with no `break`.
    Never,
    Other,
}

/// The block a loop statement stands in.
pub struct Block {
    /// The ids of its statements, in order.
    pub stmts: Vec<u32>,
    /// Whether it ends in an expression rather than a statement.
    pub has_tail: bool,
    /// Whether the expression the block is, adjusted, has type `()`; `None` where the block is
    /// not an expression.
    pub expr_is_unit: Option<bool>,
}

/// Where a loop stands.
pub enum LoopPlace {
    /// It is not a statement.
    NotStatement,
    /// It is the statement with this id, in this block; `None` where the statement's parent is
    /// not a block.
    Statement { stmt: u32, block: Option<Block> },
}

/// Whether a `loop` of type `!` still type-checks as `()` that may finish: its value coerces to
/// `()`, or it is a statement that code after it does not rely on to diverge.
pub open spec fn may_become_unit(adjusted_unit: bool, place: LoopPlace) -> bool {
    if adjusted_unit {
        true
    } else {
        match place {
            LoopPlace::NotStatement => false,
            LoopPlace::Statement { stmt, block } => match block {
                None => false,
                Some(b) => {
                    let last_in_block = !b.has_tail && b.stmts@.len() > 0 && b.stmts@.last()
                        == stmt;
                    if !last_in_block {
                        true
                    } else {
                        b.expr_is_unit == Some(true)
                    }
                },
            },
        }
    }
}

/// Whether a `loop` of type `!` still type-checks as `()` that may finish.
pub fn loop_may_become_unit(adjusted_unit: bool, place: &LoopPlace) -> (r: bool)
    ensures
        r == may_become_unit(adjusted_unit, *place),
{
    if adjusted_unit {
        return true;
    }
    let (stmt, block) = match place {
        LoopPlace::NotStatement => return false,
        LoopPlace::Statement { stmt, block } => (*stmt, block),
    };
    let b = match block {
        None => return false,
        Some(b) => b,
    };
    let n = b.stmts.len();
    let last_in_block = !b.has_tail && n > 0 && b.stmts[n - 1] == stmt;
    if !last_in_block {
        return true;
    }
    match b.expr_is_unit {
        Some(unit) => unit,
        None => false,
    }
}

/// A place a loop consumes a value from.
pub enum Place {
    /// A local variable, with the ids of the nodes its declaration stands in, innermost first.
    Local { ancestors: Vec<u32> },
    /// A variable a closure captures, with the ids of the nodes its declaration stands in.
    Upvar { ancestors: Vec<u32> },
    Rvalue,
    StaticItem,
}

/// Whether a consumed place is a variable declared outside the loop.
pub open spec fn declared_outside(p: Place, loop_id: u32) -> bool {
    match p {
        Place::Local { ancestors } => !ancestors@.contains(loop_id),
        Place::Upvar { ancestors } => !ancestors@.contains(loop_id),
        _ => false,
    }
}

/// Whether the loop moves a value declared outside it. A `break` after such a move leaves the loop
/// before it could run again; a `continue` in its place would take the moved value round to the
/// next iteration, which the borrow checker rejects.
pub open spec fn moves_outer_value(loop_id: u32, consumed: Seq<Place>) -> bool {
    exists|i: int| 0 <= i < consumed.len() && declared_outside(#[trigger] consumed[i], loop_id)
}

fn contains_id(ids: &Vec<u32>, id: u32) -> (r: bool)
    ensures
        r == ids@.contains(id),
{
    let mut i: usize = 0;
    while i < ids.len()
        invariant
            i <= ids.len(),
            forall|j: int| 0 <= j < i ==> ids@[j] != id,
        decreases ids.len() - i,
    {
        if ids[i] == id {
            return true;
        }
        i += 1;
    }
    false
}

/// Whether the loop moves a value declared outside it.
pub fn loop_moves_outer_value(loop_id: u32, consumed: &Vec<Place>) -> (r: bool)
    ensures
        r == moves_outer_value(loop_id, consumed@),
{
    let mut i: usize = 0;
    while i < consumed.len()
        invariant
            i <= consumed.len(),
            forall|j: int| 0 <= j < i ==> !declared_outside(#[trigger] consumed@[j], loop_id),
        decreases consumed.len() - i,
    {
        let outside = match &consumed[i] {
            Place::Local { ancestors } => !contains_id(ancestors, loop_id),
            Place::Upvar { ancestors } => !contains_id(ancestors, loop_id),
            _ => false,
        };
        if outside {
            return true;
        }
        i += 1;
    }
    false
}

/// What a jump goes to.
pub enum JumpTarget {
    /// A labeled block, which has nothing to `continue`.
    Block,
    /// A loop: its id, its type, whether its type adjusted is `()`, where it stands, and the places
    /// it consumes values from.
    Loop { id: u32, ty: LoopType, adjusted_unit: bool, place: LoopPlace, consumed: Vec<Place> },
}

/// The swap of a jump: a `continue` for a `break`, a `break` without a value for a `continue`,
/// keeping the label, where the swapped loop still compiles: only a `loop` without a `break` has
/// type `!`, so a `break` swapped in for its `continue` makes it `()`; a `continue` swapped in for a
/// `break` after a move out of an outer variable moves it again; and otherwise the loop's type must
/// be `()` or `!`.
pub open spec fn swap_of(loc: MutLoc, target: JumpTarget) -> Option<
    ((bool, Option<Seq<char>>), (bool, Option<Seq<char>>)),
> {
    match loc {
        MutLoc::FnBodyExpr(Expr::Continue { label }) => match target {
            JumpTarget::Loop { id, ty, adjusted_unit, place, consumed } => {
                let compiles = if ty == LoopType::Never {
                    may_become_unit(adjusted_unit, place)
                } else {
                    ty == LoopType::Unit
                };
                if compiles {
                    Some(((false, label_view(label)), (true, label_view(label))))
                } else {
                    None
                }
            },
            JumpTarget::Block => None,
        },
        MutLoc::FnBodyExpr(Expr::Break { label, has_value }) => if has_value {
            None
        } else {
            match target {
                JumpTarget::Loop { id, ty, adjusted_unit, place, consumed } => {
                    let compiles = !moves_outer_value(id, consumed@) && (ty == LoopType::Unit || ty
                        == LoopType::Never);
                    if compiles {
                        Some(((true, label_view(label)), (false, label_view(label))))
                    } else {
                        None
                    }
                },
                JumpTarget::Block => None,
            }
        },
        _ => None,
    }
}

fn clone_label(label: &Option<String>) -> (r: Option<String>)
    ensures
        label_view(r) == label_view(*label),
{
    match label {
        Some(l) => Some(l.clone()),
        None => None,
    }
}

/// Swap `continue` expressions for `break` expressions and vice versa.
pub struct ContinueBreakSwap;

impl ContinueBreakSwap {
    /// The one swap of a jump, if the swapped loop still compiles.
    pub fn try_apply(&self, loc: &MutLoc, target: &JumpTarget) -> (r: Option<ContinueBreakSwapMutation>)
        ensures
            match r {
                Some(m) => swap_of(*loc, *target) == Some(
                    (jump_view(m.original_expr), jump_view(m.replacement_expr)),
                ),
                None => swap_of(*loc, *target).is_none(),
            },
    {
        let (is_continue, label) = match loc {
            MutLoc::FnBodyExpr(Expr::Continue { label }) => (true, label),
            MutLoc::FnBodyExpr(Expr::Break { label, has_value }) => {
                if *has_value {
                    return None;
                }
                (false, label)
            },
            _ => return None,
        };
        let (id, ty, adjusted_unit, place, consumed) = match target {
            JumpTarget::Block => return None,
            JumpTarget::Loop { id, ty, adjusted_unit, place, consumed } => (
                *id,
                *ty,
                *adjusted_unit,
                place,
                consumed,
            ),
        };
        let compiles = if is_continue && ty == LoopType::Never {
            loop_may_become_unit(adjusted_unit, place)
        } else if !is_continue && loop_moves_outer_value(id, consumed) {
            false
        } else {
            ty == LoopType::Unit || ty == LoopType::Never
        };
        if !compiles {
            return None;
        }
        if is_continue {
            Some(
                ContinueBreakSwapMutation {
                    original_expr: Jump::Continue(clone_label(label)),
                    replacement_expr: Jump::Break(clone_label(label)),
                },
            )
        } else {
            Some(
                ContinueBreakSwapMutation {
                    original_expr: Jump::Break(clone_label(label)),
                    replacement_expr: Jump::Continue(clone_label(label)),
                },
            )
        }
    }
}

/// A swap keeps the loop compiling: only a jump to a loop of type `()` or `!` is swapped, never
/// one to a loop that yields another value, nor a `break` with a value, nor a `break` after the
/// loop moved a value declared outside it; the swap puts the other jump in its place, with the
/// same label. A `continue` in a loop of type `()` is always swapped, and so is a `break` without
/// a value in a loop of type `()` or `!` that moves nothing from outside.
pub proof fn lemma_swap_keeps_the_loop_compiling(loc: MutLoc, target: JumpTarget)
    ensures
        swap_of(loc, target) is Some ==> (target matches JumpTarget::Loop { ty, .. } && (ty
            == LoopType::Unit || ty == LoopType::Never)),
        swap_of(loc, target) matches Some(p) ==> p.1.0 == !p.0.0 && p.1.1 == p.0.1,
        loc matches MutLoc::FnBodyExpr(Expr::Continue { label }) ==> (swap_of(loc, target) matches Some(
            p,
        ) ==> !p.0.0 && p.0.1 == label_view(label)),
        loc matches MutLoc::FnBodyExpr(Expr::Break { label, has_value }) ==> (swap_of(loc, target) matches Some(
            p,
        ) ==> p.0.0 && p.0.1 == label_view(label) && !has_value),
        loc matches MutLoc::FnBodyExpr(Expr::Break { .. }) ==> (target matches JumpTarget::Loop {
            id,
            consumed,
            ..
        } && moves_outer_value(id, consumed@) ==> swap_of(loc, target) is None),
        !(loc matches MutLoc::FnBodyExpr(Expr::Continue { .. })) && !(loc matches MutLoc::FnBodyExpr(
            Expr::Break { .. },
        )) ==> swap_of(loc, target) is None,
        loc matches MutLoc::FnBodyExpr(Expr::Continue { .. }) ==> (target matches JumpTarget::Loop {
            ty,
            ..
        } && ty == LoopType::Unit ==> swap_of(loc, target) is Some),
        loc matches MutLoc::FnBodyExpr(Expr::Break { has_value, .. }) ==> (!has_value && (target matches JumpTarget::Loop {
            id,
            ty,
            consumed,
            ..
        } && (ty == LoopType::Unit || ty == LoopType::Never) && !moves_outer_value(id, consumed@))
            ==> swap_of(loc, target) is Some),
{
}

} // verus!
