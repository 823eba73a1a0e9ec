//! Delete a `!` or a `-`, so the operand is used unchanged.
use vstd::prelude::*;

use crate::ast::{Expr, MutLoc, UnOp};

verus! {

pub const UNARY_OP_DELETE: &'static str = "unary_op_delete";

/// Delete the unary operator `op`, putting its operand in the expression's place.
pub struct UnaryOpDeleteMutation {
    pub op: &'static str,
}

impl UnaryOpDeleteMutation {
    pub fn op_name(&self) -> (r: &'static str)
        ensures
            r@ == UNARY_OP_DELETE@,
    {
        UNARY_OP_DELETE
    }

    pub fn display_name(&self) -> (r: String)
        ensures
            r@ == "delete unary operator `"@ + self.op@ + "`"@,
    {
        let mut r = String::from_str("delete unary operator `");
        r.append(self.op);
        r.append("`");
        r
    }

    pub fn span_label(&self) -> (r: String)
        ensures
            r@ == "delete unary operator `"@ + self.op@ + "`"@,
    {
        self.display_name()
    }
}

/// The operator a deletion names: `!` and `-`; none for `*`, which changes the type, so that
/// dropping it would not compile, and every mutation shares one binary.
pub open spec fn deleted_op(loc: MutLoc) -> Option<Seq<char>> {
    match loc {
        MutLoc::FnBodyExpr(Expr::Unary { op: UnOp::Not }) => Some("!"@),
        MutLoc::FnBodyExpr(Expr::Unary { op: UnOp::Neg }) => Some("-"@),
        _ => None,
    }
}

/// Delete a `!` or a `-`, so the operand is used unchanged.
pub struct UnaryOpDelete;

impl UnaryOpDelete {
    /// The one mutation of a unary `!` or `-`; its substitution puts the operand in the
    /// expression's place.
    pub fn try_apply(&self, loc: &MutLoc) -> (r: Option<UnaryOpDeleteMutation>)
        ensures
            match r {
                Some(m) => deleted_op(*loc) == Some(m.op@),
                None => deleted_op(*loc).is_none(),
            },
    {
        match loc {
            MutLoc::FnBodyExpr(Expr::Unary { op: UnOp::Not }) => Some(UnaryOpDeleteMutation { op: "!" }),
            MutLoc::FnBodyExpr(Expr::Unary { op: UnOp::Neg }) => Some(UnaryOpDeleteMutation { op: "-" }),
            _ => None,
        }
    }
}

/// A unary `!` or `-` is deleted, and the mutation names the operator deleted; a `*`, whose
/// operand has another type, is not; nor is anything but a unary operation.
pub proof fn lemma_only_not_and_neg_are_deleted(loc: MutLoc)
    ensures
        loc == MutLoc::FnBodyExpr(Expr::Unary { op: UnOp::Not }) ==> deleted_op(loc) == Some("!"@),
        loc == MutLoc::FnBodyExpr(Expr::Unary { op: UnOp::Neg }) ==> deleted_op(loc) == Some("-"@),
        deleted_op(loc) is Some ==> loc == MutLoc::FnBodyExpr(Expr::Unary { op: UnOp::Not }) || loc
            == MutLoc::FnBodyExpr(Expr::Unary { op: UnOp::Neg }),
        deleted_op(loc) matches Some(op) ==> op.len() == 1,
{
    reveal_strlit("!");
    reveal_strlit("-");
}

} // verus!
