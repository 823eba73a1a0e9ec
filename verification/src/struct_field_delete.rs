//! Drop a field from a struct literal that has a base expression, so the base's value is used.
use vstd::prelude::*;

use crate::ast::{all_but, indices_but, lemma_all_but, Expr, MutLoc};

verus! {

pub const STRUCT_FIELD_DELETE: &'static str = "struct_field_delete";

/// Take the field from the base expression instead of the value given.
pub struct StructFieldDeleteMutation {
    pub field_ident: String,
}

impl StructFieldDeleteMutation {
    pub fn op_name(&self) -> (r: &'static str)
        ensures
            r@ == STRUCT_FIELD_DELETE@,
    {
        STRUCT_FIELD_DELETE
    }

    pub fn display_name(&self) -> (r: String)
        ensures
            r@ == "take `"@ + self.field_ident@ + "` from the base expression instead of the value given"@,
    {
        let mut r = String::from_str("take `");
        r.append(self.field_ident.as_str());
        r.append("` from the base expression instead of the value given");
        r
    }

    pub fn span_label(&self) -> (r: String)
        ensures
            r@ == "take `"@ + self.field_ident@ + "` from the base expression"@,
    {
        let mut r = String::from_str("take `");
        r.append(self.field_ident.as_str());
        r.append("` from the base expression");
        r
    }
}

/// For the first `m` fields, the field's name and the fields the literal keeps without it.
pub open spec fn field_deletions(fields: Seq<String>, m: nat) -> Seq<(Seq<char>, Seq<usize>)>
    decreases m,
{
    if m == 0 {
        Seq::empty()
    } else {
        field_deletions(fields, (m - 1) as nat).push(
            (fields[m - 1]@, all_but(fields.len(), (m - 1) as nat)),
        )
    }
}

/// One mutation per field of a struct literal with a base expression; none without one, where the
/// field is required and omitting it would not compile.
pub open spec fn struct_mutations(loc: MutLoc) -> Seq<(Seq<char>, Seq<usize>)> {
    match loc {
        MutLoc::FnBodyExpr(Expr::Struct { fields, has_base }) => if has_base {
            field_deletions(fields@, fields@.len())
        } else {
            Seq::empty()
        },
        _ => Seq::empty(),
    }
}

pub open spec fn mutation_views(ms: Seq<(StructFieldDeleteMutation, Vec<usize>)>) -> Seq<
    (Seq<char>, Seq<usize>),
> {
    ms.map_values(|m: (StructFieldDeleteMutation, Vec<usize>)| (m.0.field_ident@, m.1@))
}

/// Drop a field from a struct literal that has a base expression.
pub struct StructFieldDelete;

impl StructFieldDelete {
    /// One mutation per field: the field's name, and the indices of the fields the mutated literal
    /// keeps, in order.
    pub fn try_apply(&self, loc: &MutLoc) -> (r: Vec<(StructFieldDeleteMutation, Vec<usize>)>)
        ensures
            mutation_views(r@) == struct_mutations(*loc),
    {
        let mut out: Vec<(StructFieldDeleteMutation, Vec<usize>)> = Vec::new();
        let fields = match loc {
            MutLoc::FnBodyExpr(Expr::Struct { fields, has_base }) => {
                if !*has_base {
                    proof {
                        assert(mutation_views(out@) =~= struct_mutations(*loc));
                    }
                    return out;
                }
                fields
            },
            _ => {
                proof {
                    assert(mutation_views(out@) =~= struct_mutations(*loc));
                }
                return out;
            },
        };
        let mut i: usize = 0;
        while i < fields.len()
            invariant
                i <= fields.len(),
                mutation_views(out@) == field_deletions(fields@, i as nat),
            decreases fields.len() - i,
        {
            let kept = indices_but(fields.len(), i);
            let ghost before = out@;
            out.push((StructFieldDeleteMutation { field_ident: fields[i].clone() }, kept));
            proof {
                assert(mutation_views(out@) =~= mutation_views(before).push(
                    (fields@[i as int]@, all_but(fields@.len(), i as nat)),
                ));
            }
            i += 1;
        }
        out
    }
}

proof fn lemma_field_deletions(fields: Seq<String>, m: nat)
    requires
        m <= fields.len(),
    ensures
        field_deletions(fields, m).len() == m,
        forall|i: int|
            0 <= i < m ==> #[trigger] field_deletions(fields, m)[i] == (fields[i]@, all_but(
                fields.len(),
                i as nat,
            )),
    decreases m,
{
    if m > 0 {
        lemma_field_deletions(fields, (m - 1) as nat);
    }
}

/// A struct literal with a base expression has one mutation per field, in order: the `i`th takes
/// field `i` from the base, and keeps every other field, each once, in order. One without a base,
/// where every field is required, has none.
pub proof fn lemma_each_field_taken_from_the_base(fields: Vec<String>, has_base: bool)
    ensures
        ({
            let ms = struct_mutations(MutLoc::FnBodyExpr(Expr::Struct { fields, has_base }));
            &&& !has_base ==> ms.len() == 0
            &&& has_base ==> ms.len() == fields@.len()
            &&& has_base ==> forall|i: int|
                0 <= i < fields@.len() ==> {
                    let kept = (#[trigger] ms[i]).1;
                    &&& ms[i].0 == fields@[i]@
                    &&& kept.len() == fields@.len() - 1
                    &&& !kept.contains(i as usize)
                    &&& forall|j: usize| j < fields@.len() && j != i ==> #[trigger] kept.contains(j)
                    &&& forall|a: int, b: int| 0 <= a < b < kept.len() ==> kept[a] < kept[b]
                }
        }),
{
    assert(fields@.len() == fields.len());
    let ms = struct_mutations(MutLoc::FnBodyExpr(Expr::Struct { fields, has_base }));
    if has_base {
        lemma_field_deletions(fields@, fields@.len());
        assert forall|i: int| 0 <= i < fields@.len() implies {
            let kept = (#[trigger] ms[i]).1;
            &&& ms[i].0 == fields@[i]@
            &&& kept.len() == fields@.len() - 1
            &&& !kept.contains(i as usize)
            &&& forall|j: usize| j < fields@.len() && j != i ==> #[trigger] kept.contains(j)
            &&& forall|a: int, b: int| 0 <= a < b < kept.len() ==> kept[a] < kept[b]
        } by {
            lemma_all_but(fields@.len(), i as nat);
        }
    }
}

} // verus!
