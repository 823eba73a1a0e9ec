//! Return a fixed value from a function without running its body, to check that some test depends
//! on what the function computes rather than on it merely being called.
use vstd::prelude::*;

use crate::ast::{FnItem, MutLoc};

verus! {

pub const FN_RETURN_DEFAULT: &'static str = "fn_return_default";

/// Nesting past this is where the count grows faster than the value it adds.
pub const MAX_TY_DEPTH: u32 = 3;

/// The return type of a function, as far as the values worth returning in its place depend on it.
pub enum ReturnType {
    Bool,
    /// A signed integer of any width.
    Int,
    /// An unsigned integer of any width.
    Uint,
    /// A floating-point number of any width.
    Float,
    /// `()`.
    Unit,
    /// `&str`, of any lifetime.
    StrRef,
    Result(Box<ReturnType>),
    Option(Box<ReturnType>),
    Vec(Box<ReturnType>),
    String,
    /// Any other type, and whether it implements `Default`.
    Other { has_default: bool },
}

/// The text of a floating-point literal.
#[derive(Clone, Copy, Debug, PartialEq, Eq, Structural)]
pub enum FloatLit {
    Zero,
    One,
}

/// The contents of a string literal.
#[derive(Clone, Copy, Debug, PartialEq, Eq, Structural)]
pub enum StrLit {
    Empty,
    Xyzzy,
}

/// The expression a mutated function returns.
pub enum ValueExpr {
    /// `Default::default()`.
    DefaultCall,
    Bool(bool),
    Int(i64),
    Float(FloatLit),
    Neg(Box<ValueExpr>),
    /// `()`.
    Unit,
    Str(StrLit),
    /// `Ok(..)`.
    OkCall(Box<ValueExpr>),
    /// `Some(..)`.
    SomeCall(Box<ValueExpr>),
    /// `None`.
    NonePath,
    /// `Vec::from([..])` of one element.
    VecFrom(Box<ValueExpr>),
    /// `String::from(..)`.
    StringFrom(Box<ValueExpr>),
}

/// A value a function could return instead of computing one, with the source text to name it by.
pub struct Replacement {
    pub value: String,
    pub expr: ValueExpr,
}

impl Replacement {
    pub open spec fn view(&self) -> (Seq<char>, ValueExpr) {
        (self.value@, self.expr)
    }

    pub fn new(value: String, expr: ValueExpr) -> (r: Self)
        ensures
            r.value@ == value@,
            r.expr == expr,
    {
        Replacement { value, expr }
    }
}

/// What the replacements hold, in order.
pub open spec fn replacement_views(rs: Seq<Replacement>) -> Seq<(Seq<char>, ValueExpr)> {
    rs.map_values(|r: Replacement| r.view())
}

/// Whether the type implements `Default`: every one named here does but `Result`.
pub open spec fn has_default(ty: ReturnType) -> bool {
    match ty {
        ReturnType::Result(_) => false,
        ReturnType::Other { has_default } => has_default,
        _ => true,
    }
}

/// What any type falls back to: its default, if it has one.
pub open spec fn default_only(ty: ReturnType) -> Seq<(Seq<char>, ValueExpr)> {
    if has_default(ty) {
        seq![("Default::default()"@, ValueExpr::DefaultCall)]
    } else {
        Seq::empty()
    }
}

/// Each of the inner values, named and built through a constructor.
pub open spec fn wrap_all(
    inner: Seq<(Seq<char>, ValueExpr)>,
    name: Seq<char>,
    ctor: spec_fn(ValueExpr) -> ValueExpr,
) -> Seq<(Seq<char>, ValueExpr)> {
    inner.map_values(
        |r: (Seq<char>, ValueExpr)| (name + "("@ + r.0 + ")"@, ctor(r.1)),
    )
}

/// Each of the inner values, as the one element of a vector.
pub open spec fn vec_of_each(inner: Seq<(Seq<char>, ValueExpr)>) -> Seq<(Seq<char>, ValueExpr)> {
    inner.map_values(
        |r: (Seq<char>, ValueExpr)|
            ("Vec::from(["@ + r.0 + "])"@, ValueExpr::VecFrom(Box::new(r.1))),
    )
}

/// Values worth returning in place of `ty`, nested `depth` deep: both booleans, a few numbers, an
/// empty and a made-up string, and each value of a wrapped type wrapped in turn; what has none of
/// these is worth only its default, and so is anything nested too deep.
pub open spec fn replacements_of(ty: ReturnType, depth: nat) -> Seq<(Seq<char>, ValueExpr)>
    decreases ty,
{
    if depth > MAX_TY_DEPTH {
        default_only(ty)
    } else {
        match ty {
            ReturnType::Bool => seq![
                ("false"@, ValueExpr::Bool(false)),
                ("true"@, ValueExpr::Bool(true)),
            ],
            ReturnType::Int => seq![
                ("0"@, ValueExpr::Int(0)),
                ("1"@, ValueExpr::Int(1)),
                ("-1"@, ValueExpr::Int(-1i64)),
            ],
            ReturnType::Uint => seq![("0"@, ValueExpr::Int(0)), ("1"@, ValueExpr::Int(1))],
            ReturnType::Float => seq![
                ("0.0"@, ValueExpr::Float(FloatLit::Zero)),
                ("1.0"@, ValueExpr::Float(FloatLit::One)),
                ("-1.0"@, ValueExpr::Neg(Box::new(ValueExpr::Float(FloatLit::One)))),
            ],
            ReturnType::Unit => seq![("()"@, ValueExpr::Unit)],
            ReturnType::StrRef => seq![
                ("\"\""@, ValueExpr::Str(StrLit::Empty)),
                ("\"xyzzy\""@, ValueExpr::Str(StrLit::Xyzzy)),
            ],
            ReturnType::Result(inner) => wrap_all(
                replacements_of(*inner, depth + 1),
                "Ok"@,
                |e: ValueExpr| ValueExpr::OkCall(Box::new(e)),
            ),
            ReturnType::Option(inner) => seq![("None"@, ValueExpr::NonePath)] + wrap_all(
                replacements_of(*inner, depth + 1),
                "Some"@,
                |e: ValueExpr| ValueExpr::SomeCall(Box::new(e)),
            ),
            ReturnType::Vec(inner) => seq![("Vec::new()"@, ValueExpr::DefaultCall)] + vec_of_each(
                replacements_of(*inner, depth + 1),
            ),
            ReturnType::String => seq![
                ("String::new()"@, ValueExpr::DefaultCall),
                (
                    "String::from(\"xyzzy\")"@,
                    ValueExpr::StringFrom(Box::new(ValueExpr::Str(StrLit::Xyzzy))),
                ),
            ],
            ReturnType::Other { .. } => default_only(ty),
        }
    }
}

fn one(value: &str, expr: ValueExpr) -> (r: Replacement)
    ensures
        r.view() == (value@, expr),
{
    Replacement::new(String::from_str(value), expr)
}

fn default_replacements(ty: &ReturnType) -> (r: Vec<Replacement>)
    ensures
        replacement_views(r@) == default_only(*ty),
{
    let has = match ty {
        ReturnType::Result(_) => false,
        ReturnType::Other { has_default } => *has_default,
        _ => true,
    };
    let mut r: Vec<Replacement> = Vec::new();
    if has {
        r.push(one("Default::default()", ValueExpr::DefaultCall));
    }
    proof {
        assert(replacement_views(r@) =~= default_only(*ty));
    }
    r
}

/// How a wrapped value is built around the inner one.
#[derive(Clone, Copy, Debug, PartialEq, Eq, Structural)]
pub enum Wrapper {
    OkCall,
    SomeCall,
    VecFrom,
}

pub open spec fn wrap_spec(w: Wrapper, r: (Seq<char>, ValueExpr)) -> (Seq<char>, ValueExpr) {
    match w {
        Wrapper::OkCall => ("Ok"@ + "("@ + r.0 + ")"@, ValueExpr::OkCall(Box::new(r.1))),
        Wrapper::SomeCall => ("Some"@ + "("@ + r.0 + ")"@, ValueExpr::SomeCall(Box::new(r.1))),
        Wrapper::VecFrom => ("Vec::from(["@ + r.0 + "])"@, ValueExpr::VecFrom(Box::new(r.1))),
    }
}

fn wrap_one(w: Wrapper, r: Replacement) -> (out: Replacement)
    ensures
        out.view() == wrap_spec(w, r.view()),
{
    let Replacement { value, expr } = r;
    match w {
        Wrapper::OkCall => {
            let mut s = String::from_str("Ok");
            s.append("(");
            s.append(value.as_str());
            s.append(")");
            Replacement::new(s, ValueExpr::OkCall(Box::new(expr)))
        },
        Wrapper::SomeCall => {
            let mut s = String::from_str("Some");
            s.append("(");
            s.append(value.as_str());
            s.append(")");
            Replacement::new(s, ValueExpr::SomeCall(Box::new(expr)))
        },
        Wrapper::VecFrom => {
            let mut s = String::from_str("Vec::from([");
            s.append(value.as_str());
            s.append("])");
            Replacement::new(s, ValueExpr::VecFrom(Box::new(expr)))
        },
    }
}

/// Appends each of `inner`, wrapped.
fn push_wrapped(out: &mut Vec<Replacement>, inner: Vec<Replacement>, w: Wrapper)
    ensures
        replacement_views(final(out)@) == replacement_views(old(out)@) + replacement_views(inner@).map_values(
            |r: (Seq<char>, ValueExpr)| wrap_spec(w, r),
        ),
{
    let mut inner = inner;
    let ghost all = replacement_views(inner@);
    let ghost start = replacement_views(out@);
    let ghost mut k: int = 0;
    while inner.len() > 0
        invariant
            0 <= k <= all.len(),
            inner@.len() == all.len() - k,
            replacement_views(inner@) == all.skip(k as int),
            replacement_views(out@) == start + all.take(k as int).map_values(|r: (Seq<char>, ValueExpr)| wrap_spec(w, r)),
        decreases inner.len(),
    {
        let ghost before_inner = inner@;
        let ghost before_out = out@;
        let r = inner.remove(0);
        proof {
            assert(r == before_inner[0]);
            assert(all.skip(k as int)[0] == all[k as int]);
            assert(replacement_views(before_inner)[0] == all[k as int]);
            assert(r.view() == all[k as int]);
            assert(replacement_views(inner@) =~= replacement_views(before_inner).drop_first());
        }
        out.push(wrap_one(w, r));
        proof {
            assert(replacement_views(out@) =~= replacement_views(before_out).push(wrap_spec(w, all[k as int])));
            assert(start + all.take(k as int + 1).map_values(|r: (Seq<char>, ValueExpr)| wrap_spec(w, r)) =~= start + all.take(k as int).map_values(|r: (Seq<char>, ValueExpr)| wrap_spec(w, r)).push(wrap_spec(w, all[k as int])));
            assert(all.take(k as int + 1).map_values(|r: (Seq<char>, ValueExpr)| wrap_spec(w, r)) =~= all.take(k as int).map_values(|r: (Seq<char>, ValueExpr)| wrap_spec(w, r)).push(wrap_spec(w, all[k as int])));
            assert(all.skip(k as int).drop_first() =~= all.skip(k as int + 1));
            assert(replacement_views(out@) =~= start + all.take(k as int + 1).map_values(|r: (Seq<char>, ValueExpr)| wrap_spec(w, r)));
        }
        proof {
            k = k + 1;
        }
    }
    proof {
        assert(all.take(k as int) =~= all);
    }
}

/// Values worth returning in place of `ty`, nested `depth` deep. Every one must type-check: all
/// mutations compile into one binary, so an unviable one is a build failure, not a discarded one.
pub fn replacements(ty: &ReturnType, depth: u32) -> (r: Vec<Replacement>)
    ensures
        replacement_views(r@) == replacements_of(*ty, depth as nat),
    decreases ty,
{
    if depth > MAX_TY_DEPTH {
        return default_replacements(ty);
    }
    let mut out: Vec<Replacement> = Vec::new();
    match ty {
        ReturnType::Bool => {
            out.push(one("false", ValueExpr::Bool(false)));
            out.push(one("true", ValueExpr::Bool(true)));
        },
        ReturnType::Int => {
            out.push(one("0", ValueExpr::Int(0)));
            out.push(one("1", ValueExpr::Int(1)));
            out.push(one("-1", ValueExpr::Int(-1)));
        },
        ReturnType::Uint => {
            out.push(one("0", ValueExpr::Int(0)));
            out.push(one("1", ValueExpr::Int(1)));
        },
        ReturnType::Float => {
            out.push(one("0.0", ValueExpr::Float(FloatLit::Zero)));
            out.push(one("1.0", ValueExpr::Float(FloatLit::One)));
            out.push(one("-1.0", ValueExpr::Neg(Box::new(ValueExpr::Float(FloatLit::One)))));
        },
        ReturnType::Unit => {
            out.push(one("()", ValueExpr::Unit));
        },
        ReturnType::StrRef => {
            out.push(one("\"\"", ValueExpr::Str(StrLit::Empty)));
            out.push(one("\"xyzzy\"", ValueExpr::Str(StrLit::Xyzzy)));
        },
        ReturnType::Result(inner) => {
            let values = replacements(inner, depth + 1);
            push_wrapped(&mut out, values, Wrapper::OkCall);
            proof {
                assert(replacement_views(values@).map_values(|r: (Seq<char>, ValueExpr)| wrap_spec(Wrapper::OkCall, r))
                    =~= replacements_of(*ty, depth as nat));
            }
        },
        ReturnType::Option(inner) => {
            out.push(one("None", ValueExpr::NonePath));
            let values = replacements(inner, depth + 1);
            push_wrapped(&mut out, values, Wrapper::SomeCall);
            proof {
                assert(replacement_views(values@).map_values(|r: (Seq<char>, ValueExpr)| wrap_spec(Wrapper::SomeCall, r))
                    =~= wrap_all(replacements_of(**inner, depth as nat + 1), "Some"@, |e: ValueExpr| ValueExpr::SomeCall(Box::new(e))));
            }
        },
        ReturnType::Vec(inner) => {
            out.push(one("Vec::new()", ValueExpr::DefaultCall));
            let values = replacements(inner, depth + 1);
            push_wrapped(&mut out, values, Wrapper::VecFrom);
            proof {
                assert(replacement_views(values@).map_values(|r: (Seq<char>, ValueExpr)| wrap_spec(Wrapper::VecFrom, r))
                    =~= vec_of_each(replacements_of(**inner, depth as nat + 1)));
            }
        },
        ReturnType::String => {
            out.push(one("String::new()", ValueExpr::DefaultCall));
            out.push(one("String::from(\"xyzzy\")", ValueExpr::StringFrom(Box::new(ValueExpr::Str(StrLit::Xyzzy)))));
        },
        ReturnType::Other { .. } => {
            return default_replacements(ty);
        },
    }
    proof {
        assert(replacement_views(out@) =~= replacements_of(*ty, depth as nat));
    }
    out
}

/// Whether the expression type-checks as a value of `ty`: a default only where the type has one,
/// a negative integer only where it is signed, and a wrapped value only around a value of the
/// wrapped type.
pub open spec fn type_checks(e: ValueExpr, ty: ReturnType) -> bool
    decreases e,
{
    match e {
        ValueExpr::DefaultCall => has_default(ty),
        ValueExpr::Bool(_) => ty is Bool,
        ValueExpr::Int(n) => ty is Int || (ty is Uint && n >= 0),
        ValueExpr::Float(_) => ty is Float,
        ValueExpr::Neg(inner) => (ty is Int || ty is Float) && type_checks(*inner, ty),
        ValueExpr::Unit => ty is Unit,
        ValueExpr::Str(_) => ty is StrRef,
        ValueExpr::OkCall(inner) => match ty {
            ReturnType::Result(t) => type_checks(*inner, *t),
            _ => false,
        },
        ValueExpr::SomeCall(inner) => match ty {
            ReturnType::Option(t) => type_checks(*inner, *t),
            _ => false,
        },
        ValueExpr::NonePath => ty is Option,
        ValueExpr::VecFrom(inner) => match ty {
            ReturnType::Vec(t) => type_checks(*inner, *t),
            _ => false,
        },
        ValueExpr::StringFrom(inner) => ty is String && type_checks(*inner, ReturnType::StrRef),
    }
}

/// Every value worth returning in place of a type type-checks as that type: all mutations compile
/// into one binary, where one that does not would fail the whole build.
pub proof fn lemma_replacements_type_check(ty: ReturnType, depth: nat)
    ensures
        forall|i: int|
            0 <= i < replacements_of(ty, depth).len() ==> type_checks(
                (#[trigger] replacements_of(ty, depth)[i]).1,
                ty,
            ),
    decreases ty,
{
    if depth <= MAX_TY_DEPTH {
        match ty {
            ReturnType::Result(inner) => {
                lemma_replacements_type_check(*inner, depth + 1);
                let rs = replacements_of(ty, depth);
                let ws = wrap_all(
                    replacements_of(*inner, depth + 1),
                    "Ok"@,
                    |e: ValueExpr| ValueExpr::OkCall(Box::new(e)),
                );
                assert forall|i: int| 0 <= i < rs.len() implies type_checks((#[trigger] rs[i]).1, ty) by {
                    assert(rs[i] == ws[i]);
                }
            },
            ReturnType::Option(inner) => {
                lemma_replacements_type_check(*inner, depth + 1);
                let rs = replacements_of(ty, depth);
                let ws = wrap_all(
                    replacements_of(*inner, depth + 1),
                    "Some"@,
                    |e: ValueExpr| ValueExpr::SomeCall(Box::new(e)),
                );
                assert forall|i: int| 0 <= i < rs.len() implies type_checks((#[trigger] rs[i]).1, ty) by {
                    if i > 0 {
                        assert(rs[i] == ws[i - 1]);
                    }
                }
            },
            ReturnType::Vec(inner) => {
                lemma_replacements_type_check(*inner, depth + 1);
                let rs = replacements_of(ty, depth);
                let ws = vec_of_each(replacements_of(*inner, depth + 1));
                assert forall|i: int| 0 <= i < rs.len() implies type_checks((#[trigger] rs[i]).1, ty) by {
                    if i > 0 {
                        assert(rs[i] == ws[i - 1]);
                    }
                }
            },
            _ => {
                let rs = replacements_of(ty, depth);
                assert forall|i: int| 0 <= i < rs.len() implies type_checks((#[trigger] rs[i]).1, ty) by {
                    if i == 0 {
                    } else if i == 1 {
                        if ty is String {
                            assert(type_checks(ValueExpr::Str(StrLit::Xyzzy), ReturnType::StrRef));
                        }
                    } else {
                        if ty is Float {
                            assert(type_checks(ValueExpr::Float(FloatLit::One), ty));
                        }
                    }
                }
            },
        }
    }
}

/// A statement id no statement of the source has; inserted statements carry it.
pub const DUMMY_NODE_ID: u32 = 0xFFFF_FF00;

/// A `return` of this value, inserted before this statement.
pub struct ReturnBefore {
    pub stmt: u32,
    pub expr: ValueExpr,
}

/// Return `value` without evaluating the function body.
pub struct FnReturnDefaultMutation {
    pub value: String,
}

pub open spec fn display_name_of(value: Seq<char>) -> Seq<char> {
    "return `"@ + value + "` without evaluating the function body"@
}

impl FnReturnDefaultMutation {
    pub fn op_name(&self) -> (r: &'static str)
        ensures
            r@ == FN_RETURN_DEFAULT@,
    {
        FN_RETURN_DEFAULT
    }

    pub fn display_name(&self) -> (r: String)
        ensures
            r@ == display_name_of(self.value@),
    {
        let mut r = String::from_str("return `");
        r.append(self.value.as_str());
        r.append("` without evaluating the function body");
        r
    }

    pub fn span_label(&self) -> (r: String)
        ensures
            r@ == display_name_of(self.value@),
    {
        self.display_name()
    }
}

/// The first statement that is the source's own.
pub open spec fn first_valid_stmt(stmts: Seq<u32>) -> Option<u32>
    decreases stmts.len(),
{
    if stmts.len() == 0 {
        None
    } else if stmts[0] != DUMMY_NODE_ID {
        Some(stmts[0])
    } else {
        first_valid_stmt(stmts.drop_first())
    }
}

/// The mutations of a function: one per replacement value of its return type, each a `return` of
/// that value before the first of its own statements; none for a function without such a statement.
pub open spec fn fn_mutations(loc: MutLoc) -> Seq<(Seq<char>, u32, ValueExpr)> {
    match loc {
        MutLoc::Fn(f) => fn_item_mutations(f),
        _ => Seq::empty(),
    }
}

pub open spec fn fn_item_mutations(f: FnItem) -> Seq<(Seq<char>, u32, ValueExpr)> {
    match f.body {
        None => Seq::empty(),
        Some(stmts) => match first_valid_stmt(stmts@) {
            None => Seq::empty(),
            Some(stmt) => replacements_of(f.return_type, 0).map_values(
                |r: (Seq<char>, ValueExpr)| (r.0, stmt, r.1),
            ),
        },
    }
}

pub open spec fn mutation_views(ms: Seq<(FnReturnDefaultMutation, ReturnBefore)>) -> Seq<
    (Seq<char>, u32, ValueExpr),
> {
    ms.map_values(
        |m: (FnReturnDefaultMutation, ReturnBefore)| (m.0.value@, m.1.stmt, m.1.expr),
    )
}

fn find_first_valid_stmt(stmts: &Vec<u32>) -> (r: Option<u32>)
    ensures
        r == first_valid_stmt(stmts@),
{
    let mut i: usize = 0;
    proof {
        assert(stmts@.skip(0) =~= stmts@);
    }
    while i < stmts.len()
        invariant
            i <= stmts.len(),
            first_valid_stmt(stmts@) == first_valid_stmt(stmts@.skip(i as int)),
        decreases stmts.len() - i,
    {
        proof {
            assert(stmts@.skip(i as int)[0] == stmts@[i as int]);
            assert(stmts@.skip(i as int).drop_first() =~= stmts@.skip(i as int + 1));
        }
        if stmts[i] != DUMMY_NODE_ID {
            return Some(stmts[i]);
        }
        i += 1;
    }
    None
}

/// Return a fixed value from a function without running its body.
pub struct FnReturnDefault;

impl FnReturnDefault {
    /// The mutations of a function: one per value worth returning in place of its return type.
    pub fn try_apply(&self, loc: &MutLoc) -> (r: Vec<(FnReturnDefaultMutation, ReturnBefore)>)
        ensures
            mutation_views(r@) == fn_mutations(*loc),
    {
        let mut out: Vec<(FnReturnDefaultMutation, ReturnBefore)> = Vec::new();
        let f = match loc {
            MutLoc::Fn(f) => f,
            _ => {
                proof {
                    assert(mutation_views(out@) =~= fn_mutations(*loc));
                }
                return out;
            },
        };
        let stmts = match &f.body {
            Some(stmts) => stmts,
            None => {
                proof {
                    assert(mutation_views(out@) =~= fn_mutations(*loc));
                }
                return out;
            },
        };
        let stmt = match find_first_valid_stmt(stmts) {
            Some(stmt) => stmt,
            None => {
                proof {
                    assert(mutation_views(out@) =~= fn_mutations(*loc));
                }
                return out;
            },
        };
        let mut values = replacements(&f.return_type, 0);
        let ghost all = replacement_views(values@);
        let ghost mut k: int = 0;
        while values.len() > 0
            invariant
                0 <= k <= all.len(),
                values@.len() == all.len() - k,
                replacement_views(values@) == all.skip(k),
                mutation_views(out@) == all.take(k).map_values(
                    |r: (Seq<char>, ValueExpr)| (r.0, stmt, r.1),
                ),
            decreases values.len(),
        {
            let ghost before_values = values@;
            let ghost before_out = out@;
            let rep = values.remove(0);
            proof {
                assert(rep == before_values[0]);
                assert(all.skip(k)[0] == all[k]);
                assert(replacement_views(before_values)[0] == all[k]);
                assert(rep.view() == all[k]);
                assert(replacement_views(values@) =~= replacement_views(before_values).drop_first());
                assert(all.skip(k).drop_first() =~= all.skip(k + 1));
            }
            let Replacement { value, expr } = rep;
            out.push((FnReturnDefaultMutation { value }, ReturnBefore { stmt, expr }));
            proof {
                assert(mutation_views(out@) =~= mutation_views(before_out).push((all[k].0, stmt, all[k].1)));
                assert(mutation_views(out@) =~= all.take(k + 1).map_values(
                    |r: (Seq<char>, ValueExpr)| (r.0, stmt, r.1),
                ));
                k = k + 1;
            }
        }
        proof {
            assert(all.take(k) =~= all);
        }
        out
    }
}

/// Every mutation of a function returns a value of the function's return type.
pub proof fn lemma_mutations_type_check(f: FnItem)
    ensures
        forall|i: int|
            0 <= i < fn_item_mutations(f).len() ==> type_checks(
                (#[trigger] fn_item_mutations(f)[i]).2,
                f.return_type,
            ),
{
    lemma_replacements_type_check(f.return_type, 0);
    match f.body {
        Some(stmts) => match first_valid_stmt(stmts@) {
            Some(stmt) => {
                let rs = replacements_of(f.return_type, 0);
                assert forall|i: int| 0 <= i < fn_item_mutations(f).len() implies type_checks(
                    (#[trigger] fn_item_mutations(f)[i]).2,
                    f.return_type,
                ) by {
                    assert(fn_item_mutations(f)[i].2 == rs[i].1);
                }
            },
            None => {},
        },
        None => {},
    }
}

/// A type that has a default always has a value worth returning, at any depth: nesting cuts what
/// is enumerated, never the default.
pub proof fn lemma_default_always_offered(ty: ReturnType, depth: nat)
    ensures
        has_default(ty) ==> replacements_of(ty, depth).len() >= 1,
        ty is Other ==> replacements_of(ty, depth) == (if has_default(ty) {
            seq![("Default::default()"@, ValueExpr::DefaultCall)]
        } else {
            Seq::empty()
        }),
        depth > MAX_TY_DEPTH ==> (has_default(ty) <==> replacements_of(ty, depth).contains(
            ("Default::default()"@, ValueExpr::DefaultCall),
        )),
{
    if depth > MAX_TY_DEPTH && has_default(ty) {
        assert(replacements_of(ty, depth)[0] == ("Default::default()"@, ValueExpr::DefaultCall));
    }
    if depth <= MAX_TY_DEPTH {
        match ty {
            ReturnType::Option(inner) => {
                assert(replacements_of(ty, depth)[0] == ("None"@, ValueExpr::NonePath));
            },
            ReturnType::Vec(inner) => {
                assert(replacements_of(ty, depth)[0] == ("Vec::new()"@, ValueExpr::DefaultCall));
            },
            _ => {},
        }
    }
}

/// Wrapping is uniform: within the nesting limit, a `Result` is worth each value of its `Ok` type
/// one level deeper, in `Ok`; an `Option`, `None` and then each value of its inner type in
/// `Some`; a `Vec`, the empty one and then a one-element vector of each value of its element type.
pub proof fn lemma_wrapping_is_uniform(t: ReturnType, depth: nat)
    requires
        depth <= MAX_TY_DEPTH,
    ensures
        ({
            let inner = replacements_of(t, depth + 1);
            let rs = replacements_of(ReturnType::Result(Box::new(t)), depth);
            &&& rs.len() == inner.len()
            &&& forall|i: int|
                0 <= i < inner.len() ==> #[trigger] rs[i] == ("Ok("@ + inner[i].0 + ")"@,
                    ValueExpr::OkCall(Box::new(inner[i].1)))
        }),
        ({
            let inner = replacements_of(t, depth + 1);
            let rs = replacements_of(ReturnType::Option(Box::new(t)), depth);
            &&& rs.len() == inner.len() + 1
            &&& rs[0] == ("None"@, ValueExpr::NonePath)
            &&& forall|i: int|
                0 <= i < inner.len() ==> #[trigger] rs[i + 1] == ("Some("@ + inner[i].0 + ")"@,
                    ValueExpr::SomeCall(Box::new(inner[i].1)))
        }),
        ({
            let inner = replacements_of(t, depth + 1);
            let rs = replacements_of(ReturnType::Vec(Box::new(t)), depth);
            &&& rs.len() == inner.len() + 1
            &&& rs[0] == ("Vec::new()"@, ValueExpr::DefaultCall)
            &&& forall|i: int|
                0 <= i < inner.len() ==> #[trigger] rs[i + 1] == ("Vec::from(["@ + inner[i].0 + "])"@,
                    ValueExpr::VecFrom(Box::new(inner[i].1)))
        }),
{
    let inner = replacements_of(t, depth + 1);
    reveal_strlit("Ok");
    reveal_strlit("(");
    reveal_strlit("Ok(");
    reveal_strlit("Some");
    reveal_strlit("Some(");
    let r = replacements_of(ReturnType::Result(Box::new(t)), depth);
    assert forall|i: int| 0 <= i < inner.len() implies #[trigger] r[i] == ("Ok("@ + inner[i].0 + ")"@,
        ValueExpr::OkCall(Box::new(inner[i].1))) by {
        assert("Ok"@ + "("@ =~= "Ok("@);
        assert("Ok"@ + "("@ + inner[i].0 + ")"@ =~= "Ok("@ + inner[i].0 + ")"@);
    }
    let o = replacements_of(ReturnType::Option(Box::new(t)), depth);
    assert forall|i: int| 0 <= i < inner.len() implies #[trigger] o[i + 1] == ("Some("@ + inner[i].0 + ")"@,
        ValueExpr::SomeCall(Box::new(inner[i].1))) by {
        assert("Some"@ + "("@ =~= "Some("@);
        assert("Some"@ + "("@ + inner[i].0 + ")"@ =~= "Some("@ + inner[i].0 + ")"@);
    }
}

} // verus!
