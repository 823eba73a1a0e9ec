use mutest::ast::{Arm, Expr, MutLoc, Pat, ResolvedPat, UnOp};
use mutest::continue_break_swap::{
    Block, ContinueBreakSwap, Jump, JumpTarget, LoopPlace, LoopType, Place,
};
use mutest::match_arm_delete::{is_irrefutable, MatchArmDelete};
use mutest::match_guard_value::MatchGuardValue;
use mutest::struct_field_delete::StructFieldDelete;
use mutest::unary_op_delete::UnaryOpDelete;

fn arm(pat: &str, irrefutable: bool, has_guard: bool) -> Arm {
    let resolved = if irrefutable { ResolvedPat::Binding { has_subpattern: false } } else { ResolvedPat::Other };
    Arm { pat: pat.to_owned(), pat_kind: Pat::Resolved(Some(resolved)), has_guard, has_body: true }
}

fn expr(e: Expr) -> MutLoc {
    MutLoc::FnBodyExpr(e)
}

#[test]
fn a_match_arm_is_deleted_only_before_the_last_catch_all() {
    let m = expr(Expr::Match { arms: vec![
        arm("Some(0)", false, false),
        arm("x", true, true),
        arm("None", false, false),
        arm("_", true, false),
        arm("y", true, false),
    ] });
    let ms = MatchArmDelete.try_apply(&m);
    let names: Vec<String> = ms.iter().map(|(m, _)| m.arm_pat.clone()).collect();
    assert_eq!(names, ["Some(0)", "x", "None", "_"]);
    assert_eq!(ms[1].1, [0, 2, 3, 4]);
    assert_eq!(ms[0].0.display_name(), "delete match arm `Some(0)`");
    assert_eq!(ms[0].0.span_label(), "delete match arm");
    assert_eq!(ms[0].0.op_name(), "match_arm_delete");
}

#[test]
fn a_match_without_a_catch_all_is_left_alone() {
    let m = expr(Expr::Match { arms: vec![arm("true", false, false), arm("false", false, false), arm("x", true, true)] });
    assert!(MatchArmDelete.try_apply(&m).is_empty());
    let mut arms = vec![arm("Never", false, false), arm("_", true, false)];
    arms[0].has_body = false;
    assert!(MatchArmDelete.try_apply(&expr(Expr::Match { arms })).is_empty());
    assert!(MatchArmDelete.try_apply(&expr(Expr::Other)).is_empty());
}

#[test]
fn only_a_wildcard_or_a_plain_binding_catches_every_value() {
    assert!(is_irrefutable(&Pat::Resolved(Some(ResolvedPat::Wild))));
    assert!(is_irrefutable(&Pat::Paren(Box::new(Pat::Paren(Box::new(Pat::Resolved(Some(ResolvedPat::Binding { has_subpattern: false }))))))));
    assert!(!is_irrefutable(&Pat::Resolved(Some(ResolvedPat::Binding { has_subpattern: true }))));
    // `None` parses like a binding; resolution says it is a path.
    assert!(!is_irrefutable(&Pat::Resolved(Some(ResolvedPat::Other))));
    assert!(!is_irrefutable(&Pat::Resolved(None)));

    let m = expr(Expr::Match { arms: vec![
        arm("None", false, false),
        Arm { pat: "(_)".to_owned(), pat_kind: Pat::Paren(Box::new(Pat::Resolved(Some(ResolvedPat::Wild)))), has_guard: false, has_body: true },
    ] });
    assert_eq!(MatchArmDelete.try_apply(&m).len(), 1);
}

#[test]
fn each_guard_is_fixed_to_both_values() {
    let m = expr(Expr::Match { arms: vec![arm("a", false, true), arm("b", false, false), arm("c", false, true)] });
    let ms: Vec<(bool, usize)> = MatchGuardValue.try_apply(&m).iter().map(|(m, i)| (m.value, *i)).collect();
    assert_eq!(ms, [(true, 0), (false, 0), (true, 2), (false, 2)]);
    let ms = MatchGuardValue.try_apply(&m);
    assert_eq!(ms[1].0.display_name(), "replace match arm guard with `false`");
    assert_eq!(ms[0].0.span_label(), "replace match arm guard with `true`");
    assert_eq!(ms[0].0.op_name(), "match_guard_value");
}

#[test]
fn a_field_is_taken_from_the_base_only_where_there_is_one() {
    let s = expr(Expr::Struct { fields: vec!["a".to_owned(), "b".to_owned()], has_base: true });
    let ms = StructFieldDelete.try_apply(&s);
    assert_eq!(ms.len(), 2);
    assert_eq!(ms[0].0.field_ident, "a");
    assert_eq!(ms[0].1, [1]);
    assert_eq!(ms[1].1, [0]);
    assert_eq!(ms[1].0.display_name(), "take `b` from the base expression instead of the value given");
    assert_eq!(ms[1].0.span_label(), "take `b` from the base expression");
    assert_eq!(ms[1].0.op_name(), "struct_field_delete");

    let s = expr(Expr::Struct { fields: vec!["a".to_owned()], has_base: false });
    assert!(StructFieldDelete.try_apply(&s).is_empty());
}

#[test]
fn not_and_minus_are_deleted_and_a_dereference_is_not() {
    let m = UnaryOpDelete.try_apply(&expr(Expr::Unary { op: UnOp::Not })).unwrap();
    assert_eq!(m.op, "!");
    assert_eq!(m.display_name(), "delete unary operator `!`");
    assert_eq!(m.op_name(), "unary_op_delete");
    let m = UnaryOpDelete.try_apply(&expr(Expr::Unary { op: UnOp::Neg })).unwrap();
    assert_eq!(m.span_label(), "delete unary operator `-`");
    assert!(UnaryOpDelete.try_apply(&expr(Expr::Unary { op: UnOp::Deref })).is_none());
    assert!(UnaryOpDelete.try_apply(&expr(Expr::Other)).is_none());
}

fn a_loop(id: u32, ty: LoopType, adjusted_unit: bool, place: LoopPlace, consumed: Vec<Place>) -> JumpTarget {
    JumpTarget::Loop { id, ty, adjusted_unit, place, consumed }
}

fn swapped(loc: &MutLoc, target: &JumpTarget) -> Option<String> {
    ContinueBreakSwap.try_apply(loc, target).map(|m| m.display_name())
}

// Coerced to `Result`: not mutated.
fn first_even(values: &[u32]) -> Result<u32, ()> {
    let mut i = 0;
    loop {
        let Some(&value) = values.get(i) else { return Err(()) };
        i += 1;
        if value % 2 == 1 {
            continue;
        }
        return Ok(value);
    }
}

// The last statement of a body that returns `u32`, which only type-checks because the loop
// diverges: not mutated.
#[allow(unreachable_code, redundant_semicolons)]
fn count_in_last_statement(limit: u32) -> u32 {
    let mut count = 0;
    loop {
        count += 1;
        if count < limit {
            continue;
        }
        return count;
    };
}

// Coerced to `()`: mutated.
fn count_to(limit: u32, count: &mut u32) {
    loop {
        *count += 1;
        if *count < limit {
            continue;
        }
        return;
    }
}

// A statement with code after it: mutated.
#[allow(unreachable_code)]
fn count_before_tail(limit: u32) -> u32 {
    let mut count = 0;
    loop {
        count += 1;
        if count < limit {
            continue;
        }
        return count;
    }
    0
}

// Leaves a labeled block: not mutated.
fn first_positive(values: &[i32]) -> Option<i32> {
    let mut found = None;
    'search: {
        for &value in values {
            if value > 0 {
                found = Some(value);
                break 'search;
            }
        }
    }
    found
}

#[test]
fn avoid_mutating_never_loops_with_values_test() {
    assert_eq!(Ok(2), first_even(&[1, 2]));
    assert_eq!(Some(2), first_positive(&[-1, 2]));
    assert_eq!(3, count_in_last_statement(3));
    let mut count = 0;
    count_to(3, &mut count);
    assert_eq!(3, count);
    assert_eq!(3, count_before_tail(3));

    let cont = expr(Expr::Continue { label: None });
    // `first_even`: the loop is the body's value, a `Result`.
    let target = a_loop(1, LoopType::Never, false, LoopPlace::NotStatement, vec![]);
    assert_eq!(swapped(&cont, &target), None);
    // `count_in_last_statement`: the last statement of a block whose value is a `u32`.
    let block = Block { stmts: vec![10, 11], has_tail: false, expr_is_unit: Some(false) };
    let target = a_loop(1, LoopType::Never, false, LoopPlace::Statement { stmt: 11, block: Some(block) }, vec![]);
    assert_eq!(swapped(&cont, &target), None);
    // `count_to`: the loop's value coerces to `()`.
    let target = a_loop(1, LoopType::Never, true, LoopPlace::NotStatement, vec![]);
    assert_eq!(swapped(&cont, &target).as_deref(), Some("swap continue for break"));
    // `count_before_tail`: a statement with code after it.
    let block = Block { stmts: vec![10, 11], has_tail: true, expr_is_unit: Some(false) };
    let target = a_loop(1, LoopType::Never, false, LoopPlace::Statement { stmt: 11, block: Some(block) }, vec![]);
    assert_eq!(swapped(&cont, &target).as_deref(), Some("swap continue for break"));
    // `first_positive`: a `break` out of a labeled block.
    let brk = expr(Expr::Break { label: Some("'search".to_owned()), has_value: false });
    assert_eq!(swapped(&brk, &JumpTarget::Block), None);
}

fn fields(template: &str) -> Vec<String> {
    let mut out = Vec::new();
    let mut chars = template.chars();
    while let Some(c) = chars.next() {
        if c != '{' {
            continue;
        }
        let mut field = String::new();
        for c in chars.by_ref() {
            if c == '}' {
                // A `continue` would take `field` round the loop after it has moved.
                out.push(field);
                break;
            }
            field.push(c);
        }
    }
    out
}

fn short_words_before_a_long_one(words: &[String]) -> usize {
    let mut count = 0;
    for word in words {
        if word.len() > 3 {
            break;
        }
        count += 1;
    }
    count
}

#[test]
fn avoid_swapping_break_for_continue_after_move_test() {
    assert_eq!(fields("a {b} c {d}"), ["b", "d"]);
    assert_eq!(short_words_before_a_long_one(&["ab".to_owned(), "abcd".to_owned()]), 1);

    // `fields`: the outer loop's `continue` becomes a `break`.
    let cont = expr(Expr::Continue { label: None });
    let outer = a_loop(1, LoopType::Unit, true, LoopPlace::NotStatement, vec![]);
    assert_eq!(swapped(&cont, &outer).as_deref(), Some("swap continue for break"));
    // The inner loop moves `field`, declared in the outer loop, outside the inner one.
    let brk = expr(Expr::Break { label: None, has_value: false });
    let inner = a_loop(2, LoopType::Unit, true, LoopPlace::NotStatement, vec![Place::Local { ancestors: vec![5, 1, 0] }]);
    assert_eq!(swapped(&brk, &inner), None);
    // `short_words_before_a_long_one` moves nothing declared outside its loop.
    let only_inner = a_loop(3, LoopType::Unit, true, LoopPlace::NotStatement, vec![Place::Local { ancestors: vec![7, 3, 0] }, Place::Rvalue]);
    assert_eq!(swapped(&brk, &only_inner).as_deref(), Some("swap break for continue"));
}

#[test]
fn a_label_goes_with_the_swap() {
    let brk = expr(Expr::Break { label: Some("'outer".to_owned()), has_value: false });
    let target = a_loop(1, LoopType::Unit, true, LoopPlace::NotStatement, vec![]);
    let m = ContinueBreakSwap.try_apply(&brk, &target).unwrap();
    assert!(matches!(&m.replacement_expr, Jump::Continue(Some(l)) if l == "'outer"));
    assert_eq!(m.display_name(), "swap break with label `'outer` for continue with label `'outer`");
    assert_eq!(m.span_label(), "swap for continue with label `'outer`");
    assert_eq!(m.op_name(), "continue_break_swap");

    let with_value = expr(Expr::Break { label: None, has_value: true });
    assert_eq!(swapped(&with_value, &target), None);
    let other = a_loop(1, LoopType::Other, false, LoopPlace::NotStatement, vec![]);
    assert_eq!(swapped(&brk, &other), None);
    let upvar = a_loop(1, LoopType::Unit, true, LoopPlace::NotStatement, vec![Place::Upvar { ancestors: vec![0] }]);
    assert_eq!(swapped(&brk, &upvar), None);
}
