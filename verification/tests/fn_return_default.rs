use mutest::ast::{FnItem, MutLoc};
use mutest::fn_return_default::{replacements, FnReturnDefault, ReturnType, StrLit, ValueExpr};

fn values(ty: &ReturnType) -> Vec<String> {
    replacements(ty, 0).into_iter().map(|r| r.value).collect()
}

fn mutated(ty: ReturnType) -> Vec<String> {
    let f = MutLoc::Fn(FnItem { body: Some(vec![1]), return_type: ty });
    FnReturnDefault.try_apply(&f).into_iter().map(|(m, _)| m.value).collect()
}

// Both values, or a body that always returns the one that is not the default survives.
fn a_bool(x: u32) -> bool {
    x > 2
}

fn an_int(x: i32) -> i32 {
    x + 1
}

// `-1` does not type-check unsigned, and an unviable mutation fails the whole build.
fn a_uint(x: u32) -> u32 {
    x + 1
}

fn a_str() -> &'static str {
    "hello"
}

#[test]
fn return_types_test() {
    assert!(a_bool(3));
    assert_eq!(an_int(1), 2);
    assert_eq!(a_uint(1), 2);
    assert_eq!(a_str(), "hello");

    assert_eq!(mutated(ReturnType::Bool), ["false", "true"]);
    assert_eq!(mutated(ReturnType::Int), ["0", "1", "-1"]);
    assert_eq!(mutated(ReturnType::Uint), ["0", "1"]);
    assert_eq!(mutated(ReturnType::StrRef), ["\"\"", "\"xyzzy\""]);
}

// `Result` implements no `Default`, so unwrapping it is what keeps fallible functions from being
// skipped entirely.
fn a_result(x: u32) -> Result<u32, String> {
    Ok(x + 1)
}

fn a_unit_result(x: u32) -> Result<(), String> {
    let _ = x;
    Ok(())
}

// The inner type's own values are wrapped in turn, rather than only its default.
fn a_result_bool(x: u32) -> Result<bool, String> {
    Ok(x > 2)
}

fn an_option(x: u32) -> Option<u32> {
    Some(x)
}

fn a_vec(x: u32) -> Vec<u32> {
    vec![x]
}

#[test]
fn wrapped_types_test() {
    assert_eq!(a_result(1).unwrap(), 2);
    assert!(a_unit_result(1).is_ok());
    assert!(a_result_bool(3).unwrap());
    assert_eq!(an_option(1), Some(1));
    assert_eq!(a_vec(1), vec![1]);

    assert_eq!(mutated(ReturnType::Result(Box::new(ReturnType::Uint))), ["Ok(0)", "Ok(1)"]);
    assert_eq!(mutated(ReturnType::Result(Box::new(ReturnType::Unit))), ["Ok(())"]);
    assert_eq!(mutated(ReturnType::Result(Box::new(ReturnType::Bool))), ["Ok(false)", "Ok(true)"]);
    assert_eq!(mutated(ReturnType::Option(Box::new(ReturnType::Uint))), ["None", "Some(0)", "Some(1)"]);
    assert_eq!(mutated(ReturnType::Vec(Box::new(ReturnType::Uint))), ["Vec::new()", "Vec::from([0])", "Vec::from([1])"]);
}

struct NoDefault(u32);

// Nothing can be returned without running the body, so the function is left alone.
fn no_default(x: u32) -> NoDefault {
    NoDefault(x)
}

#[test]
fn no_default_no_mutation_test() {
    assert_eq!(no_default(1).0, 1);

    assert!(mutated(ReturnType::Other { has_default: false }).is_empty());
    assert_eq!(mutated(ReturnType::Other { has_default: true }), ["Default::default()"]);
}

#[test]
fn floats_strings_and_units_have_values_of_their_own() {
    assert_eq!(values(&ReturnType::Float), ["0.0", "1.0", "-1.0"]);
    assert_eq!(values(&ReturnType::String), ["String::new()", "String::from(\"xyzzy\")"]);
    assert_eq!(values(&ReturnType::Unit), ["()"]);
}

#[test]
fn nesting_past_the_limit_is_worth_only_a_default() {
    let deep = ReturnType::Option(Box::new(ReturnType::Option(Box::new(ReturnType::Option(Box::new(
        ReturnType::Option(Box::new(ReturnType::Bool)),
    ))))));
    assert_eq!(values(&deep), [
        "None",
        "Some(None)",
        "Some(Some(None))",
        "Some(Some(Some(None)))",
        "Some(Some(Some(Some(Default::default()))))",
    ]);
    // A `Result` nested too deep has no default, so nothing is returned in its place.
    let deep_result = ReturnType::Vec(Box::new(ReturnType::Vec(Box::new(ReturnType::Vec(Box::new(
        ReturnType::Vec(Box::new(ReturnType::Result(Box::new(ReturnType::Bool)))),
    ))))));
    assert_eq!(values(&deep_result), [
        "Vec::new()",
        "Vec::from([Vec::new()])",
        "Vec::from([Vec::from([Vec::new()])])",
        "Vec::from([Vec::from([Vec::from([Vec::new()])])])",
    ]);
    assert!(replacements(&ReturnType::Result(Box::new(ReturnType::Bool)), 4).is_empty());
}

#[test]
fn each_value_comes_with_the_expression_it_names() {
    let rs = replacements(&ReturnType::Option(Box::new(ReturnType::StrRef)), 0);
    assert!(matches!(rs[0].expr, ValueExpr::NonePath));
    match &rs[2].expr {
        ValueExpr::SomeCall(inner) => assert!(matches!(**inner, ValueExpr::Str(StrLit::Xyzzy))),
        _ => panic!("not a `Some`"),
    }
}

#[test]
fn a_function_is_mutated_before_its_first_statement_of_its_own() {
    let f = MutLoc::Fn(FnItem { body: Some(vec![0xFFFF_FF00, 7, 8]), return_type: ReturnType::Bool });
    let ms = FnReturnDefault.try_apply(&f);
    assert_eq!(ms.len(), 2);
    assert!(ms.iter().all(|(_, at)| at.stmt == 7));
    assert_eq!(ms[0].0.display_name(), "return `false` without evaluating the function body");
    assert_eq!(ms[1].0.span_label(), "return `true` without evaluating the function body");
    assert_eq!(ms[0].0.op_name(), "fn_return_default");

    let bodyless = MutLoc::Fn(FnItem { body: None, return_type: ReturnType::Bool });
    assert!(FnReturnDefault.try_apply(&bodyless).is_empty());
    let only_inserted = MutLoc::Fn(FnItem { body: Some(vec![0xFFFF_FF00]), return_type: ReturnType::Bool });
    assert!(FnReturnDefault.try_apply(&only_inserted).is_empty());
}

#[test]
fn an_unsigned_type_is_never_given_a_negative_value_however_deep() {
    let ty = ReturnType::Result(Box::new(ReturnType::Option(Box::new(ReturnType::Vec(Box::new(ReturnType::Uint))))));
    let vs = values(&ty);
    assert_eq!(vs, ["Ok(None)", "Ok(Some(Vec::new()))", "Ok(Some(Vec::from([0])))", "Ok(Some(Vec::from([1])))"]);
    assert!(vs.iter().all(|v| !v.contains('-')));
}
