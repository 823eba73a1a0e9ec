use mutest::build_status::build_label;

#[test]
fn a_build_is_named_by_its_crate_whether_it_is_a_test_harness_and_its_package() {
    let args = ["--crate-name", "cli", "--edition=2024", "tests/cli.rs", "--test"].map(str::to_owned);
    assert_eq!(build_label(&args, Some("chock"), true), "the test harness of `cli` in package `chock`");

    let args = ["--crate-name=chock", "src/lib.rs"].map(str::to_owned);
    assert_eq!(build_label(&args, Some("chock"), false), "crate `chock` in package `chock`");

    let args = ["src/lib.rs".to_owned()];
    assert_eq!(build_label(&args, None, true), "a test harness");
}

#[test]
fn a_build_without_a_crate_name_or_package_is_a_crate() {
    let args = ["src/lib.rs".to_owned()];
    assert_eq!(build_label(&args, None, false), "a crate");
    assert_eq!(build_label(&args, Some("p"), false), "a crate in package `p`");
}

#[test]
fn a_crate_name_flag_with_nothing_after_it_falls_back_to_the_joined_form() {
    let args = ["--crate-name=joined", "--crate-name"].map(str::to_owned);
    assert_eq!(build_label(&args, None, false), "crate `joined`");

    let args = ["--crate-name".to_owned()];
    assert_eq!(build_label(&args, None, true), "a test harness");
}

#[test]
fn the_first_crate_name_flag_names_the_crate() {
    let args = ["--crate-name=joined", "--crate-name", "split", "--crate-name", "later"].map(str::to_owned);
    assert_eq!(build_label(&args, None, false), "crate `split`");

    let args = ["--crate-name=ünï", "--crate-name=other"].map(str::to_owned);
    assert_eq!(build_label(&args, None, false), "crate `ünï`");
}

#[test]
fn a_build_is_named_on_one_line() {
    let args = ["--crate-name=cli".to_owned(), "--crate-name".to_owned()];
    let label = build_label(&args, Some("chock"), true);
    assert_eq!(label, "the test harness of `cli` in package `chock`");
    assert!(!label.contains('\n'));
    let args = ["--crate-name".to_owned()];
    assert_eq!(build_label(&args, None, false), "a crate");
}
