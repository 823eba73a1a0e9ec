use mutest::inject::{
    dep_root_of, dependency_search_dirs, display, file_up_to_date, matching_dep_files,
    runtime_dirs, runtime_externs, test_shim_externs, Extern, InjectError, RuntimeSetup,
};

/// A path by its components, the root among them.
fn p(s: &str) -> Vec<String> {
    let mut out = Vec::new();
    if s.starts_with('/') {
        out.push("/".to_owned());
    }
    out.extend(s.split('/').filter(|c| !c.is_empty()).map(str::to_owned));
    out
}

fn shown(path: &Vec<String>) -> String {
    display(path)
}

fn setup(host: &str, target: &str) -> RuntimeSetup {
    RuntimeSetup {
        embed_runtime: false,
        embedded: false,
        host_triple: host.to_owned(),
        target_triple: target.to_owned(),
        target_dir_root: p("/work/target"),
        search_path: None,
        compiletime_artifacts_dir: p("/mutest/target/release"),
        compiletime_deps_dir: p("/mutest/target/release/deps"),
    }
}

const HOST: &str = "x86_64-unknown-linux-gnu";
const THUMB: &str = "thumbv7em-none-eabihf";

fn names(es: &[Extern]) -> Vec<String> {
    es.iter().map(|e| e.name.clone()).collect()
}

fn paths_of(e: &Extern) -> Option<Vec<String>> {
    e.paths.as_ref().map(|ps| ps.iter().map(shown).collect())
}

#[test]
fn the_runtime_is_where_the_driver_was_built_unless_the_invocation_says_otherwise() {
    let s = setup(HOST, HOST);
    let d = runtime_dirs(&s).unwrap();
    assert_eq!(shown(&d.host_artifacts), "/mutest/target/release");
    assert_eq!(shown(&d.host_deps), "/mutest/target/release/deps");
    assert_eq!(d.target_artifacts, d.host_artifacts);
    assert_eq!(d.target_deps, d.host_deps);
    let dirs: Vec<String> = dependency_search_dirs(&s, &d).iter().map(shown).collect();
    assert_eq!(dirs, ["/mutest/target/release/deps"]);

    let mut s = setup(HOST, HOST);
    s.search_path = Some(p("/elsewhere/debug"));
    let d = runtime_dirs(&s).unwrap();
    assert_eq!(shown(&d.host_artifacts), "/elsewhere/debug");
    assert_eq!(shown(&d.host_deps), "/elsewhere/debug/deps");
}

#[test]
fn for_another_target_the_runtime_built_for_it_is_searched_first() {
    let s = setup(HOST, THUMB);
    let d = runtime_dirs(&s).unwrap();
    assert_eq!(shown(&d.target_artifacts), "/mutest/target/thumbv7em-none-eabihf/release");
    assert_eq!(shown(&d.target_deps), "/mutest/target/thumbv7em-none-eabihf/release/deps");
    let dirs: Vec<String> = dependency_search_dirs(&s, &d).iter().map(shown).collect();
    assert_eq!(dirs, ["/mutest/target/thumbv7em-none-eabihf/release/deps", "/mutest/target/release/deps"]);
}

#[test]
fn a_driver_that_carries_the_runtime_unpacks_it_for_the_host_alone() {
    let mut s = setup(HOST, HOST);
    s.embed_runtime = true;
    let d = runtime_dirs(&s).unwrap();
    assert_eq!(shown(&d.host_artifacts), "/work/target/mutest_deps");
    assert_eq!(shown(&d.host_deps), "/work/target/mutest_deps");

    let mut s = setup(HOST, THUMB);
    s.embed_runtime = true;
    let Err(e) = runtime_dirs(&s) else { panic!("cross-compiled with the runtime carried") };
    assert!(matches!(&e, InjectError::CrossCompilationWithEmbeddedRuntime { target } if target == THUMB));
    assert_eq!(e.message(), "mutest-rs with runtime embedding does not support cross-compilation");
    assert_eq!(e.notes(), ["target: `thumbv7em-none-eabihf`"]);
}

#[test]
fn a_dependency_file_is_known_by_the_name_before_its_hash_or_extension() {
    assert_eq!(dep_root_of("libserde-1a2b3c.rlib"), "libserde");
    assert_eq!(dep_root_of("libfoo.rlib"), "libfoo");
    assert_eq!(dep_root_of("libfoo"), "libfoo");
    assert_eq!(dep_root_of("libserde-ffff.rmeta"), "libserde");
}

#[test]
fn only_the_files_of_the_dependency_sought_are_taken_for_it() {
    let entries = [
        p("/rt/deps/libserde-ffff.rlib"),
        p("/rt/deps/libserde_json-0000.rlib"),
        p("/rt/build/x/abc/out/libserde-ffff.rmeta"),
        p("/rt/deps/libother-1111.rlib"),
    ];
    let found: Vec<String> = matching_dep_files(&entries, "libserde-1a2b.rlib").iter().map(shown).collect();
    assert_eq!(found, ["/rt/deps/libserde-ffff.rlib", "/rt/build/x/abc/out/libserde-ffff.rmeta"]);
    assert!(matching_dep_files(&entries, "libnone-1.rlib").is_empty());

    // A file without a hash is known by the name before its own first `.`.
    let entries = [p("/rt/deps/libother.rlib"), p("/rt/deps/libbar.rmeta"), p("d/a.x")];
    let found: Vec<String> = matching_dep_files(&entries, "libbar.rlib").iter().map(shown).collect();
    assert_eq!(found, ["/rt/deps/libbar.rmeta"]);
    assert!(matching_dep_files(&entries, "b.x").is_empty());
}

#[test]
fn the_runtime_and_its_public_dependencies_are_added_to_the_externs() {
    let s = setup(HOST, HOST);
    let d = runtime_dirs(&s).unwrap();
    let existing = ["std".to_owned(), "core".to_owned()];
    let deps = [("__mutest_runtime_public_dep_serde".to_owned(), "libserde-1.rlib".to_owned())];
    let located = [p("/mutest/target/release/build/serde/abc/out/libserde-1.rlib")];
    let es = runtime_externs(&s, &d, &existing, "libmutest_runtime.rlib", &deps, &located, &[], None, None).unwrap();
    assert_eq!(names(&es), ["std", "core", "mutest_runtime", "__mutest_runtime_public_dep_serde"]);
    assert_eq!(es[0].base, Some(0));
    assert_eq!(es[1].base, Some(1));
    assert!(es[0].paths.is_none());
    assert_eq!(es[2].base, None);
    assert_eq!(paths_of(&es[2]).unwrap(), ["/mutest/target/release/libmutest_runtime.rlib"]);
    assert_eq!(paths_of(&es[3]).unwrap(), ["/mutest/target/release/build/serde/abc/out/libserde-1.rlib"]);
}

#[test]
fn an_embedded_target_links_the_stub_and_every_file_of_each_dependency() {
    let mut s = setup(HOST, THUMB);
    s.embedded = true;
    let d = runtime_dirs(&s).unwrap();
    let deps = [("__mutest_runtime_public_dep_heapless".to_owned(), "libheapless-9.rlib".to_owned())];
    let entries = [p("/x/libheapless-aaaa.rlib"), p("/x/libheapless-aaaa.rmeta"), p("/x/libother-1.rlib")];
    let es = runtime_externs(&s, &d, &[], "libmutest_runtime.rlib", &deps, &[], &entries, Some(true), None).unwrap();
    assert_eq!(names(&es), ["mutest_runtime", "__mutest_runtime_public_dep_heapless"]);
    assert_eq!(
        paths_of(&es[0]).unwrap(),
        ["/mutest/target/thumbv7em-none-eabihf/release/libmutest_runtime_embedded_target_stub.rlib"]
    );
    assert_eq!(paths_of(&es[1]).unwrap(), ["/x/libheapless-aaaa.rlib", "/x/libheapless-aaaa.rmeta"]);

    // Where it could not be told whether the stub is there, the compiler reports it when it reads it.
    assert!(runtime_externs(&s, &d, &[], "libmutest_runtime.rlib", &deps, &[], &entries, None, None).is_ok());
}

#[test]
fn a_missing_embedded_runtime_stub_says_where_it_was_looked_for_and_how_to_build_it() {
    let mut s = setup(HOST, THUMB);
    s.embedded = true;
    let d = runtime_dirs(&s).unwrap();
    let Err(e) = runtime_externs(&s, &d, &[], "libmutest_runtime.rlib", &[], &[], &[], Some(false), None) else {
        panic!("linked a missing stub")
    };
    assert_eq!(e.message(), "cannot find cross-compiled mutest-rs embedded runtime for target `thumbv7em-none-eabihf`");
    assert_eq!(e.notes(), [
        "searching in `/mutest/target/thumbv7em-none-eabihf/release`",
        "consider running `cargo build --target=thumbv7em-none-eabihf --profile=release -p mutest-runtime-embedded-target-stub` in the mutest-rs source tree",
    ]);

    let mut s = setup(HOST, HOST);
    s.embedded = true;
    let d = runtime_dirs(&s).unwrap();
    let Err(e) = runtime_externs(&s, &d, &[], "libmutest_runtime.rlib", &[], &[], &[], Some(false), None) else {
        panic!("linked a missing stub")
    };
    assert!(matches!(&e, InjectError::MissingEmbeddedRuntime { cross: false, profile, .. } if profile == "release"));
    assert_eq!(e.message(), "cannot find mutest-rs embedded runtime for host");
    assert_eq!(e.notes()[1], "consider running `cargo build --profile=release -p mutest-runtime-embedded-target-stub` in the mutest-rs source tree");
}

#[test]
fn a_public_dependency_under_a_name_already_taken_is_refused() {
    let s = setup(HOST, HOST);
    let d = runtime_dirs(&s).unwrap();
    let existing = ["std".to_owned()];
    let deps = [("std".to_owned(), "libstd-1.rlib".to_owned())];
    let Err(e) = runtime_externs(&s, &d, &existing, "libmutest_runtime.rlib", &deps, &[p("/a/libstd-1.rlib")], &[], None, None)
    else {
        panic!("a dependency replaced an extern")
    };
    assert!(matches!(&e, InjectError::ConflictingExtern { name } if name == "std"));
    assert_eq!(e.message(), "mutest-injected crate conflicts with existing extern `std`");
    assert_eq!(e.notes().len(), 1);

    // Two dependencies under one name conflict too.
    let deps = [("dup".to_owned(), "liba-1.rlib".to_owned()), ("dup".to_owned(), "libb-1.rlib".to_owned())];
    let located = [p("/a/liba-1.rlib"), p("/a/libb-1.rlib")];
    let r = runtime_externs(&s, &d, &existing, "libmutest_runtime.rlib", &deps, &located, &[], None, None);
    assert!(matches!(r, Err(InjectError::ConflictingExtern { name }) if name == "dup"));
}

#[test]
fn the_specialized_mutant_crate_replaces_where_the_crate_it_specializes_is_found() {
    let s = setup(HOST, HOST);
    let d = runtime_dirs(&s).unwrap();
    let existing = ["std".to_owned(), "dep".to_owned()];
    let es = runtime_externs(&s, &d, &existing, "libmutest_runtime.rlib", &[], &[], &[], None, Some(("dep".to_owned(), p("/spec/libdep.rlib"))))
        .unwrap();
    let last = es.last().unwrap();
    assert_eq!(last.name, "dep");
    assert_eq!(last.base, Some(1));
    assert_eq!(paths_of(last).unwrap(), ["/spec/libdep.rlib"]);

    let Err(e) = runtime_externs(&s, &d, &existing, "libmutest_runtime.rlib", &[], &[], &[], None, Some(("gone".to_owned(), p("/spec/libgone.rlib"))))
    else {
        panic!("replaced an extern that is not there")
    };
    assert_eq!(e.message(), "cannot find extern `gone` to replace with specialized external mutant crate");
    assert!(e.notes().is_empty());
}

#[test]
fn a_target_without_std_links_the_libtest_shim_with_the_embedded_runtime() {
    let s = setup(HOST, THUMB);
    assert!(test_shim_externs(&s, Some(true), &[], None).unwrap().is_none());

    let Err(e) = test_shim_externs(&s, Some(false), &[], None) else { panic!("no std without the embedded runtime") };
    assert!(matches!(&e, InjectError::NoStdWithoutEmbeddedRuntime { target } if target == THUMB));
    assert_eq!(e.message(), "target `thumbv7em-none-eabihf` does not support std, but the embedded mutation runtime was not specified");
    assert_eq!(e.notes(), [
        "the default mutation runtime does not support targets without std support",
        "consider running with the `-Z embedded` flag to use the experimental embedded mutation runtime",
    ]);

    let mut s = setup(HOST, THUMB);
    s.embedded = true;
    s.embed_runtime = true;
    assert!(matches!(test_shim_externs(&s, None, &[], None), Err(InjectError::CrossCompilationWithEmbeddedRuntime { .. })));

    let mut s = setup(HOST, THUMB);
    s.embedded = true;
    let Err(e) = test_shim_externs(&s, Some(false), &[], Some(false)) else { panic!("linked a missing shim") };
    assert_eq!(e.message(), "cannot find cross-compiled libtest metadata shim for target `thumbv7em-none-eabihf`");
    assert_eq!(e.notes(), [
        "searching in `/mutest/target/thumbv7em-none-eabihf/release`",
        "consider running `cargo build --target=thumbv7em-none-eabihf --profile=release -p test-metadata-shim` in the mutest-rs source tree",
    ]);

    let es = test_shim_externs(&s, Some(false), &["core".to_owned()], Some(true)).unwrap().unwrap();
    assert_eq!(names(&es), ["core", "test"]);
    assert_eq!(paths_of(&es[1]).unwrap(), ["/mutest/target/thumbv7em-none-eabihf/release/libtest_metadata_shim.rlib"]);
}

#[test]
fn a_file_is_written_again_unless_it_holds_exactly_what_is_unpacked() {
    assert!(file_up_to_date(Some(&b"rlib"[..]), b"rlib"));
    assert!(!file_up_to_date(Some(&b"rli"[..]), b"rlib"));
    assert!(!file_up_to_date(Some(&b"rlic"[..]), b"rlib"));
    assert!(!file_up_to_date(None, b"rlib"));
    assert!(file_up_to_date(Some(&b""[..]), b""));
}

#[test]
fn a_path_is_shown_with_one_separator_between_components() {
    assert_eq!(display(&p("/a/b")), "/a/b");
    assert_eq!(display(&p("a/b")), "a/b");
    assert_eq!(display(&Vec::new()), "");
    assert_eq!(display(&vec!["/".to_owned()]), "/");
}
