use clippy_lint_tester::attr_cleaning::CleanError;
use clippy_lint_tester::crates::{
    attr_error_message, list_crates, listed_twice_message, page_url, pause_before_request, Crate,
};
use clippy_lint_tester::files::{
    clean_attrs_file, is_rust_source, DirProbe, DirStep, FileAction, SourceFile,
};
use clippy_lint_tester::manifest::{
    clean_cargo_manifest, crate_roots, disable_clippy_config, remove_paths, CrateConfig,
    Dependency, DependencyEdit, Manifest,
};
use clippy_lint_tester::{
    clean_attrs, clean_config, ensure_empty_dir, EnsureEmptyDirOutcome, FileCleanError,
};

fn krate(name: &str, max_version: &str, stable: Option<&str>) -> Crate {
    Crate {
        name: name.to_string(),
        max_version: max_version.to_string(),
        max_stable_version: stable.map(|version| version.to_string()),
    }
}

#[test]
fn the_stable_version_is_preferred() {
    assert_eq!(krate("a", "2.0.0-rc.1", Some("1.9.0")).version(), "1.9.0");
    assert_eq!(krate("a", "2.0.0-rc.1", None).version(), "2.0.0-rc.1");
    assert_eq!(krate("serde", "1.0.1", Some("1.0.0")).directory_name(), "serde-1.0.0");
    assert_eq!(
        krate("serde", "1.0.1", None).download_url(),
        "https://static.crates.io/crates/serde/serde-1.0.1.crate"
    );
}

#[test]
fn yanked_and_excluded_crates_are_skipped() {
    let exclude = vec!["b".to_string()];
    let page = vec![
        krate("a", "1.0.0", None),
        krate("b", "1.0.0", None),
        krate("c", "0.0.0", Some("0.1.0")),
        krate("d", "0.0.1", None),
    ];
    assert_eq!(list_crates(&page, &exclude), vec![0, 3]);
    assert_eq!(list_crates(&page, &vec![]), vec![0, 1, 3]);
    assert!(list_crates(&vec![], &exclude).is_empty());
    assert!(page[0].is_wanted(&exclude));
    assert!(!page[1].is_wanted(&exclude));
    assert!(!page[2].is_wanted(&exclude));
}

#[test]
fn requests_are_spaced() {
    assert_eq!(page_url(1), "https://crates.io/api/v1/crates?page=1&per_page=100&sort=downloads");
    assert_eq!(page_url(120), "https://crates.io/api/v1/crates?page=120&per_page=100&sort=downloads");
    assert_eq!(pause_before_request(0), 1000);
    assert_eq!(pause_before_request(400), 600);
    assert_eq!(pause_before_request(999), 1);
    assert_eq!(pause_before_request(1000), 0);
    assert_eq!(pause_before_request(u128::MAX), 0);
}

#[test]
fn messages_are_written() {
    assert_eq!(
        listed_twice_message("serde"),
        "Skipping 'serde'. Listed twice by crates.io. (Possibly the changed position during downloading.)"
    );
    let error = CleanError { line: 12, column: 0, message: "expected `;`".to_string() };
    assert_eq!(
        attr_error_message("a/src/lib.rs", &error),
        "error: Attribute removal failed at a/src/lib.rs:12:0 - expected `;`"
    );
}

#[test]
fn rust_sources_are_told_by_their_extension() {
    for name in ["a.rs", "lib.rs", "a.b.rs", "..rs", "é.rs"] {
        assert!(is_rust_source(name), "{}", name);
    }
    for name in ["", "rs", ".rs", "a.rss", "a.r", "ars", "a.RS", "a.rs.orig", "a.rs "] {
        assert!(!is_rust_source(name), "{}", name);
    }
}

#[test]
fn files_are_cleaned_one_by_one() {
    assert!(matches!(clean_attrs_file("a.rs", "fn f() {}\n"), FileAction::Leave));
    match clean_attrs_file("a.rs", "#![allow(x)]\n") {
        FileAction::Write(rewrite) => {
            assert_eq!(rewrite.path, "a.rs");
            assert_eq!(rewrite.contents, "/* cleaned by clippy_lint_tester #![allow(x)] */\n");
        }
        _ => panic!("rewrite expected"),
    }
    match clean_attrs_file("b.rs", "fn f( {}\n") {
        FileAction::Report(FileCleanError { path, error }) => {
            assert_eq!(path, "b.rs");
            assert_eq!(error.line, 1);
        }
        _ => panic!("error expected"),
    }
}

#[test]
fn one_bad_file_does_not_stop_the_others() {
    let file = |path: &str, source: &str| SourceFile { path: path.to_string(), source: source.to_string() };
    let files = vec![
        file("a.rs", "#![warn(x)]\n"),
        file("b.rs", "fn ("),
        file("c.rs", "fn f() {}"),
        file("d.rs", "#[deny(y)] fn f() {}"),
        file("e.rs", "struct"),
    ];
    let report = clean_attrs(&files);
    let rewritten: Vec<&str> = report.rewrites.iter().map(|rewrite| rewrite.path.as_str()).collect();
    assert_eq!(rewritten, vec!["a.rs", "d.rs"]);
    assert_eq!(report.rewrites[1].contents, "/* cleaned by clippy_lint_tester #[deny(y)] */ fn f() {}");
    let failed: Vec<&str> = report.errors.iter().map(|failure| failure.path.as_str()).collect();
    assert_eq!(failed, vec!["b.rs", "e.rs"]);
    let nothing = clean_attrs(&vec![]);
    assert!(nothing.rewrites.is_empty() && nothing.errors.is_empty());
}

fn dependency(is_table: bool, has_path: bool, has_version: bool) -> Dependency {
    Dependency { is_table, has_path, has_version }
}

#[test]
fn path_dependencies_become_version_dependencies() {
    let table = vec![
        dependency(false, false, false),
        dependency(true, true, false),
        dependency(true, true, true),
        dependency(true, false, true),
        dependency(false, true, false),
    ];
    let keep = DependencyEdit { remove_path: false, add_version: false };
    let (edits, removed) = remove_paths(&table);
    assert!(removed);
    assert_eq!(
        edits,
        vec![
            keep,
            DependencyEdit { remove_path: true, add_version: true },
            DependencyEdit { remove_path: true, add_version: false },
            keep,
            keep,
        ]
    );
    let (none, removed) = remove_paths(&vec![dependency(true, false, false)]);
    assert!(!removed);
    assert_eq!(none, vec![keep]);
    assert_eq!(remove_paths(&vec![]), (vec![], false));
}

#[test]
fn manifests_are_rewritten_only_where_something_goes() {
    let untouched = Manifest {
        dependencies: Some(vec![dependency(true, false, true)]),
        build_dependencies: None,
        dev_dependencies: Some(vec![]),
        has_workspace: false,
    };
    let edits = clean_cargo_manifest(&untouched);
    assert!(!edits.changed && !edits.remove_workspace);
    assert_eq!(edits.dependencies.len(), 1);
    assert!(edits.build_dependencies.is_empty() && edits.dev_dependencies.is_empty());
    let workspace = Manifest { dependencies: None, build_dependencies: None, dev_dependencies: None, has_workspace: true };
    let edits = clean_cargo_manifest(&workspace);
    assert!(edits.changed && edits.remove_workspace);
    let dev = Manifest {
        dependencies: None,
        build_dependencies: None,
        dev_dependencies: Some(vec![dependency(true, true, false)]),
        has_workspace: false,
    };
    let edits = clean_cargo_manifest(&dev);
    assert!(edits.changed && !edits.remove_workspace);
    assert_eq!(edits.dev_dependencies, vec![DependencyEdit { remove_path: true, add_version: true }]);
}

#[test]
fn clippy_configuration_is_set_aside() {
    let names = |hidden, plain| -> Vec<(String, String)> {
        disable_clippy_config(hidden, plain).into_iter().map(|rename| (rename.from, rename.to)).collect()
    };
    assert!(names(false, false).is_empty());
    assert_eq!(names(true, false), vec![(".clippy.toml".to_string(), ".clippy.toml.bak".to_string())]);
    assert_eq!(names(false, true), vec![("clippy.toml".to_string(), "clippy.toml.bak".to_string())]);
    assert_eq!(names(true, true).len(), 2);
    assert_eq!(names(true, true)[0].0, ".clippy.toml");
    let config = CrateConfig {
        manifest: Manifest { dependencies: None, build_dependencies: None, dev_dependencies: None, has_workspace: true },
        has_hidden_clippy_toml: false,
        has_clippy_toml: true,
    };
    let plan = clean_config(&config);
    assert!(plan.manifest.changed);
    assert_eq!(plan.renames.len(), 1);
    assert_eq!(plan.renames[0].to, "clippy.toml.bak");
}

#[test]
fn the_roots_of_a_crate_are_found() {
    let shown = |lib: Option<&str>, bins: Vec<Option<&str>>| -> Vec<(String, bool)> {
        let lib = lib.map(|path| path.to_string());
        let bins: Vec<Option<String>> = bins.into_iter().map(|bin| bin.map(|path| path.to_string())).collect();
        crate_roots(&lib, &bins).into_iter().map(|root| (root.path, root.named)).collect()
    };
    let usual = vec![("src/lib.rs".to_string(), false), ("src/main.rs".to_string(), false)];
    assert_eq!(shown(None, vec![]), usual);
    let named = shown(Some("lib/mod.rs"), vec![Some("a.rs"), None, Some("b.rs")]);
    assert_eq!(
        named[..3],
        [("lib/mod.rs".to_string(), true), ("a.rs".to_string(), true), ("b.rs".to_string(), true)]
    );
    assert_eq!(named[3..], usual[..]);
}

#[test]
fn a_directory_that_is_to_be_empty() {
    assert_eq!(
        ensure_empty_dir(DirProbe::Listed { has_entry: false }),
        DirStep::Found(EnsureEmptyDirOutcome::Empty)
    );
    assert_eq!(
        ensure_empty_dir(DirProbe::Listed { has_entry: true }),
        DirStep::Found(EnsureEmptyDirOutcome::NonEmpty)
    );
    assert_eq!(ensure_empty_dir(DirProbe::NotFound), DirStep::Create);
    assert_eq!(ensure_empty_dir(DirProbe::Unreadable), DirStep::Fail);
    assert!(EnsureEmptyDirOutcome::Created != EnsureEmptyDirOutcome::Empty);
}
