use glob_import::ident::{decimal_string, synthetic_identifier};
use glob_import::paths::{anchor_prefix, relative_import, starts_with};
use glob_import::pattern::{capture_expression, is_wildcard_source, CaptureRegex};
use glob_import::sanitize::create_valid_property_name;
use glob_import::{glob_importer, ImportDecl, KeyValue, ModuleItem, ObjectConst, Specifier, TransformError};

fn default_import(local: &str, src: &str) -> ModuleItem {
    ModuleItem::Import(ImportDecl {
        specifiers: vec![Specifier::Default(local.to_string())],
        src: src.to_string(),
    })
}

fn lookup(name: &str, props: &[(&str, &str)]) -> ModuleItem {
    ModuleItem::Const(ObjectConst {
        name: name.to_string(),
        props: props
            .iter()
            .map(|(k, v)| KeyValue { key: k.to_string(), value: v.to_string() })
            .collect(),
    })
}

#[test]
fn sanitize_maps_dash_and_drops_punctuation() {
    // `-` becomes `_`, the `!!` are dropped outright, so nothing separates `bar` and `baz`.
    assert_eq!(create_valid_property_name("foo-bar!!baz"), "foo_barbaz");
}

#[test]
fn sanitize_trims_underscores() {
    assert_eq!(create_valid_property_name("--a--"), "a");
}

#[test]
fn sanitize_collapses_runs() {
    assert_eq!(create_valid_property_name("a__b--c_-d"), "a_b_c_d");
    assert_eq!(create_valid_property_name("a!_!_b"), "a_b");
}

#[test]
fn sanitize_edge_cases() {
    assert_eq!(create_valid_property_name(""), "");
    assert_eq!(create_valid_property_name("___"), "");
    assert_eq!(create_valid_property_name("é1"), "1");
    assert_eq!(create_valid_property_name("Hello World.2"), "HelloWorld2");
}

#[test]
fn sanitize_result_is_word_chars() {
    for s in ["x.y-z", "-_-a-_-", "9 lives!", "ünï-cödé"] {
        let r = create_valid_property_name(s);
        assert!(!r.is_empty());
        assert!(r.chars().all(|c| c.is_ascii_alphanumeric() || c == '_'));
        assert!(!r.starts_with('_') && !r.ends_with('_'));
        assert!(!r.contains("__"));
    }
}

#[test]
fn classify_by_star_count() {
    assert!(is_wildcard_source("./*.js"));
    assert!(!is_wildcard_source("./a.js"));
    assert!(!is_wildcard_source("./*-*.js"));
    assert!(!is_wildcard_source(""));
}

#[test]
fn synthetic_names() {
    assert_eq!(decimal_string(0), "0");
    assert_eq!(decimal_string(907), "907");
    assert_eq!(synthetic_identifier(1), "$_import_1");
    assert_eq!(synthetic_identifier(12), "$_import_12");
    assert_ne!(synthetic_identifier(1), synthetic_identifier(11));
}

#[test]
fn capture_expression_escapes_around_group() {
    assert_eq!(capture_expression("./*.js"), r"\./(.*)\.js");
    assert_eq!(capture_expression("../a-(*)"), r"\.\./a\-\((.*)\)");
}

#[test]
fn capture_recovers_fragment() {
    let m = CaptureRegex::for_source("./*.js").unwrap();
    assert_eq!(m.capture("/cwd/dir/./my-file.js"), Some("my-file".to_string()));
    assert_eq!(m.capture("/cwd/dir/other.ts"), None);
}

#[test]
fn anchor_is_directory_of_file() {
    assert_eq!(anchor_prefix("/cwd", "src/index.js"), "/cwd/src/");
    assert_eq!(anchor_prefix("/cwd/", "index.js"), "/cwd/");
    assert_eq!(anchor_prefix("/cwd", "/abs/dir/index.js"), "/abs/dir/");
    assert_eq!(anchor_prefix("", "index.js"), "");
}

#[test]
fn relative_import_paths() {
    assert_eq!(relative_import("/cwd/dir/", "/cwd/dir/./a.js"), Some("./a.js".to_string()));
    assert_eq!(relative_import("/cwd/dir/", "/cwd/dir/sub/a.js"), Some("./sub/a.js".to_string()));
    assert_eq!(relative_import("/cwd/dir/", "/cwd/dir/../x/a.js"), Some("../x/a.js".to_string()));
    assert_eq!(relative_import("/cwd/dir/", "/other/a.js"), None);
    assert_eq!(relative_import("/p/", "/p/.x.js"), Some("./.x.js".to_string()));
    assert_eq!(relative_import("/p/", "/p/..a.js"), Some("./..a.js".to_string()));
    assert!(starts_with("abc", "ab"));
    assert!(!starts_with("ab", "abc"));
}

#[test]
fn expand_two_matches() {
    let mut importer = glob_importer("/p".to_string(), "index.js".to_string());
    let m = CaptureRegex::for_source("./*.js").unwrap();
    let paths = vec![Some("/p/./a.js".to_string()), Some("/p/./b.js".to_string())];
    let seg = importer.expand_paths("foo".to_string(), "./*.js", "/p/", &m, &paths).unwrap();
    assert_eq!(
        seg,
        vec![
            default_import("$_import_1", "./a.js"),
            default_import("$_import_2", "./b.js"),
            lookup("foo", &[("a", "$_import_1"), ("b", "$_import_2")]),
        ]
    );
}

#[test]
fn expand_counter_runs_on() {
    let mut importer = glob_importer("/p".to_string(), "index.js".to_string());
    let m = CaptureRegex::for_source("./*.js").unwrap();
    let one = vec![Some("/p/./a-b.js".to_string())];
    let first = importer.expand_paths("x".to_string(), "./*.js", "/p/", &m, &one).unwrap();
    let second = importer.expand_paths("y".to_string(), "./*.js", "/p/", &m, &one).unwrap();
    assert_eq!(first[1], lookup("x", &[("a_b", "$_import_1")]));
    assert_eq!(second[0], default_import("$_import_2", "./a-b.js"));
}

#[test]
fn expand_errors() {
    let mut importer = glob_importer("/p".to_string(), "index.js".to_string());
    let m = CaptureRegex::for_source("./*.js").unwrap();
    let unreadable = vec![Some("/p/./a.js".to_string()), None];
    assert_eq!(
        importer.expand_paths("foo".to_string(), "./*.js", "/p/", &m, &unreadable),
        Err(TransformError::Filesystem)
    );
    let elsewhere = vec![Some("/q/./a.js".to_string())];
    assert_eq!(
        importer.expand_paths("foo".to_string(), "./*.js", "/p/", &m, &elsewhere),
        Err(TransformError::InternalConsistency)
    );
    let unmatched = vec![Some("/p/a.ts".to_string())];
    assert_eq!(
        importer.expand_paths("foo".to_string(), "./*.js", "/p/", &m, &unmatched),
        Err(TransformError::InternalConsistency)
    );
}

#[test]
fn fold_zero_matches() {
    let mut importer = glob_importer("/no-such-dir-for-glob-import".to_string(), "index.js".to_string());
    let body = vec![default_import("foo", "./missing-*.js")];
    assert_eq!(importer.fold_module(body), Ok(vec![lookup("foo", &[])]));
}

#[test]
fn fold_leaves_other_items() {
    let mut importer = glob_importer("/no-such-dir-for-glob-import".to_string(), "index.js".to_string());
    let body = vec![
        ModuleItem::Other(0),
        default_import("a", "./a.js"),
        default_import("b", "./*-*.js"),
        ModuleItem::Other(1),
    ];
    let expected = vec![
        ModuleItem::Other(0),
        default_import("a", "./a.js"),
        default_import("b", "./*-*.js"),
        ModuleItem::Other(1),
    ];
    assert_eq!(importer.fold_module(body), Ok(expected));
}

#[test]
fn fold_keeps_order_around_expansion() {
    let mut importer = glob_importer("/no-such-dir-for-glob-import".to_string(), "index.js".to_string());
    let body = vec![
        ModuleItem::Other(0),
        default_import("foo", "./*.js"),
        ModuleItem::Other(1),
    ];
    let expected = vec![ModuleItem::Other(0), lookup("foo", &[]), ModuleItem::Other(1)];
    assert_eq!(importer.fold_module(body), Ok(expected));
}

#[test]
fn fold_rejects_named_specifier() {
    let mut importer = glob_importer("/no-such-dir-for-glob-import".to_string(), "index.js".to_string());
    let body = vec![ModuleItem::Import(ImportDecl {
        specifiers: vec![Specifier::Named { local: "x".to_string(), imported: None }],
        src: "./*.js".to_string(),
    })];
    assert_eq!(importer.fold_module(body), Err(TransformError::UnsupportedSpecifier));
    let body = vec![ModuleItem::Import(ImportDecl { specifiers: vec![], src: "./*.js".to_string() })];
    assert_eq!(importer.fold_module(body), Err(TransformError::UnsupportedSpecifier));
}

#[test]
fn fold_second_run_is_noop() {
    let mut importer = glob_importer("/no-such-dir-for-glob-import".to_string(), "index.js".to_string());
    let body = vec![default_import("foo", "./*.js"), ModuleItem::Other(3)];
    let once = importer.fold_module(body).unwrap();
    let mut again = glob_importer("/no-such-dir-for-glob-import".to_string(), "index.js".to_string());
    let expected = vec![lookup("foo", &[]), ModuleItem::Other(3)];
    assert_eq!(once, expected);
    assert_eq!(again.fold_module(once), Ok(expected));
}

#[test]
fn fold_expands_files_on_disk() {
    // The tests run from the package root; the files of tests/ are what the pattern finds.
    let mut importer = glob_importer(String::new(), "tests/index.js".to_string());
    let body = vec![default_import("all", "./*.rs")];
    let out = importer.fold_module(body).unwrap();
    let n = out.len();
    assert!(n >= 2);
    assert_eq!(out[0], default_import("$_import_1", "./transform.rs"));
    assert_eq!(out[n - 1], lookup("all", &[("transform", "$_import_1")]));
}

#[test]
fn fold_reports_refused_pattern() {
    let mut importer = glob_importer("/no-such-dir-for-glob-import".to_string(), "index.js".to_string());
    let body = vec![default_import("foo", "./*[")];
    assert_eq!(importer.fold_module(body), Err(TransformError::Filesystem));
}

#[test]
fn next_variable_id_counts_up() {
    let mut importer = glob_importer("/p".to_string(), "index.js".to_string());
    assert_eq!(importer.next_variable_id(), "$_import_1");
    assert_eq!(importer.next_variable_id(), "$_import_2");
    let mut fresh = glob_importer("/p".to_string(), "index.js".to_string());
    assert_eq!(fresh.next_variable_id(), "$_import_1");
}

#[test]
fn fold_named_first_wildcard_fails_before_search() {
    let mut importer = glob_importer(String::new(), "tests/index.js".to_string());
    let body = vec![
        ModuleItem::Other(0),
        ModuleItem::Import(ImportDecl {
            specifiers: vec![Specifier::Namespace("ns".to_string())],
            src: "./*.rs".to_string(),
        }),
        default_import("all", "./*.rs"),
    ];
    assert_eq!(importer.fold_module(body), Err(TransformError::UnsupportedSpecifier));
    assert_eq!(importer.next_variable_id(), "$_import_1");
}
