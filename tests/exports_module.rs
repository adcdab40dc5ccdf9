use css_modules::exports::{
    css_modules_exports_to_string, exports_entries_to_string, CssClassName, CssModulesError,
    Dependency, GraphModule, LocalsConvention, ModuleGraph,
};
use indexmap::IndexMap;

fn local(n: &str) -> CssClassName {
    CssClassName::Local { name: n.to_string() }
}

/// Module 0 imports "./other.css" (module 1, id "other"); module 2 imports
/// "./gone.css", which leads to no module.
fn graph() -> ModuleGraph {
    ModuleGraph {
        modules: vec![
            GraphModule { dependencies: vec![0, 1], id: "main".to_string() },
            GraphModule { dependencies: vec![], id: "other".to_string() },
            GraphModule { dependencies: vec![2], id: "third".to_string() },
        ],
        dependencies: vec![
            Dependency { request: "./other.css".to_string(), module: None },
            Dependency { request: "./other.css".to_string(), module: Some(1) },
            Dependency { request: "./gone.css".to_string(), module: None },
        ],
    }
}

fn as_is() -> LocalsConvention {
    LocalsConvention::new(true, false, false)
}

#[test]
fn lines_keep_insertion_order() {
    let mut m = IndexMap::new();
    m.insert("b".to_string(), vec![local("b1")]);
    m.insert("a".to_string(), vec![local("a1")]);
    m.insert("c".to_string(), vec![local("c1")]);
    let out = css_modules_exports_to_string(&m, 0, &graph(), &as_is()).ok().unwrap();
    assert_eq!(out, "module.exports = {\n  \"b\": \"b1\",\n  \"a\": \"a1\",\n  \"c\": \"c1\",\n};\n");
}

#[test]
fn conventions_fan_out() {
    let mut m = IndexMap::new();
    m.insert("fooBar".to_string(), vec![local("x")]);
    let conv = LocalsConvention::new(true, false, true);
    let out = css_modules_exports_to_string(&m, 0, &graph(), &conv).ok().unwrap();
    assert_eq!(out, "module.exports = {\n  \"fooBar\": \"x\",\n  \"foo-bar\": \"x\",\n};\n");
}

#[test]
fn camel_case_convention() {
    let mut m = IndexMap::new();
    m.insert("foo-bar".to_string(), vec![local("x")]);
    let conv = LocalsConvention::new(false, true, false);
    let out = css_modules_exports_to_string(&m, 0, &graph(), &conv).ok().unwrap();
    assert_eq!(out, "module.exports = {\n  \"fooBar\": \"x\",\n};\n");
}

#[test]
fn equal_transformed_keys_are_both_emitted() {
    let mut m = IndexMap::new();
    m.insert("foo".to_string(), vec![local("x")]);
    let conv = LocalsConvention::new(true, true, true);
    let out = css_modules_exports_to_string(&m, 0, &graph(), &conv).ok().unwrap();
    assert_eq!(out, "module.exports = {\n  \"foo\": \"x\",\n  \"foo\": \"x\",\n  \"foo\": \"x\",\n};\n");
}

#[test]
fn composition_joins_expressions() {
    let mut m = IndexMap::new();
    m.insert(
        "k".to_string(),
        vec![
            local("a"),
            CssClassName::Import { name: "b".to_string(), from: "./other.css".to_string() },
        ],
    );
    let out = css_modules_exports_to_string(&m, 0, &graph(), &as_is()).ok().unwrap();
    assert_eq!(
        out,
        "module.exports = {\n  \"k\": \"a\" + \" \" + __webpack_require__(\"other\")[\"b\"],\n};\n"
    );
}

#[test]
fn global_names_and_escaping() {
    let entries = vec![(
        "q\"k".to_string(),
        vec![CssClassName::Global { name: "g\\1".to_string() }],
    )];
    let out = exports_entries_to_string(&entries, 0, &graph(), &as_is()).ok().unwrap();
    assert_eq!(out, "module.exports = {\n  \"q\\\"k\": \"g\\\\1\",\n};\n");
}

#[test]
fn empty_table() {
    let m: IndexMap<String, Vec<CssClassName>> = IndexMap::new();
    let out = css_modules_exports_to_string(&m, 0, &graph(), &as_is()).ok().unwrap();
    assert_eq!(out, "module.exports = {\n};\n");
}

#[test]
fn missing_dependency_is_module_scoped_error() {
    let import = |from: &str| CssClassName::Import { name: "b".to_string(), from: from.to_string() };
    let mut bad = IndexMap::new();
    bad.insert("k".to_string(), vec![local("a"), import("./gone.css")]);
    match css_modules_exports_to_string(&bad, 2, &graph(), &as_is()) {
        Err(CssModulesError::UnresolvedImport { request }) => assert_eq!(request, "./gone.css"),
        Ok(_) => panic!("expected an error"),
    }
    let mut good = IndexMap::new();
    good.insert("k".to_string(), vec![import("./other.css")]);
    let out = css_modules_exports_to_string(&good, 0, &graph(), &as_is()).ok().unwrap();
    assert_eq!(out, "module.exports = {\n  \"k\": __webpack_require__(\"other\")[\"b\"],\n};\n");
}

#[test]
fn unknown_owner_module_is_an_error() {
    let entries = vec![(
        "k".to_string(),
        vec![CssClassName::Import { name: "b".to_string(), from: "./other.css".to_string() }],
    )];
    assert!(exports_entries_to_string(&entries, 9, &graph(), &as_is()).is_err());
}

#[test]
fn placeholder_constant() {
    assert_eq!(css_modules::AUTO_PUBLIC_PATH_PLACEHOLDER, "__RSPACK_PLUGIN_CSS_AUTO_PUBLIC_PATH__");
}
