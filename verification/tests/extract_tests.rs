use esm_graph::ast::{extract, ArgKind, CalleeKind, Node};

fn import(src: &str) -> Node {
    Node::Import { src: src.as_bytes().to_vec() }
}

fn require_lit(text: &str) -> Node {
    Node::Call {
        callee: CalleeKind::Require,
        arg: ArgKind::Lit { text: text.as_bytes().to_vec() },
        children: Vec::new(),
    }
}

fn import_fn_lit(text: &str) -> Node {
    Node::Call {
        callee: CalleeKind::ImportFn,
        arg: ArgKind::Lit { text: text.as_bytes().to_vec() },
        children: Vec::new(),
    }
}

fn wrap(children: Vec<Node>) -> Node {
    Node::Other { children }
}

fn other_call(children: Vec<Node>) -> Node {
    Node::Call { callee: CalleeKind::Other, arg: ArgKind::Missing, children }
}

fn texts(v: &[&str]) -> Vec<Vec<u8>> {
    v.iter().map(|s| s.as_bytes().to_vec()).collect()
}

// A module with six declarative imports, one dynamic import assigned to a
// binding, and one dynamic import at the head of a `.then(...).catch(...)`
// chain (the matched call sits below two unmatched member calls).
#[test]
fn imports_parse_imports() {
    let module = wrap(vec![
        import("url-search-params-polyfill"),
        import("react"),
        import("react-dom"),
        import("@sentry/browser"),
        import("./app/state"),
        import("../example.rs"),
        wrap(vec![import_fn_lit("./dynamic/import1.js")]),
        other_call(vec![other_call(vec![
            import_fn_lit("./dynamic/import2.js"),
            wrap(vec![]),
        ])]),
    ]);
    let (statics, dynamics) = extract(&module);
    assert_eq!(
        statics,
        texts(&[
            "url-search-params-polyfill",
            "react",
            "react-dom",
            "@sentry/browser",
            "./app/state",
            "../example.rs",
        ])
    );
    assert_eq!(dynamics, texts(&["./dynamic/import1.js", "./dynamic/import2.js"]));
}

// A module that pulls everything in through `require(...)` calls, in several
// statement shapes; one `require` result is immediately called.
#[test]
fn imports_parse_require() {
    let module = wrap(vec![
        require_lit("url-search-params-polyfill"),
        wrap(vec![require_lit("react")]),
        wrap(vec![require_lit("react-dom")]),
        wrap(vec![require_lit("@sentry/browser")]),
        wrap(vec![]),
        wrap(vec![require_lit("./app/state")]),
        other_call(vec![require_lit("../example.rs")]),
        other_call(vec![wrap(vec![])]),
    ]);
    let (statics, dynamics) = extract(&module);
    assert_eq!(
        statics,
        texts(&[
            "url-search-params-polyfill",
            "react",
            "react-dom",
            "@sentry/browser",
            "./app/state",
            "../example.rs",
        ])
    );
    assert_eq!(dynamics, Vec::<Vec<u8>>::new());
}

// A module of declarative imports only.
#[test]
fn parse_parse_imports() {
    let module = wrap(vec![
        import("url-search-params-polyfill"),
        import("react"),
        import("react-dom"),
        import("@sentry/browser"),
        import("./app/state"),
        import("../example.rs"),
    ]);
    let (statics, _dynamics) = extract(&module);
    assert_eq!(
        statics,
        texts(&[
            "url-search-params-polyfill",
            "react",
            "react-dom",
            "@sentry/browser",
            "./app/state",
            "../example.rs",
        ])
    );
}

// A module of require calls only.
#[test]
fn parse_parse_require() {
    let module = wrap(vec![
        require_lit("url-search-params-polyfill"),
        wrap(vec![require_lit("react")]),
        wrap(vec![require_lit("react-dom")]),
        wrap(vec![require_lit("@sentry/browser")]),
        wrap(vec![require_lit("./app/state")]),
        other_call(vec![require_lit("../example.rs")]),
    ]);
    let (statics, _dynamics) = extract(&module);
    assert_eq!(
        statics,
        texts(&[
            "url-search-params-polyfill",
            "react",
            "react-dom",
            "@sentry/browser",
            "./app/state",
            "../example.rs",
        ])
    );
}

// Order preservation: specifiers come back in source order, each with the
// right category: `import x from "a"` is static, `require("b")` is static,
// `import("c")` is dynamic.
#[test]
fn extractor_keeps_source_order_and_kinds() {
    let module = wrap(vec![import("a"), require_lit("b"), import_fn_lit("c")]);
    let (statics, dynamics) = extract(&module);
    assert_eq!(statics, texts(&["a", "b"]));
    assert_eq!(dynamics, texts(&["c"]));
}

// A `require` whose argument is not a string literal names no statically
// known module: it contributes nothing, and the matched call is not
// recursed into.
#[test]
fn non_literal_require_is_skipped() {
    let module = wrap(vec![Node::Call {
        callee: CalleeKind::Require,
        arg: ArgKind::NonLit,
        children: vec![require_lit("./hidden.js")],
    }]);
    let (statics, dynamics) = extract(&module);
    assert_eq!(statics, Vec::<Vec<u8>>::new());
    assert_eq!(dynamics, Vec::<Vec<u8>>::new());
}

// A call with no arguments contributes nothing either.
#[test]
fn empty_argument_require_is_skipped() {
    let module = wrap(vec![Node::Call {
        callee: CalleeKind::Require,
        arg: ArgKind::Missing,
        children: vec![],
    }]);
    let (statics, dynamics) = extract(&module);
    assert_eq!(statics, Vec::<Vec<u8>>::new());
    assert_eq!(dynamics, Vec::<Vec<u8>>::new());
}

// A dynamic `import(...)` whose argument is not a string literal is just as
// invisible as a non-literal `require`.
#[test]
fn non_literal_dynamic_import_is_skipped() {
    let module = wrap(vec![Node::Call {
        callee: CalleeKind::ImportFn,
        arg: ArgKind::NonLit,
        children: vec![],
    }]);
    let (statics, dynamics) = extract(&module);
    assert_eq!(statics, Vec::<Vec<u8>>::new());
    assert_eq!(dynamics, Vec::<Vec<u8>>::new());
}

// Two identical occurrences yield two entries: extraction does not
// deduplicate; only the traversal's visited set does.
#[test]
fn extractor_does_not_deduplicate() {
    let module = wrap(vec![require_lit("./x.js"), require_lit("./x.js")]);
    let (statics, _) = extract(&module);
    assert_eq!(statics, texts(&["./x.js", "./x.js"]));
}
