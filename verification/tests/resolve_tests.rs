use esm_graph::bytes::{bytes_eq, contains_bytes, ends_with, starts_with};
use esm_graph::resolve::{dirname, expand, has_recognized_ext, normalize, plan_edge, plan_entry,
    Plan};

fn b(s: &str) -> Vec<u8> {
    s.as_bytes().to_vec()
}

fn exts() -> Vec<Vec<u8>> {
    vec![b(".ts"), b(".tsx"), b(".js"), b(".jsx")]
}

#[test]
fn normalize_removes_dot_segments() {
    assert_eq!(normalize(&b("./a/../b.js")), b("b.js"));
    assert_eq!(normalize(&b("a//b/./c")), b("a/b/c"));
    assert_eq!(normalize(&b("a/b/../../c.js")), b("c.js"));
    assert_eq!(normalize(&b("../up.js")), b("../up.js"));
    assert_eq!(normalize(&b("plain.js")), b("plain.js"));
}

#[test]
fn normalize_is_idempotent_on_these() {
    for p in ["./a/../b.js", "a//b/./c", "../../x", "a/b/c.js"] {
        let once = normalize(&b(p));
        let twice = normalize(&once);
        assert_eq!(once, twice);
    }
}

#[test]
fn dirname_takes_everything_before_last_slash() {
    assert_eq!(dirname(&b("a/b/c.js")), b("a/b"));
    assert_eq!(dirname(&b("c.js")), b(""));
    assert_eq!(dirname(&b("a/")), b("a"));
}

// Idempotent identity on concrete values: two relative specifiers that
// denote the same file resolve to the same module identity.
#[test]
fn same_file_same_identity() {
    let p1 = plan_edge(&b("./b.js"), &b("a"), &None, &exts());
    let p2 = plan_edge(&b("../a/b.js"), &b("a"), &None, &exts());
    match (p1, p2) {
        (Plan::Resolved(id1), Plan::Resolved(id2)) => {
            assert_eq!(id1, b("a/b.js"));
            assert_eq!(id1, id2);
        }
        _ => panic!("both specifiers should resolve outright"),
    }
}

// The bare-specifier side of the same law: two bare specifiers that denote
// the same file under the root get identical candidate lists.
#[test]
fn same_file_same_identity_bare() {
    let p1 = plan_edge(&b("a/pkg.js"), &b("x"), &Some(b("src")), &exts());
    let p2 = plan_edge(&b("a/../a/pkg.js"), &b("y"), &Some(b("src")), &exts());
    match (p1, p2) {
        (Plan::Probe(c1), Plan::Probe(c2)) => {
            assert_eq!(c1, vec![b("src/a/pkg.js")]);
            assert_eq!(c1, c2);
        }
        _ => panic!("both bare specifiers should probe under the root"),
    }
}

// A relative specifier without a recognized extension probes the extension
// candidates, then the index fallback, in the configured order.
#[test]
fn extensionless_probe_order() {
    let p = plan_edge(&b("./lib"), &b(""), &None, &exts());
    match p {
        Plan::Probe(cands) => {
            let got: Vec<String> = cands
                .iter()
                .map(|c| String::from_utf8(c.clone()).unwrap())
                .collect();
            assert_eq!(
                got,
                vec![
                    "lib.ts",
                    "lib.tsx",
                    "lib.js",
                    "lib.jsx",
                    "lib/index.ts",
                    "lib/index.tsx",
                    "lib/index.js",
                    "lib/index.jsx",
                ]
            );
        }
        _ => panic!("an extensionless specifier should probe"),
    }
}

// A bare specifier without a root is unresolvable; with a root it is tried
// relative to the root.
#[test]
fn bare_specifier_policy() {
    let none = plan_edge(&b("react"), &b("a"), &None, &exts());
    assert!(matches!(none, Plan::Unresolvable));
    let rooted = plan_edge(&b("pkg.js"), &b("a"), &Some(b("src")), &exts());
    match rooted {
        Plan::Probe(cands) => {
            assert_eq!(cands, vec![b("src/pkg.js")]);
        }
        _ => panic!("a rooted bare specifier should probe"),
    }
}

// An entry is tried as the path it names first, then relative to the root.
#[test]
fn entry_tried_as_given_then_under_root() {
    let p = plan_entry(&b("example.js"), &Some(b("tests/data")), &exts());
    match p {
        Plan::Probe(cands) => {
            assert_eq!(cands, vec![b("example.js"), b("tests/data/example.js")]);
        }
        _ => panic!("entries always probe"),
    }
}

#[test]
fn expand_appends_extensions_and_index() {
    let cands = expand(&b("x"), &vec![b(".js")]);
    assert_eq!(cands, vec![b("x.js"), b("x/index.js")]);
}

#[test]
fn recognized_extension_check() {
    assert!(has_recognized_ext(&b("a/b.tsx"), &exts()));
    assert!(!has_recognized_ext(&b("a/b.rs"), &exts()));
}

#[test]
fn byte_helpers() {
    assert!(bytes_eq(&b("abc"), &b("abc")));
    assert!(!bytes_eq(&b("abc"), &b("abd")));
    assert!(starts_with(&b("./x"), &b("./")));
    assert!(!starts_with(&b(".x"), &b("./")));
    assert!(ends_with(&b("a.js"), &b(".js")));
    assert!(!ends_with(&b("a.json"), &b(".js")));
    let hay = vec![b("one"), b("two")];
    assert!(contains_bytes(&hay, &b("two")));
    assert!(!contains_bytes(&hay, &b("three")));
}
