use esm_graph::ast::{ArgKind, CalleeKind, Node, SpecKind};
use esm_graph::traverse::{Action, IntoIter, LoadFailure, LoadOutcome};
use esm_graph::Graph;

fn require_lit(text: &str) -> Node {
    Node::Call {
        callee: CalleeKind::Require,
        arg: ArgKind::Lit { text: text.as_bytes().to_vec() },
        children: Vec::new(),
    }
}

fn import_fn_lit(text: &str) -> Node {
    Node::Call {
        callee: CalleeKind::ImportFn,
        arg: ArgKind::Lit { text: text.as_bytes().to_vec() },
        children: Vec::new(),
    }
}

fn import(src: &str) -> Node {
    Node::Import { src: src.as_bytes().to_vec() }
}

fn wrap(children: Vec<Node>) -> Node {
    Node::Other { children }
}

// Drives a traversal against a host that answers existence from `files` and
// loads each file's tree with `load`. Returns the yielded record indices in
// emission order.
fn drive(
    it: &mut IntoIter,
    exists: &dyn Fn(&str) -> bool,
    load: &dyn Fn(&str) -> LoadOutcome,
) -> Vec<usize> {
    let mut yields = Vec::new();
    let mut steps = 0usize;
    loop {
        steps += 1;
        assert!(steps < 10_000, "traversal did not finish");
        match it.poll() {
            Action::Continue => {}
            Action::Probe(p) => {
                let path = String::from_utf8(p).unwrap();
                it.provide_exists(exists(&path));
            }
            Action::Load(id) => {
                let path = String::from_utf8(id).unwrap();
                it.provide_load(load(&path));
            }
            Action::Yield(i) => yields.push(i),
            Action::Finished => break,
        }
    }
    yields
}

fn record_ids(it: &IntoIter) -> Vec<String> {
    it.records_so_far()
        .iter()
        .map(|r| String::from_utf8(r.id.clone()).unwrap())
        .collect()
}

// The end-to-end scenario: `a.js` requires `./b.js`, `b.js` dynamically
// imports `./c.js`, `c.js` is empty. All three modules are recorded, in
// emission order a, b, c, with a static edge a -> b and a dynamic edge
// b -> c.
#[test]
fn end_to_end_chain() {
    let mut g = Graph::new();
    g.add(b"a.js".to_vec());
    let mut it = g.into_iter();
    let yields = drive(
        &mut it,
        &|p| p == "a.js",
        &|p| match p {
            "a.js" => LoadOutcome::Tree(wrap(vec![require_lit("./b.js")])),
            "b.js" => LoadOutcome::Tree(wrap(vec![import_fn_lit("./c.js")])),
            "c.js" => LoadOutcome::Tree(wrap(vec![])),
            _ => panic!("unexpected load of {}", p),
        },
    );
    assert!(it.is_finished());
    assert_eq!(yields, vec![0, 1, 2]);
    assert_eq!(record_ids(&it), vec!["a.js", "b.js", "c.js"]);
    let edges = it.edges_so_far();
    assert_eq!(edges.len(), 3);
    // the entry edge, from the synthetic root
    assert_eq!(edges[0].from, None);
    assert_eq!(edges[0].to, Some(b"a.js".to_vec()));
    // a.js -> b.js, static
    assert_eq!(edges[1].from, Some(b"a.js".to_vec()));
    assert_eq!(edges[1].text, b"./b.js".to_vec());
    assert_eq!(edges[1].kind, SpecKind::Static);
    assert_eq!(edges[1].to, Some(b"b.js".to_vec()));
    // b.js -> c.js, dynamic
    assert_eq!(edges[2].from, Some(b"b.js".to_vec()));
    assert_eq!(edges[2].kind, SpecKind::Dynamic);
    assert_eq!(edges[2].to, Some(b"c.js".to_vec()));
}

// Cycle termination: A requires B, B requires A. The traversal reaches the
// finished state and each module is recorded exactly once.
#[test]
fn cycle_terminates_and_records_once() {
    let mut g = Graph::new();
    g.add(b"a.js".to_vec());
    let mut it = g.into_iter();
    drive(
        &mut it,
        &|p| p == "a.js",
        &|p| match p {
            "a.js" => LoadOutcome::Tree(wrap(vec![require_lit("./b.js")])),
            "b.js" => LoadOutcome::Tree(wrap(vec![require_lit("./a.js")])),
            _ => panic!("unexpected load of {}", p),
        },
    );
    assert!(it.is_finished());
    assert_eq!(record_ids(&it), vec!["a.js", "b.js"]);
    // the back edge was still recorded
    let edges = it.edges_so_far();
    assert_eq!(edges[2].from, Some(b"b.js".to_vec()));
    assert_eq!(edges[2].to, Some(b"a.js".to_vec()));
}

// No duplicate visits: two edges point at the same module, which is loaded
// and recorded only once.
#[test]
fn duplicate_edges_single_record() {
    let mut g = Graph::new();
    g.add(b"a.js".to_vec());
    let mut it = g.into_iter();
    drive(
        &mut it,
        &|p| p == "a.js",
        &|p| match p {
            "a.js" => LoadOutcome::Tree(wrap(vec![
                require_lit("./b.js"),
                require_lit("./b.js"),
            ])),
            "b.js" => LoadOutcome::Tree(wrap(vec![])),
            _ => panic!("unexpected load of {}", p),
        },
    );
    assert_eq!(record_ids(&it), vec!["a.js", "b.js"]);
    // both occurrences are edges
    let to_b = it
        .edges_so_far()
        .iter()
        .filter(|e| e.to == Some(b"b.js".to_vec()))
        .count();
    assert_eq!(to_b, 2);
}

// Resolution failure is not fatal: `main.js` imports `./missing`, no
// candidate exists, the edge is recorded with no target, and the traversal
// still finishes.
#[test]
fn resolution_failure_is_nonfatal() {
    let mut g = Graph::new();
    g.add(b"main.js".to_vec());
    let mut it = g.into_iter();
    drive(
        &mut it,
        &|p| p == "main.js",
        &|p| match p {
            "main.js" => LoadOutcome::Tree(wrap(vec![import("./missing")])),
            _ => panic!("unexpected load of {}", p),
        },
    );
    assert!(it.is_finished());
    assert_eq!(record_ids(&it), vec!["main.js"]);
    let from_main: Vec<_> = it
        .edges_so_far()
        .iter()
        .filter(|e| e.from == Some(b"main.js".to_vec()))
        .collect();
    assert_eq!(from_main.len(), 1);
    assert_eq!(from_main[0].text, b"./missing".to_vec());
    assert_eq!(from_main[0].to, None);
}

// An unreadable file gets a record with the read failure and empty lists;
// traversal goes on.
#[test]
fn read_failure_is_recorded() {
    let mut g = Graph::new();
    g.add(b"bad.js".to_vec());
    let mut it = g.into_iter();
    drive(&mut it, &|p| p == "bad.js", &|_| LoadOutcome::ReadFailure);
    assert!(it.is_finished());
    let recs = it.records_so_far();
    assert_eq!(recs.len(), 1);
    assert_eq!(recs[0].failure, Some(LoadFailure::Read));
    assert!(recs[0].statics.is_empty());
    assert!(recs[0].dynamics.is_empty());
}

// A file the parser rejects gets a record with the syntax failure.
#[test]
fn syntax_failure_is_recorded() {
    let mut g = Graph::new();
    g.add(b"odd.js".to_vec());
    let mut it = g.into_iter();
    drive(&mut it, &|p| p == "odd.js", &|_| LoadOutcome::SyntaxFailure);
    assert!(it.is_finished());
    let recs = it.records_so_far();
    assert_eq!(recs[0].failure, Some(LoadFailure::Syntax));
}

// An entry that exists nowhere becomes an unresolvable entry edge; nothing
// is loaded and the traversal finishes.
#[test]
fn unresolvable_entry() {
    let mut g = Graph::new();
    g.add(b"ghost.js".to_vec());
    let mut it = g.into_iter();
    drive(&mut it, &|_| false, &|p| panic!("unexpected load of {}", p));
    assert!(it.is_finished());
    assert_eq!(it.records_so_far().len(), 0);
    let edges = it.edges_so_far();
    assert_eq!(edges.len(), 1);
    assert_eq!(edges[0].from, None);
    assert_eq!(edges[0].to, None);
}

// An extensionless specifier probes the extension candidates in order and
// takes the first that exists.
#[test]
fn extension_probing_takes_first_existing() {
    let mut g = Graph::new();
    g.add(b"a.js".to_vec());
    let mut it = g.into_iter();
    drive(
        &mut it,
        &|p| p == "a.js" || p == "lib.js",
        &|p| match p {
            "a.js" => LoadOutcome::Tree(wrap(vec![require_lit("./lib")])),
            "lib.js" => LoadOutcome::Tree(wrap(vec![])),
            _ => panic!("unexpected load of {}", p),
        },
    );
    assert_eq!(record_ids(&it), vec!["a.js", "lib.js"]);
}

// A bare specifier resolves relative to the configured root; without a root
// it is unresolvable.
#[test]
fn bare_specifier_uses_root() {
    let mut g = Graph::new();
    g.root(b"src".to_vec());
    g.add(b"a.js".to_vec());
    let mut it = g.into_iter();
    drive(
        &mut it,
        &|p| p == "a.js" || p == "src/pkg.js",
        &|p| match p {
            "a.js" => LoadOutcome::Tree(wrap(vec![require_lit("pkg.js")])),
            "src/pkg.js" => LoadOutcome::Tree(wrap(vec![])),
            _ => panic!("unexpected load of {}", p),
        },
    );
    assert_eq!(record_ids(&it), vec!["a.js", "src/pkg.js"]);
}

// Abandoning the traversal early leaves the partial graph valid.
#[test]
fn cancel_keeps_partial_graph() {
    let mut g = Graph::new();
    g.add(b"a.js".to_vec());
    let mut it = g.into_iter();
    // drive only until the first record is yielded
    let mut yielded = false;
    while !yielded {
        match it.poll() {
            Action::Continue => {}
            Action::Probe(_) => it.provide_exists(true),
            Action::Load(_) => {
                it.provide_load(LoadOutcome::Tree(wrap(vec![require_lit("./b.js")])))
            }
            Action::Yield(_) => yielded = true,
            Action::Finished => panic!("finished before the first record"),
        }
    }
    it.cancel();
    assert!(it.is_finished());
    assert_eq!(record_ids(&it), vec!["a.js"]);
}

// The depth-first order: with two entries, the first entry's whole chain is
// emitted before the second entry.
#[test]
fn depth_first_emission_order() {
    let mut g = Graph::new();
    g.add(b"a.js".to_vec());
    g.add(b"z.js".to_vec());
    let mut it = g.into_iter();
    drive(
        &mut it,
        &|p| p == "a.js" || p == "z.js",
        &|p| match p {
            "a.js" => LoadOutcome::Tree(wrap(vec![require_lit("./deep.js")])),
            "deep.js" => LoadOutcome::Tree(wrap(vec![])),
            "z.js" => LoadOutcome::Tree(wrap(vec![])),
            _ => panic!("unexpected load of {}", p),
        },
    );
    assert_eq!(record_ids(&it), vec!["a.js", "deep.js", "z.js"]);
}

// One entry under a configured root, one record out, rendered as the
// command line prints a discovered module.
#[test]
fn parse_example_js() {
    let mut g = Graph::new();
    g.root(b"tests/data".to_vec());
    g.add(b"example.js".to_vec());
    let mut it = g.into_iter();
    let mut imports: Vec<String> = Vec::new();
    let mut steps = 0usize;
    loop {
        steps += 1;
        assert!(steps < 10_000, "traversal did not finish");
        match it.poll() {
            Action::Continue => {}
            Action::Probe(p) => it.provide_exists(p == b"example.js".to_vec()),
            Action::Load(_) => it.provide_load(LoadOutcome::Tree(wrap(vec![]))),
            Action::Yield(i) => {
                let rec = it.record_at(i);
                let name = String::from_utf8(rec.id.clone()).expect("failed to parse");
                imports.push(format!("{:?}", name));
            }
            Action::Finished => break,
        }
    }
    assert_eq!(vec!["\"example.js\""], imports);
}
