//! The syntax-tree model and the specifier extractor.
//!
//! A parsed module is handed to the library as a [`Node`] tree that keeps
//! only what extraction reads: declarative imports, call expressions with
//! their callee shape and first argument, and the children of every other
//! node. The extractor walks the tree and produces the ordered static and
//! dynamic specifier lists.

use vstd::prelude::*;
use crate::bytes::{copy_bytes, views};

verus! {

/// A syntax-tree node, reduced to the shapes the specifier extractor reads.
pub enum Node {
    /// A declarative `import ... from "src"` form.
    Import { src: Vec<u8> },
    /// A call expression with its callee shape, first argument shape, and
    /// sub-expressions to visit when the call is not a matched form.
    Call { callee: CalleeKind, arg: ArgKind, children: Vec<Node> },
    /// Any other node; only its children matter to extraction.
    Other { children: Vec<Node> },
}

/// The callee of a call expression, as far as extraction cares.
pub enum CalleeKind {
    /// The identifier `require`.
    Require,
    /// The reserved `import(...)` call form.
    ImportFn,
    /// Anything else.
    Other,
}

/// The first argument of a call expression.
pub enum ArgKind {
    /// A literal string argument.
    Lit { text: Vec<u8> },
    /// A non-literal argument: such a call names no statically known module
    /// and contributes no specifier.
    NonLit,
    /// No arguments at all.
    Missing,
}

/// How a specifier was written: eagerly resolved at load time, or lazily at
/// run time.
#[derive(Clone, Copy, PartialEq, Eq, Structural, Debug)]
pub enum SpecKind {
    /// A declarative `import` or a `require(...)` call.
    Static,
    /// A dynamic `import(...)` call.
    Dynamic,
}

/// The static specifiers of a node, in source order: declarative imports and
/// literal `require(...)` calls. A matched `require`/`import()` call is not
/// recursed into, so its arguments contribute nothing further; every other
/// node contributes its children in order.
pub open spec fn static_specs(n: Node) -> Seq<Seq<u8>>
    decreases n,
{
    match n {
        Node::Import { src } => seq![src@],
        Node::Call { callee, arg, children } => match callee {
            CalleeKind::Require => match arg {
                ArgKind::Lit { text } => seq![text@],
                _ => Seq::empty(),
            },
            CalleeKind::ImportFn => Seq::empty(),
            CalleeKind::Other => static_specs_of(children@),
        },
        Node::Other { children } => static_specs_of(children@),
    }
}

/// The static specifiers of a sequence of sibling nodes, concatenated in order.
pub open spec fn static_specs_of(s: Seq<Node>) -> Seq<Seq<u8>>
    decreases s,
{
    if s.len() == 0 {
        Seq::empty()
    } else {
        static_specs(s[0]) + static_specs_of(s.drop_first())
    }
}

/// The dynamic specifiers of a node, in source order: literal `import(...)`
/// calls. The recursion mirrors `static_specs`.
pub open spec fn dynamic_specs(n: Node) -> Seq<Seq<u8>>
    decreases n,
{
    match n {
        Node::Import { src } => Seq::empty(),
        Node::Call { callee, arg, children } => match callee {
            CalleeKind::Require => Seq::empty(),
            CalleeKind::ImportFn => match arg {
                ArgKind::Lit { text } => seq![text@],
                _ => Seq::empty(),
            },
            CalleeKind::Other => dynamic_specs_of(children@),
        },
        Node::Other { children } => dynamic_specs_of(children@),
    }
}

/// The dynamic specifiers of a sequence of sibling nodes, concatenated in order.
pub open spec fn dynamic_specs_of(s: Seq<Node>) -> Seq<Seq<u8>>
    decreases s,
{
    if s.len() == 0 {
        Seq::empty()
    } else {
        dynamic_specs(s[0]) + dynamic_specs_of(s.drop_first())
    }
}

/// Extending a sibling sequence on the right appends that sibling's
/// specifiers on the right, for both categories.
proof fn lemma_specs_of_push(s: Seq<Node>, x: Node)
    ensures
        static_specs_of(s.push(x)) == static_specs_of(s) + static_specs(x),
        dynamic_specs_of(s.push(x)) == dynamic_specs_of(s) + dynamic_specs(x),
    decreases s,
{
    if s.len() == 0 {
        assert(s.push(x).drop_first() =~= s);
        assert(s.push(x)[0] == x);
        assert(static_specs_of(s.push(x)) == static_specs(x) + static_specs_of(s));
        assert(static_specs_of(s) == Seq::<Seq<u8>>::empty());
        assert(static_specs(x) + static_specs_of(s) =~= static_specs_of(s) + static_specs(x));
        assert(dynamic_specs_of(s.push(x)) == dynamic_specs(x) + dynamic_specs_of(s));
        assert(dynamic_specs_of(s) == Seq::<Seq<u8>>::empty());
        assert(dynamic_specs(x) + dynamic_specs_of(s) =~= dynamic_specs_of(s) + dynamic_specs(x));
    } else {
        assert(s.push(x).drop_first() =~= s.drop_first().push(x));
        assert(s.push(x)[0] == s[0]);
        lemma_specs_of_push(s.drop_first(), x);
        assert(static_specs_of(s.push(x)) =~= static_specs_of(s) + static_specs(x));
        assert(dynamic_specs_of(s.push(x)) =~= dynamic_specs_of(s) + dynamic_specs(x));
    }
}

/// Walks `n` and appends its static and dynamic specifiers, in source order,
/// to the two lists.
fn extract_into(n: &Node, statics: &mut Vec<Vec<u8>>, dynamics: &mut Vec<Vec<u8>>)
    ensures
        views(final(statics)@) == views(old(statics)@) + static_specs(*n),
        views(final(dynamics)@) == views(old(dynamics)@) + dynamic_specs(*n),
    decreases *n,
{
    match n {
        Node::Import { src } => {
            statics.push(copy_bytes(src));
            assert(views(statics@) =~~= views(old(statics)@) + static_specs(*n));
            assert(views(dynamics@) =~~= views(old(dynamics)@) + dynamic_specs(*n));
        },
        Node::Call { callee, arg, children } => match callee {
            CalleeKind::Require => {
                match arg {
                    ArgKind::Lit { text } => {
                        statics.push(copy_bytes(text));
                    },
                    _ => {},
                }
                assert(views(statics@) =~~= views(old(statics)@) + static_specs(*n));
                assert(views(dynamics@) =~~= views(old(dynamics)@) + dynamic_specs(*n));
            },
            CalleeKind::ImportFn => {
                match arg {
                    ArgKind::Lit { text } => {
                        dynamics.push(copy_bytes(text));
                    },
                    _ => {},
                }
                assert(views(statics@) =~~= views(old(statics)@) + static_specs(*n));
                assert(views(dynamics@) =~~= views(old(dynamics)@) + dynamic_specs(*n));
            },
            CalleeKind::Other => {
                extract_children(children, statics, dynamics);
            },
        },
        Node::Other { children } => {
            extract_children(children, statics, dynamics);
        },
    }
}

/// Walks each child in order, appending its specifiers.
fn extract_children(children: &Vec<Node>, statics: &mut Vec<Vec<u8>>, dynamics: &mut Vec<Vec<u8>>)
    ensures
        views(final(statics)@) == views(old(statics)@) + static_specs_of(children@),
        views(final(dynamics)@) == views(old(dynamics)@) + dynamic_specs_of(children@),
    decreases children@,
{
    let mut i: usize = 0;
    while i < children.len()
        invariant
            i <= children.len(),
            views(statics@) == views(old(statics)@) + static_specs_of(
                children@.subrange(0, i as int),
            ),
            views(dynamics@) == views(old(dynamics)@) + dynamic_specs_of(
                children@.subrange(0, i as int),
            ),
        decreases children.len() - i,
    {
        proof {
            assert(children@[i as int] == children@.subrange(0, children@.len() as int)[i as int]);
        }
        extract_into(&children[i], statics, dynamics);
        proof {
            lemma_specs_of_push(children@.subrange(0, i as int), children@[i as int]);
            assert(children@.subrange(0, i + 1) =~= children@.subrange(0, i as int).push(
                children@[i as int],
            ));
        }
        i = i + 1;
    }
    assert(children@.subrange(0, i as int) =~= children@);
}

/// Produces the ordered static and dynamic specifier lists of a module's
/// syntax tree. Two identical occurrences yield two entries: the lists are a
/// faithful transcript of source occurrences, deduplicated only later, at
/// traversal level.
pub fn extract(n: &Node) -> (r: (Vec<Vec<u8>>, Vec<Vec<u8>>))
    ensures
        views(r.0@) == static_specs(*n),
        views(r.1@) == dynamic_specs(*n),
{
    let mut statics: Vec<Vec<u8>> = Vec::new();
    let mut dynamics: Vec<Vec<u8>> = Vec::new();
    assert(views(statics@) =~~= Seq::<Seq<u8>>::empty());
    assert(views(dynamics@) =~~= Seq::<Seq<u8>>::empty());
    extract_into(n, &mut statics, &mut dynamics);
    assert(views(statics@) =~~= static_specs(*n));
    assert(views(dynamics@) =~~= dynamic_specs(*n));
    (statics, dynamics)
}

} // verus!
