//! Builds a module dependency graph for a JavaScript/TypeScript codebase:
//! given entry-point files, it discovers the modules each file depends on
//! (declarative `import`, CommonJS `require`, dynamic `import()`), resolves
//! each specifier to a canonical module identity, and traverses transitively
//! until the reachable module set is known.
//!
//! Parsing and file reads are outside capabilities: the traversal is a
//! resumable state machine that asks its host to probe for a file or to load
//! one, and does every decision — extraction, resolution, deduplication,
//! cycle breaking — in verified code.

use vstd::prelude::*;

pub mod ast;
pub mod resolve;
pub mod traverse;
pub mod bytes;

use crate::bytes::{views, opt_view};
use crate::resolve::DOT;
use crate::traverse::IntoIter;

verus! {

/// The default probe order for extensionless specifiers:
/// `.ts`, `.tsx`, `.js`, `.jsx`.
pub open spec fn default_extensions() -> Seq<Seq<u8>> {
    seq![
        seq![DOT, 116u8, 115u8],
        seq![DOT, 116u8, 115u8, 120u8],
        seq![DOT, 106u8, 115u8],
        seq![DOT, 106u8, 115u8, 120u8],
    ]
}

/// Builds the default extension list.
fn default_exts_vec() -> (v: Vec<Vec<u8>>)
    ensures
        views(v@) == default_extensions(),
{
    let mut v: Vec<Vec<u8>> = Vec::new();
    let ts: Vec<u8> = vec![DOT, 116u8, 115u8];
    let tsx: Vec<u8> = vec![DOT, 116u8, 115u8, 120u8];
    let js: Vec<u8> = vec![DOT, 106u8, 115u8];
    let jsx: Vec<u8> = vec![DOT, 106u8, 115u8, 120u8];
    v.push(ts);
    v.push(tsx);
    v.push(js);
    v.push(jsx);
    proof {
        assert(views(v@) =~~= default_extensions());
    }
    v
}

/// The traversal configuration: the entry points to seed the frontier with,
/// an optional root for bare specifiers, and the extension probe order.
#[derive(Debug)]
pub struct Graph {
    /// The entry-point paths, in the order they were added.
    pub entries: Vec<Vec<u8>>,
    /// The root that bare specifiers and entries may be tried against.
    pub root_dir: Option<Vec<u8>>,
    /// The recognized source extensions, in probe order.
    pub extensions: Vec<Vec<u8>>,
}

impl Graph {
    /// An empty configuration: no entries, no root, the default extensions.
    pub fn new() -> (g: Graph)
        ensures
            g.entries@.len() == 0,
            g.root_dir is None,
            views(g.extensions@) == default_extensions(),
    {
        Graph { entries: Vec::new(), root_dir: Option::None, extensions: default_exts_vec() }
    }

    /// Adds one entry point.
    pub fn add(&mut self, p: Vec<u8>)
        ensures
            final(self).entries@ == old(self).entries@.push(p),
            final(self).root_dir == old(self).root_dir,
            final(self).extensions == old(self).extensions,
    {
        self.entries.push(p);
    }

    /// Sets the root that bare specifiers and entries are tried against.
    pub fn root(&mut self, p: Vec<u8>)
        ensures
            final(self).root_dir == Option::Some(p),
            final(self).entries@ == old(self).entries@,
            final(self).extensions == old(self).extensions,
    {
        self.root_dir = Option::Some(p);
    }

    /// Whether this configuration can start a traversal: at least one entry
    /// is required. A configuration without entries is a configuration
    /// failure, rejected before traversal starts rather than discovered
    /// during it; per-module failures, by contrast, never stop a traversal.
    pub fn has_entries(&self) -> (r: bool)
        ensures
            r == (self.entries@.len() > 0),
    {
        self.entries.len() > 0
    }

    /// Starts the traversal this configuration describes. The entries seed
    /// the engine's cursor as the specifiers of a synthetic root; a fresh
    /// traversal must be constructed to run the graph again.
    pub fn into_iter(self) -> (it: IntoIter)
        ensures
            it.wf(),
            it.phase is Resolving,
            it.records@.len() == 0,
            it.edges@.len() == 0,
            it.visited_ids().len() == 0,
            it.frontier@.len() == 0,
            crate::traverse::spec_texts(it.cur_specs@) == views(self.entries@),
            forall|i: int|
                0 <= i < it.cur_specs@.len() ==> (#[trigger] it.cur_specs@[i].kind)
                    == crate::ast::SpecKind::Static,
            it.cur_entry,
            it.cur_i == 0,
            it.cur_j == 0,
            it.cur_cands@.len() == 0,
            it.cur_new@.len() == 0,
            it.cur_dir@.len() == 0,
            opt_view(it.cur_from) is None,
            opt_view(it.root_dir) == opt_view(self.root_dir),
            views(it.exts@) == views(self.extensions@),
    {
        IntoIter::begin(self.entries, self.root_dir, self.extensions)
    }
}

impl Default for Graph {
    /// The same configuration `new` builds.
    fn default() -> (g: Graph)
        ensures
            g.entries@.len() == 0,
            g.root_dir is None,
            views(g.extensions@) == default_extensions(),
    {
        Graph::new()
    }
}

/// The plain values a command line is parsed into.
pub struct Args {
    /// The entry-point paths.
    pub entries: Vec<Vec<u8>>,
    /// The root directory, if one was given.
    pub root: Option<Vec<u8>>,
}

impl Args {
    /// Turns parsed arguments into a traversal configuration.
    pub fn init(self) -> (g: Graph)
        ensures
            g.entries@ == self.entries@,
            g.root_dir == self.root,
            views(g.extensions@) == default_extensions(),
    {
        let mut g = Graph::new();
        match self.root {
            Option::Some(r) => {
                g.root(r);
            },
            Option::None => {},
        }
        let mut rest = self.entries;
        let ghost all = rest@;
        let total = rest.len();
        proof {
            assert(all.len() == total as int);
        }
        let mut taken: usize = 0;
        while rest.len() > 0
            invariant
                all.len() <= usize::MAX,
                taken as int + rest@.len() == all.len(),
                rest@ == all.subrange(taken as int, all.len() as int),
                g.entries@ == all.subrange(0, taken as int),
                g.root_dir == self.root,
                views(g.extensions@) == default_extensions(),
            decreases rest@.len(),
        {
            let e = rest.remove(0);
            proof {
                assert(e == all[taken as int]);
            }
            g.add(e);
            taken = taken + 1;
            proof {
                assert(rest@ =~= all.subrange(taken as int, all.len() as int));
                assert(g.entries@ =~= all.subrange(0, taken as int));
            }
        }
        proof {
            assert(g.entries@ =~= all);
        }
        g
    }
}

} // verus!
