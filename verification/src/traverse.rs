//! The traversal engine: a resumable state machine that turns entry points
//! into a deduplicated stream of module records and an edge list.
//!
//! The engine owns the frontier (pending work, a stack, so traversal is
//! depth-first) and the visited set; the host performs the two outside
//! actions the engine cannot — probing a path for existence and loading a
//! file into a syntax tree — and hands the answers back. A module identity
//! enters the visited set exactly when its load is dispatched and is never
//! removed, which bounds traversal on cyclic graphs: an edge back into a
//! visited module records the edge and loads nothing.

use vstd::prelude::*;
use crate::ast::{Node, SpecKind, static_specs, dynamic_specs, extract};
use crate::bytes::{views, opt_view, copy_bytes, copy_opt, contains_bytes};
use crate::resolve::{Plan, PlanModel, plan_model, plan_edge, plan_entry, edge_plan_spec,
    entry_plan_spec, dirname, dirname_spec};

verus! {

/// Why a module could not be read into a syntax tree.
#[derive(Clone, Copy, PartialEq, Eq, Structural, Debug)]
pub enum LoadFailure {
    /// The file could not be read.
    Read,
    /// The parser rejected the source.
    Syntax,
}

/// The host's answer to a load request.
pub enum LoadOutcome {
    /// The file was read and parsed into this tree.
    Tree(Node),
    /// The file could not be read.
    ReadFailure,
    /// The parser rejected the source.
    SyntaxFailure,
}

/// One import occurrence: its literal text and how it was written.
pub struct Specifier {
    /// The literal text of the specifier.
    pub text: Vec<u8>,
    /// Static (`import`, `require`) or dynamic (`import(...)`).
    pub kind: SpecKind,
}

/// One loaded module: its identity, its ordered specifier lists, and the
/// failure that emptied them, if any. Immutable once produced.
pub struct ModuleRecord {
    /// The canonical module identity.
    pub id: Vec<u8>,
    /// The static specifiers, in source order.
    pub statics: Vec<Vec<u8>>,
    /// The dynamic specifiers, in source order.
    pub dynamics: Vec<Vec<u8>>,
    /// Set when the module could not be loaded; the lists are then empty.
    pub failure: Option<LoadFailure>,
}

/// One discovered dependency: who imported, with what text and kind, and
/// what it resolved to. `to` is `None` when resolution failed; such edges
/// are recorded, not dropped, and the reason follows from the specifier's
/// own shape under the traversal's configuration: a bare specifier with no
/// root configured is unsupported, any other failure means no candidate
/// path existed. `from` is `None` for entry points.
pub struct Edge {
    /// The importing module, or `None` for an entry point.
    pub from: Option<Vec<u8>>,
    /// The specifier text as written.
    pub text: Vec<u8>,
    /// How the specifier was written.
    pub kind: SpecKind,
    /// The resolved target, or `None` when resolution failed.
    pub to: Option<Vec<u8>>,
}

/// The mathematical shape of a [`ModuleRecord`].
pub struct RecordModel {
    pub id: Seq<u8>,
    pub statics: Seq<Seq<u8>>,
    pub dynamics: Seq<Seq<u8>>,
    pub failure: Option<LoadFailure>,
}

/// The mathematical shape of an [`Edge`].
pub struct EdgeModel {
    pub from: Option<Seq<u8>>,
    pub text: Seq<u8>,
    pub kind: SpecKind,
    pub to: Option<Seq<u8>>,
}

/// The model of a record.
pub open spec fn record_model(r: ModuleRecord) -> RecordModel {
    RecordModel {
        id: r.id@,
        statics: views(r.statics@),
        dynamics: views(r.dynamics@),
        failure: r.failure,
    }
}

/// The model of an edge.
pub open spec fn edge_model(e: Edge) -> EdgeModel {
    EdgeModel { from: opt_view(e.from), text: e.text@, kind: e.kind, to: opt_view(e.to) }
}

/// The specifier lists a load outcome contributes to its record.
pub open spec fn outcome_statics(o: LoadOutcome) -> Seq<Seq<u8>> {
    match o {
        LoadOutcome::Tree(t) => static_specs(t),
        _ => Seq::empty(),
    }
}

/// The dynamic counterpart of [`outcome_statics`].
pub open spec fn outcome_dynamics(o: LoadOutcome) -> Seq<Seq<u8>> {
    match o {
        LoadOutcome::Tree(t) => dynamic_specs(t),
        _ => Seq::empty(),
    }
}

/// The failure a load outcome records.
pub open spec fn outcome_failure(o: LoadOutcome) -> Option<LoadFailure> {
    match o {
        LoadOutcome::Tree(t) => Option::None,
        LoadOutcome::ReadFailure => Option::Some(LoadFailure::Read),
        LoadOutcome::SyntaxFailure => Option::Some(LoadFailure::Syntax),
    }
}

/// The texts of a specifier cursor.
pub open spec fn spec_texts(s: Seq<Specifier>) -> Seq<Seq<u8>> {
    s.map_values(|sp: Specifier| sp.text@)
}

/// The two states carry the same resolution cursor: same module, same
/// directory, same specifiers, same position, same candidates, same queued
/// targets.
pub open spec fn same_cursor(a: IntoIter, b: IntoIter) -> bool {
    &&& a.cur_specs == b.cur_specs
    &&& a.cur_i == b.cur_i
    &&& a.cur_j == b.cur_j
    &&& a.cur_cands == b.cur_cands
    &&& a.cur_from == b.cur_from
    &&& a.cur_dir == b.cur_dir
    &&& a.cur_new == b.cur_new
    &&& a.cur_entry == b.cur_entry
}

/// Where the engine stands between two host calls.
#[derive(Clone, Copy, PartialEq, Eq, Structural, Debug)]
pub enum Phase {
    /// Working through the current module's specifiers.
    Resolving,
    /// An existence question is outstanding; answer with `provide_exists`.
    AwaitProbe,
    /// A load request is outstanding; answer with `provide_load`.
    AwaitLoad,
    /// A freshly loaded record is ready to be yielded.
    Yielding,
    /// Nothing in hand; the next step pops the frontier.
    Ready,
    /// Traversal is over: the frontier was exhausted, or the consumer
    /// cancelled. The accumulated graph stays valid.
    Done,
}

/// What the engine asks of its host next.
pub enum Action {
    /// Internal progress was made; poll again.
    Continue,
    /// Does this path exist? Answer with `provide_exists`.
    Probe(Vec<u8>),
    /// Read and parse this module; answer with `provide_load`. Each identity
    /// is requested at most once per traversal.
    Load(Vec<u8>),
    /// The record at this index of `records` is the next stream item.
    Yield(usize),
    /// The traversal is over.
    Finished,
}

/// A traversal in progress over one configuration, and the graph it
/// accumulates. Records and edges only ever grow; they remain valid when the
/// consumer stops early.
pub struct IntoIter {
    /// The configured root for bare specifiers, if any.
    pub root_dir: Option<Vec<u8>>,
    /// The recognized source extensions, in probe order.
    pub exts: Vec<Vec<u8>>,
    /// Identities awaiting processing; a stack, popped from the end.
    pub frontier: Vec<Vec<u8>>,
    /// Every identity whose load was dispatched, in dispatch order.
    pub visited: Vec<Vec<u8>>,
    /// The loaded modules, in emission order.
    pub records: Vec<ModuleRecord>,
    /// The discovered edges, in discovery order.
    pub edges: Vec<Edge>,
    /// Where the engine stands.
    pub phase: Phase,
    /// The module whose specifiers are being resolved; `None` while the
    /// entries themselves are resolved.
    pub cur_from: Option<Vec<u8>>,
    /// The directory specifiers of the current module resolve against.
    pub cur_dir: Vec<u8>,
    /// The current module's specifiers.
    pub cur_specs: Vec<Specifier>,
    /// The next specifier to resolve.
    pub cur_i: usize,
    /// The candidate paths being probed for the current specifier.
    pub cur_cands: Vec<Vec<u8>>,
    /// The next candidate to probe.
    pub cur_j: usize,
    /// Targets resolved from the current module, newest first, queued for
    /// the frontier so traversal follows the first specifier's chain first.
    pub cur_new: Vec<Vec<u8>>,
    /// Whether the cursor resolves entry points rather than module edges.
    pub cur_entry: bool,
    /// The identity whose load is outstanding.
    pub pending: Vec<u8>,
}

impl IntoIter {
    /// The identities dispatched so far.
    pub open spec fn visited_ids(self) -> Seq<Seq<u8>> {
        views(self.visited@)
    }

    /// The identities of the records produced so far.
    pub open spec fn record_ids(self) -> Seq<Seq<u8>> {
        self.records@.map_values(|r: ModuleRecord| r.id@)
    }

    /// The records produced so far, as models.
    pub open spec fn records_model(self) -> Seq<RecordModel> {
        self.records@.map_values(|r: ModuleRecord| record_model(r))
    }

    /// The edges discovered so far, as models.
    pub open spec fn edges_model(self) -> Seq<EdgeModel> {
        self.edges@.map_values(|e: Edge| edge_model(e))
    }

    /// The engine's invariant. Dispatched identities are pairwise distinct;
    /// every record's identity was dispatched, exactly one record exists per
    /// dispatched identity, and the cursor indices are in range for the
    /// phase.
    pub open spec fn wf(self) -> bool {
        &&& self.visited_ids().no_duplicates()
        &&& self.record_ids().no_duplicates()
        &&& forall|i: int|
            0 <= i < self.record_ids().len() ==> self.visited_ids().contains(
                #[trigger] self.record_ids()[i],
            )
        &&& (self.phase is AwaitLoad ==> {
            &&& self.visited_ids().contains(self.pending@)
            &&& !self.record_ids().contains(self.pending@)
            &&& self.records@.len() + 1 == self.visited@.len()
            &&& self.cur_new@.len() == 0
        })
        &&& self.records@.len() <= self.visited@.len()
        &&& (!(self.phase is AwaitLoad) && !(self.phase is Done) ==> self.records@.len()
            == self.visited@.len())
        &&& (self.phase is AwaitProbe ==> {
            &&& self.cur_i < self.cur_specs@.len()
            &&& self.cur_j < self.cur_cands@.len()
        })
        &&& (self.phase is Resolving || self.phase is Yielding ==> {
            &&& self.cur_i <= self.cur_specs@.len()
            &&& (self.cur_cands@.len() > 0 ==> self.cur_i < self.cur_specs@.len() && self.cur_j
                < self.cur_cands@.len())
            &&& (self.cur_cands@.len() == 0 ==> self.cur_j == 0)
        })
        &&& (self.phase is Yielding ==> self.records@.len() > 0)
        &&& (self.phase is Ready ==> self.cur_new@.len() == 0)
    }

    /// The text of the specifier the cursor stands on.
    pub open spec fn cur_text(self) -> Seq<u8> {
        self.cur_specs@[self.cur_i as int].text@
    }

    /// The kind of the specifier the cursor stands on.
    pub open spec fn cur_kind(self) -> SpecKind {
        self.cur_specs@[self.cur_i as int].kind
    }

    /// The candidate the outstanding probe asks about.
    pub open spec fn cur_cand(self) -> Seq<u8> {
        views(self.cur_cands@)[self.cur_j as int]
    }

    /// Starts a traversal: the entries become the cursor of a synthetic
    /// root, to be resolved exactly as edges are.
    pub fn begin(entries: Vec<Vec<u8>>, root_dir: Option<Vec<u8>>, exts: Vec<Vec<u8>>) -> (it:
        IntoIter)
        ensures
            it.wf(),
            it.phase is Resolving,
            it.records@.len() == 0,
            it.edges@.len() == 0,
            it.visited_ids().len() == 0,
            it.frontier@.len() == 0,
            spec_texts(it.cur_specs@) == views(entries@),
            forall|i: int|
                0 <= i < it.cur_specs@.len() ==> (#[trigger] it.cur_specs@[i].kind)
                    == SpecKind::Static,
            it.cur_entry,
            it.cur_i == 0,
            it.cur_j == 0,
            it.cur_cands@.len() == 0,
            it.cur_new@.len() == 0,
            it.cur_dir@.len() == 0,
            opt_view(it.cur_from) is None,
            opt_view(it.root_dir) == opt_view(root_dir),
            views(it.exts@) == views(exts@),
    {
        let mut specs: Vec<Specifier> = Vec::new();
        let mut i: usize = 0;
        while i < entries.len()
            invariant
                i <= entries@.len(),
                specs@.len() == i as int,
                forall|k: int| 0 <= k < i ==> (#[trigger] specs@[k].text@) == entries@[k]@,
                forall|k: int| 0 <= k < i ==> (#[trigger] specs@[k].kind) == SpecKind::Static,
            decreases entries@.len() - i,
        {
            specs.push(Specifier { text: copy_bytes(&entries[i]), kind: SpecKind::Static });
            i = i + 1;
        }
        proof {
            assert forall|k: int| 0 <= k < specs@.len() implies spec_texts(specs@)[k] == views(
                entries@,
            )[k] by {
                assert(spec_texts(specs@)[k] == specs@[k].text@);
                assert(views(entries@)[k] == entries@[k]@);
            }
            assert(spec_texts(specs@) =~= views(entries@));
        }
        let it = IntoIter {
            root_dir,
            exts,
            frontier: Vec::new(),
            visited: Vec::new(),
            records: Vec::new(),
            edges: Vec::new(),
            phase: Phase::Resolving,
            cur_from: Option::None,
            cur_dir: Vec::new(),
            cur_specs: specs,
            cur_i: 0,
            cur_cands: Vec::new(),
            cur_j: 0,
            cur_new: Vec::new(),
            cur_entry: true,
            pending: Vec::new(),
        };
        proof {
            assert(it.visited_ids() =~= Seq::<Seq<u8>>::empty());
            assert(it.record_ids() =~= Seq::<Seq<u8>>::empty());
        }
        it
    }

    /// Abandons the traversal. The accumulated graph stays as it is; nothing
    /// further will be asked of the host.
    pub fn cancel(&mut self)
        requires
            old(self).wf(),
        ensures
            final(self).wf(),
            final(self).phase is Done,
            final(self).records@ == old(self).records@,
            final(self).edges@ == old(self).edges@,
            final(self).visited@ == old(self).visited@,
    {
        self.phase = Phase::Done;
    }

    /// Whether the traversal is over.
    pub fn is_finished(&self) -> (r: bool)
        ensures
            r == (self.phase is Done),
    {
        matches!(self.phase, Phase::Done)
    }

    /// The records produced so far: the graph's modules, in emission order.
    pub fn records_so_far(&self) -> (r: &Vec<ModuleRecord>)
        ensures
            r@ == self.records@,
    {
        &self.records
    }

    /// The edges discovered so far, in discovery order.
    pub fn edges_so_far(&self) -> (r: &Vec<Edge>)
        ensures
            r@ == self.edges@,
    {
        &self.edges
    }

    /// The record at an index, for consuming a `Yield` action.
    pub fn record_at(&self, i: usize) -> (r: &ModuleRecord)
        requires
            i < self.records@.len(),
        ensures
            *r == self.records@[i as int],
    {
        &self.records[i]
    }
}

impl IntoIter {
    /// Records one edge from the cursor's specifier to `to`.
    fn push_edge(&mut self, to: Option<Vec<u8>>)
        requires
            old(self).cur_i < old(self).cur_specs@.len(),
        ensures
            final(self).edges_model() == old(self).edges_model().push(
                (EdgeModel {
                    from: opt_view(old(self).cur_from),
                    text: old(self).cur_text(),
                    kind: old(self).cur_kind(),
                    to: opt_view(to),
                }),
            ),
            *final(self) == (IntoIter { edges: final(self).edges, ..*old(self) }),
    {
        let e = Edge {
            from: copy_opt(&self.cur_from),
            text: copy_bytes(&self.cur_specs[self.cur_i].text),
            kind: self.cur_specs[self.cur_i].kind,
            to,
        };
        self.edges.push(e);
        proof {
            assert(self.edges_model() =~= old(self).edges_model().push(
                (EdgeModel {
                    from: opt_view(old(self).cur_from),
                    text: old(self).cur_text(),
                    kind: old(self).cur_kind(),
                    to: opt_view(to),
                }),
            ));
        }
    }

    /// Queues a resolved target for the frontier unless it was already
    /// dispatched. Newest targets go to the front of the batch, so that the
    /// batch, appended to the frontier stack, is popped in specifier order.
    fn enqueue_target(&mut self, id: Vec<u8>)
        ensures
            !old(self).visited_ids().contains(id@) ==> views(final(self).cur_new@) == seq![id@]
                + views(old(self).cur_new@),
            old(self).visited_ids().contains(id@) ==> views(final(self).cur_new@) == views(
                old(self).cur_new@,
            ),
            *final(self) == (IntoIter { cur_new: final(self).cur_new, ..*old(self) }),
    {
        if !contains_bytes(&self.visited, &id) {
            self.cur_new.insert(0, id);
            proof {
                assert(views(self.cur_new@) =~= seq![id@] + views(old(self).cur_new@));
            }
        }
    }
}

impl IntoIter {
    /// Advances the traversal one step and says what the host should do
    /// next. Call only between host answers: never while a probe or a load
    /// is outstanding.
    ///
    /// A `Load` is issued only for an identity that was never dispatched
    /// before, and dispatching adds it to the visited set at that moment —
    /// the rule that terminates traversal of cyclic graphs.
    pub fn poll(&mut self) -> (a: Action)
        requires
            old(self).wf(),
            !(old(self).phase is AwaitProbe),
            !(old(self).phase is AwaitLoad),
        ensures
            final(self).wf(),
            final(self).records@ == old(self).records@,
            old(self).edges_model().is_prefix_of(final(self).edges_model()),
            old(self).visited_ids().is_prefix_of(final(self).visited_ids()),
            final(self).root_dir == old(self).root_dir,
            final(self).exts == old(self).exts,
            final(self).cur_entry == old(self).cur_entry,
            !(a is Load) ==> final(self).visited_ids() == old(self).visited_ids(),
            (a is Finished) == (final(self).phase is Done),
            (a matches Action::Load(id) ==> {
                &&& final(self).phase is AwaitLoad
                &&& id@ == final(self).pending@
                &&& !old(self).visited_ids().contains(id@)
                &&& final(self).visited_ids() == old(self).visited_ids().push(id@)
                &&& final(self).edges_model() == old(self).edges_model()
                &&& views(final(self).frontier@) == views(old(self).frontier@).drop_last()
                &&& views(old(self).frontier@).last() == id@
                &&& same_cursor(*old(self), *final(self))
            }),
            (a matches Action::Probe(p) ==> {
                &&& final(self).phase is AwaitProbe
                &&& p@ == final(self).cur_cand()
                &&& final(self).edges_model() == old(self).edges_model()
            }),
            (a matches Action::Yield(i) ==> {
                &&& old(self).phase is Yielding
                &&& i as int == final(self).records@.len() - 1
                &&& final(self).phase is Resolving
                &&& final(self).edges_model() == old(self).edges_model()
            }),
            (old(self).phase is Yielding ==> {
                &&& (a matches Action::Yield(i2) && i2 as int == old(self).records@.len() - 1)
                &&& same_cursor(*old(self), *final(self))
                &&& final(self).frontier@ == old(self).frontier@
                &&& final(self).pending == old(self).pending
            }),
            (old(self).phase is Done ==> a is Finished && *final(self) == *old(self)),
            (old(self).phase is Resolving && old(self).cur_cands@.len() > 0 ==> {
                &&& (a matches Action::Probe(p3) && p3@ == views(old(self).cur_cands@)[old(
                    self,
                ).cur_j as int])
                &&& same_cursor(*old(self), *final(self))
                &&& final(self).frontier@ == old(self).frontier@
                &&& final(self).pending == old(self).pending
            }),
            (old(self).phase is Resolving && old(self).cur_cands@.len() == 0 && old(self).cur_i
                < old(self).cur_specs@.len() ==> {
                let plan = if old(self).cur_entry {
                    entry_plan_spec(
                        old(self).cur_text(),
                        opt_view(old(self).root_dir),
                        views(old(self).exts@),
                    )
                } else {
                    edge_plan_spec(
                        old(self).cur_text(),
                        old(self).cur_dir@,
                        opt_view(old(self).root_dir),
                        views(old(self).exts@),
                    )
                };
                &&& (plan matches PlanModel::Resolved(rid) ==> {
                    &&& a is Continue
                    &&& final(self).phase is Resolving
                    &&& final(self).cur_i == old(self).cur_i + 1
                    &&& final(self).edges_model() == old(self).edges_model().push(
                        (EdgeModel {
                            from: opt_view(old(self).cur_from),
                            text: old(self).cur_text(),
                            kind: old(self).cur_kind(),
                            to: Option::Some(rid),
                        }),
                    )
                    &&& (!old(self).visited_ids().contains(rid) ==> views(final(self).cur_new@)
                        == seq![rid] + views(old(self).cur_new@))
                    &&& (old(self).visited_ids().contains(rid) ==> views(final(self).cur_new@)
                        == views(old(self).cur_new@))
                    &&& final(self).cur_specs == old(self).cur_specs
                    &&& final(self).cur_cands@.len() == 0
                    &&& final(self).cur_j == 0
                    &&& final(self).cur_from == old(self).cur_from
                    &&& final(self).cur_dir == old(self).cur_dir
                    &&& final(self).frontier@ == old(self).frontier@
                    &&& final(self).pending == old(self).pending
                })
                &&& (plan matches PlanModel::Probe(cands) ==> {
                    &&& (a matches Action::Probe(p4) && p4@ == cands[0])
                    &&& views(final(self).cur_cands@) == cands
                    &&& final(self).cur_j == 0
                    &&& final(self).edges_model() == old(self).edges_model()
                    &&& final(self).cur_specs == old(self).cur_specs
                    &&& final(self).cur_i == old(self).cur_i
                    &&& final(self).cur_from == old(self).cur_from
                    &&& final(self).cur_dir == old(self).cur_dir
                    &&& final(self).cur_new == old(self).cur_new
                    &&& final(self).frontier@ == old(self).frontier@
                    &&& final(self).pending == old(self).pending
                })
                &&& (plan is Unresolvable ==> {
                    &&& a is Continue
                    &&& final(self).phase is Resolving
                    &&& final(self).cur_i == old(self).cur_i + 1
                    &&& final(self).edges_model() == old(self).edges_model().push(
                        (EdgeModel {
                            from: opt_view(old(self).cur_from),
                            text: old(self).cur_text(),
                            kind: old(self).cur_kind(),
                            to: Option::None,
                        }),
                    )
                    &&& final(self).cur_specs == old(self).cur_specs
                    &&& final(self).cur_cands@.len() == 0
                    &&& final(self).cur_j == 0
                    &&& final(self).cur_from == old(self).cur_from
                    &&& final(self).cur_dir == old(self).cur_dir
                    &&& final(self).cur_new == old(self).cur_new
                    &&& final(self).frontier@ == old(self).frontier@
                    &&& final(self).pending == old(self).pending
                })
            }),
            (old(self).phase is Resolving && old(self).cur_cands@.len() == 0 && old(self).cur_i
                == old(self).cur_specs@.len() ==> {
                &&& a is Continue
                &&& final(self).phase is Ready
                &&& views(final(self).frontier@) == views(old(self).frontier@) + views(
                    old(self).cur_new@,
                )
                &&& final(self).cur_new@.len() == 0
                &&& final(self).edges_model() == old(self).edges_model()
                &&& final(self).cur_specs == old(self).cur_specs
                &&& final(self).cur_i == old(self).cur_i
                &&& final(self).cur_j == old(self).cur_j
                &&& final(self).cur_cands == old(self).cur_cands
                &&& final(self).cur_from == old(self).cur_from
                &&& final(self).cur_dir == old(self).cur_dir
                &&& final(self).pending == old(self).pending
            }),
            (old(self).phase is Ready && old(self).frontier@.len() == 0 ==> {
                &&& a is Finished
                &&& same_cursor(*old(self), *final(self))
                &&& final(self).edges_model() == old(self).edges_model()
                &&& final(self).frontier@ == old(self).frontier@
                &&& final(self).pending == old(self).pending
            }),
            (old(self).phase is Ready && old(self).frontier@.len() > 0 && old(
                self,
            ).visited_ids().contains(views(old(self).frontier@).last()) ==> {
                &&& a is Continue
                &&& final(self).phase is Ready
                &&& views(final(self).frontier@) == views(old(self).frontier@).drop_last()
                &&& final(self).edges_model() == old(self).edges_model()
                &&& same_cursor(*old(self), *final(self))
                &&& final(self).pending == old(self).pending
            }),
            (old(self).phase is Ready && old(self).frontier@.len() > 0 && !old(
                self,
            ).visited_ids().contains(views(old(self).frontier@).last()) ==> (a matches
                Action::Load(id3) && id3@ == views(old(self).frontier@).last())),
    {
        match self.phase {
            Phase::Done => Action::Finished,
            Phase::Yielding => {
                self.phase = Phase::Resolving;
                Action::Yield(self.records.len() - 1)
            },
            Phase::Resolving => {
                if self.cur_cands.len() > 0 {
                    self.phase = Phase::AwaitProbe;
                    let p = copy_bytes(&self.cur_cands[self.cur_j]);
                    proof {
                        assert(p@ == views(self.cur_cands@)[self.cur_j as int]);
                    }
                    Action::Probe(p)
                } else if self.cur_i < self.cur_specs.len() {
                    let plan = if self.cur_entry {
                        plan_entry(&self.cur_specs[self.cur_i].text, &self.root_dir, &self.exts)
                    } else {
                        plan_edge(
                            &self.cur_specs[self.cur_i].text,
                            &self.cur_dir,
                            &self.root_dir,
                            &self.exts,
                        )
                    };
                    proof {
                        assert(self.cur_specs@[self.cur_i as int].text@ == old(self).cur_text());
                    }
                    match plan {
                        Plan::Resolved(id) => {
                            let id2 = copy_bytes(&id);
                            self.push_edge(Option::Some(id));
                            self.enqueue_target(id2);
                            self.cur_i = self.cur_i + 1;
                            Action::Continue
                        },
                        Plan::Probe(cands) => {
                            proof {
                                assert(views(cands@).len() > 0);
                            }
                            self.cur_cands = cands;
                            self.cur_j = 0;
                            self.phase = Phase::AwaitProbe;
                            let p = copy_bytes(&self.cur_cands[0]);
                            proof {
                                assert(p@ == views(self.cur_cands@)[0]);
                            }
                            Action::Probe(p)
                        },
                        Plan::Unresolvable => {
                            self.push_edge(Option::None);
                            self.cur_i = self.cur_i + 1;
                            Action::Continue
                        },
                    }
                } else {
                    let mut batch: Vec<Vec<u8>> = Vec::new();
                    core::mem::swap(&mut batch, &mut self.cur_new);
                    self.frontier.append(&mut batch);
                    self.phase = Phase::Ready;
                    proof {
                        assert(views(self.frontier@) =~= views(old(self).frontier@) + views(
                            old(self).cur_new@,
                        ));
                    }
                    Action::Continue
                }
            },
            Phase::Ready => {
                let top = self.frontier.pop();
                match top {
                    Option::None => {
                        self.phase = Phase::Done;
                        Action::Finished
                    },
                    Option::Some(id) => {
                        proof {
                            assert(id@ == views(old(self).frontier@).last());
                            assert(views(self.frontier@) =~= views(old(self).frontier@).drop_last());
                        }
                        if contains_bytes(&self.visited, &id) {
                            Action::Continue
                        } else {
                            let id2 = copy_bytes(&id);
                            self.visited.push(id);
                            self.pending = id2;
                            self.phase = Phase::AwaitLoad;
                            let out = copy_bytes(&self.pending);
                            proof {
                                let vold = old(self).visited_ids();
                                let vnew = self.visited_ids();
                                assert(vnew =~= vold.push(out@));
                                assert forall|x: int, y: int|
                                    0 <= x < vnew.len() && 0 <= y < vnew.len() && x != y implies
                                    vnew[x] != vnew[y] by {
                                    if x < vold.len() && y < vold.len() {
                                    } else if y == vold.len() {
                                        if vnew[x] == vnew[y] {
                                            assert(vold[x] == out@);
                                            assert(vold.contains(out@));
                                        }
                                    } else {
                                        if vnew[x] == vnew[y] {
                                            assert(vold[y] == out@);
                                            assert(vold.contains(out@));
                                        }
                                    }
                                }
                                assert forall|k: int|
                                    0 <= k < self.record_ids().len() implies vnew.contains(
                                    #[trigger] self.record_ids()[k]) by {
                                    assert(self.record_ids()[k] == old(self).record_ids()[k]);
                                    assert(vold.contains(old(self).record_ids()[k]));
                                    let idx = choose|idx: int|
                                        0 <= idx < vold.len() && vold[idx] == old(
                                            self,
                                        ).record_ids()[k];
                                    assert(vnew[idx] == old(self).record_ids()[k]);
                                }
                                assert(!self.record_ids().contains(self.pending@)) by {
                                    if self.record_ids().contains(self.pending@) {
                                        let k = choose|k: int|
                                            0 <= k < self.record_ids().len()
                                                && self.record_ids()[k] == self.pending@;
                                        assert(vold.contains(self.record_ids()[k]));
                                    }
                                }
                                assert(vnew[vold.len() as int] == out@);
                                assert(vnew.contains(out@));
                                assert(vold.is_prefix_of(vnew)) by {
                                    assert(vold =~= vnew.subrange(0, vold.len() as int));
                                }
                            }
                            Action::Load(out)
                        }
                    },
                }
            },
            Phase::AwaitProbe => {
                proof {
                    assert(false);
                }
                Action::Continue
            },
            Phase::AwaitLoad => {
                proof {
                    assert(false);
                }
                Action::Continue
            },
        }
    }
}

impl IntoIter {
    /// Hands back the answer to the outstanding existence probe. An existing
    /// candidate resolves the specifier to it; a missing one moves to the
    /// next candidate; when the last candidate is missing, the failure is
    /// not fatal — the edge is recorded with no target and the traversal
    /// goes on with the remaining work.
    pub fn provide_exists(&mut self, file_exists: bool)
        requires
            old(self).wf(),
            old(self).phase is AwaitProbe,
        ensures
            final(self).wf(),
            final(self).records@ == old(self).records@,
            final(self).visited@ == old(self).visited@,
            final(self).frontier@ == old(self).frontier@,
            final(self).root_dir == old(self).root_dir,
            final(self).exts == old(self).exts,
            final(self).cur_entry == old(self).cur_entry,
            final(self).cur_specs == old(self).cur_specs,
            final(self).cur_from == old(self).cur_from,
            final(self).cur_dir == old(self).cur_dir,
            final(self).pending == old(self).pending,
            final(self).phase is Resolving,
            file_exists ==> {
                &&& final(self).edges_model() == old(self).edges_model().push(
                    (EdgeModel {
                        from: opt_view(old(self).cur_from),
                        text: old(self).cur_text(),
                        kind: old(self).cur_kind(),
                        to: Option::Some(old(self).cur_cand()),
                    }),
                )
                &&& final(self).cur_i == old(self).cur_i + 1
                &&& final(self).cur_cands@.len() == 0
                &&& (!old(self).visited_ids().contains(old(self).cur_cand()) ==> views(
                    final(self).cur_new@,
                ) == seq![old(self).cur_cand()] + views(old(self).cur_new@))
                &&& (old(self).visited_ids().contains(old(self).cur_cand()) ==> views(
                    final(self).cur_new@,
                ) == views(old(self).cur_new@))
            },
            !file_exists && old(self).cur_j + 1 < old(self).cur_cands@.len() ==> {
                &&& final(self).edges_model() == old(self).edges_model()
                &&& final(self).cur_j == old(self).cur_j + 1
                &&& final(self).cur_cands@ == old(self).cur_cands@
                &&& final(self).cur_i == old(self).cur_i
                &&& views(final(self).cur_new@) == views(old(self).cur_new@)
            },
            !file_exists && old(self).cur_j + 1 == old(self).cur_cands@.len() ==> {
                &&& final(self).edges_model() == old(self).edges_model().push(
                    (EdgeModel {
                        from: opt_view(old(self).cur_from),
                        text: old(self).cur_text(),
                        kind: old(self).cur_kind(),
                        to: Option::None,
                    }),
                )
                &&& final(self).cur_i == old(self).cur_i + 1
                &&& final(self).cur_cands@.len() == 0
                &&& views(final(self).cur_new@) == views(old(self).cur_new@)
            },
    {
        let n_specs = self.cur_specs.len();
        let n_cands = self.cur_cands.len();
        proof {
            assert(self.cur_i < n_specs);
            assert(self.cur_j < n_cands);
        }
        if file_exists {
            let cand = copy_bytes(&self.cur_cands[self.cur_j]);
            let cand2 = copy_bytes(&cand);
            proof {
                assert(cand@ == old(self).cur_cand());
            }
            self.push_edge(Option::Some(cand));
            self.enqueue_target(cand2);
            self.cur_i = self.cur_i + 1;
            self.cur_cands = Vec::new();
            self.cur_j = 0;
            self.phase = Phase::Resolving;
        } else if self.cur_j + 1 < self.cur_cands.len() {
            self.cur_j = self.cur_j + 1;
            self.phase = Phase::Resolving;
        } else {
            self.push_edge(Option::None);
            self.cur_i = self.cur_i + 1;
            self.cur_cands = Vec::new();
            self.cur_j = 0;
            self.phase = Phase::Resolving;
        }
    }

    /// Hands back the outcome of the outstanding load. Whatever came back —
    /// a syntax tree, an unreadable file, or a parse failure — the module is
    /// terminal for this traversal: it gets exactly one record, holding the
    /// extracted specifier lists on success and the failure with empty lists
    /// otherwise, and is never retried. The record is the next stream item,
    /// and its specifiers become the work the engine resolves next.
    pub fn provide_load(&mut self, outcome: LoadOutcome)
        requires
            old(self).wf(),
            old(self).phase is AwaitLoad,
        ensures
            final(self).wf(),
            final(self).phase is Yielding,
            final(self).edges@ == old(self).edges@,
            final(self).visited@ == old(self).visited@,
            final(self).frontier@ == old(self).frontier@,
            final(self).root_dir == old(self).root_dir,
            final(self).exts == old(self).exts,
            final(self).records_model() == old(self).records_model().push(
                (RecordModel {
                    id: old(self).pending@,
                    statics: outcome_statics(outcome),
                    dynamics: outcome_dynamics(outcome),
                    failure: outcome_failure(outcome),
                }),
            ),
            opt_view(final(self).cur_from) == Option::Some(old(self).pending@),
            final(self).cur_dir@ == dirname_spec(old(self).pending@),
            spec_texts(final(self).cur_specs@) == outcome_statics(outcome) + outcome_dynamics(
                outcome,
            ),
            forall|k: int|
                0 <= k < final(self).cur_specs@.len() ==> (#[trigger] final(self).cur_specs@[k].kind)
                    == (if k < outcome_statics(outcome).len() {
                    SpecKind::Static
                } else {
                    SpecKind::Dynamic
                }),
            final(self).cur_i == 0,
            final(self).cur_cands@.len() == 0,
            final(self).cur_new@.len() == 0,
            !final(self).cur_entry,
    {
        let ghost go = outcome;
        let (statics, dynamics, failure): (Vec<Vec<u8>>, Vec<Vec<u8>>, Option<LoadFailure>) =
            match outcome {
            LoadOutcome::Tree(t) => {
                let (s, d) = extract(&t);
                proof {
                    assert(outcome_statics(go) == static_specs(t));
                }
                (s, d, Option::None)
            },
            LoadOutcome::ReadFailure => (Vec::new(), Vec::new(), Option::Some(LoadFailure::Read)),
            LoadOutcome::SyntaxFailure => (
                Vec::new(),
                Vec::new(),
                Option::Some(LoadFailure::Syntax),
            ),
        };
        proof {
            assert(views(statics@) =~~= outcome_statics(go));
            assert(views(dynamics@) =~~= outcome_dynamics(go));
        }
        let mut specs: Vec<Specifier> = Vec::new();
        let mut i: usize = 0;
        while i < statics.len()
            invariant
                i <= statics@.len(),
                specs@.len() == i as int,
                forall|k: int| 0 <= k < i ==> (#[trigger] specs@[k].text@) == statics@[k]@,
                forall|k: int| 0 <= k < i ==> (#[trigger] specs@[k].kind) == SpecKind::Static,
            decreases statics@.len() - i,
        {
            specs.push(Specifier { text: copy_bytes(&statics[i]), kind: SpecKind::Static });
            i = i + 1;
        }
        let mut j: usize = 0;
        while j < dynamics.len()
            invariant
                j <= dynamics@.len(),
                specs@.len() == statics@.len() + j as int,
                forall|k: int|
                    0 <= k < statics@.len() ==> (#[trigger] specs@[k].text@) == statics@[k]@,
                forall|k: int|
                    0 <= k < statics@.len() ==> (#[trigger] specs@[k].kind) == SpecKind::Static,
                forall|k: int|
                    statics@.len() <= k < statics@.len() + j ==> (#[trigger] specs@[k].text@)
                        == dynamics@[k - statics@.len()]@,
                forall|k: int|
                    statics@.len() <= k < statics@.len() + j ==> (#[trigger] specs@[k].kind)
                        == SpecKind::Dynamic,
            decreases dynamics@.len() - j,
        {
            specs.push(Specifier { text: copy_bytes(&dynamics[j]), kind: SpecKind::Dynamic });
            j = j + 1;
        }
        proof {
            assert forall|k: int| 0 <= k < specs@.len() implies spec_texts(specs@)[k] == (views(
                statics@,
            ) + views(dynamics@))[k] by {
                assert(spec_texts(specs@)[k] == specs@[k].text@);
                if k < statics@.len() {
                    assert(views(statics@)[k] == statics@[k]@);
                } else {
                    assert(views(dynamics@)[k - statics@.len()] == dynamics@[k - statics@.len()]@);
                }
            }
            assert(spec_texts(specs@) =~= views(statics@) + views(dynamics@));
        }
        let rec = ModuleRecord { id: copy_bytes(&self.pending), statics, dynamics, failure };
        self.records.push(rec);
        self.cur_from = Option::Some(copy_bytes(&self.pending));
        self.cur_dir = dirname(&self.pending);
        self.cur_specs = specs;
        self.cur_i = 0;
        self.cur_cands = Vec::new();
        self.cur_j = 0;
        self.cur_entry = false;
        self.phase = Phase::Yielding;
        proof {
            let rm = (RecordModel {
                id: old(self).pending@,
                statics: outcome_statics(go),
                dynamics: outcome_dynamics(go),
                failure: outcome_failure(go),
            });
            assert(record_model(self.records@.last()) == rm);
            assert(self.records_model() =~= old(self).records_model().push(rm));
            assert(self.record_ids() =~= old(self).record_ids().push(old(self).pending@));
            let rold = old(self).record_ids();
            let rnew = self.record_ids();
            assert forall|x: int, y: int|
                0 <= x < rnew.len() && 0 <= y < rnew.len() && x != y implies rnew[x] != rnew[y] by {
                if x < rold.len() && y < rold.len() {
                } else if y == rold.len() {
                    if rnew[x] == rnew[y] {
                        assert(rold[x] == old(self).pending@);
                        assert(rold.contains(old(self).pending@));
                    }
                } else {
                    if rnew[x] == rnew[y] {
                        assert(rold[y] == old(self).pending@);
                        assert(rold.contains(old(self).pending@));
                    }
                }
            }
            assert forall|k: int|
                0 <= k < rnew.len() implies self.visited_ids().contains(#[trigger] rnew[k]) by {
                if k < rold.len() {
                    assert(old(self).visited_ids().contains(rold[k]));
                } else {
                    assert(rnew[k] == old(self).pending@);
                }
            }
        }
    }
}

/// Each dispatched identity yields at most one record, and every record's
/// identity was dispatched: the visited set bounds the records, which is
/// what terminates traversal of a cyclic graph — a finite set of reachable
/// files admits only finitely many loads.
pub proof fn lemma_visited_bounds_records(it: IntoIter)
    requires
        it.wf(),
    ensures
        it.records@.len() <= it.visited@.len(),
        forall|i: int|
            0 <= i < it.records@.len() ==> it.visited_ids().contains(
                #[trigger] it.records@[i].id@,
            ),
{
    assert forall|i: int| 0 <= i < it.records@.len() implies it.visited_ids().contains(
        #[trigger] it.records@[i].id@,
    ) by {
        assert(it.record_ids()[i] == it.records@[i].id@);
    }
}

/// No duplicate visits: however many edges point at a module, its identity
/// appears at most once among the records of a well-formed traversal.
pub proof fn lemma_no_duplicate_visits(it: IntoIter)
    requires
        it.wf(),
    ensures
        forall|i: int, j: int|
            0 <= i < j < it.records@.len() ==> (#[trigger] it.records@[i].id@) != (
            #[trigger] it.records@[j].id@),
{
    assert forall|i: int, j: int| 0 <= i < j < it.records@.len() implies (
    #[trigger] it.records@[i].id@) != (#[trigger] it.records@[j].id@) by {
        assert(it.record_ids()[i] == it.records@[i].id@);
        assert(it.record_ids()[j] == it.records@[j].id@);
    }
}

} // verus!
