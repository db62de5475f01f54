//! Specifier resolution: mapping a specifier string plus the importing
//! file's directory to a canonical module identity.
//!
//! Resolution is split into a pure planning step and an existence check.
//! Planning turns a specifier into either a resolved identity, an ordered
//! candidate list to probe for existence, or an immediate failure; the
//! traversal engine asks its host one existence question per candidate and
//! takes the first that exists. A module identity is the lexically
//! normalized joined path, so two specifiers that denote the same file get
//! equal identities.

use vstd::prelude::*;
use crate::bytes::{is_prefix, is_suffix, copy_bytes, concat_bytes, extend_bytes, ends_with, starts_with, views, opt_view};

verus! {

/// The byte `/`.
pub const SLASH: u8 = 47;

/// The byte `.`.
pub const DOT: u8 = 46;

/// The segment `.`.
pub open spec fn seg_dot() -> Seq<u8> {
    seq![DOT]
}

/// The segment `..`.
pub open spec fn seg_dotdot() -> Seq<u8> {
    seq![DOT, DOT]
}

/// The suffix `/index`, probed for directory specifiers.
pub open spec fn index_seg() -> Seq<u8> {
    seq![SLASH, 105u8, 110u8, 100u8, 101u8, 120u8]
}

/// One normalization step: push segment `seg` onto the segment stack.
/// Empty segments and `.` disappear; `..` pops the previous real segment
/// where one exists, and is kept where none does (a path that climbs above
/// its starting directory).
pub open spec fn apply_seg(stack: Seq<Seq<u8>>, seg: Seq<u8>) -> Seq<Seq<u8>> {
    if seg.len() == 0 || seg == seg_dot() {
        stack
    } else if seg == seg_dotdot() {
        if stack.len() > 0 && stack.last() != seg_dotdot() {
            stack.drop_last()
        } else {
            stack.push(seg)
        }
    } else {
        stack.push(seg)
    }
}

/// Folds the bytes of a path into its normalized segment stack; `stack` and
/// `cur` accumulate the segments finished and the segment being read.
pub open spec fn norm_segs(s: Seq<u8>, stack: Seq<Seq<u8>>, cur: Seq<u8>) -> Seq<Seq<u8>>
    decreases s.len(),
{
    if s.len() == 0 {
        apply_seg(stack, cur)
    } else if s[0] == SLASH {
        norm_segs(s.drop_first(), apply_seg(stack, cur), Seq::empty())
    } else {
        norm_segs(s.drop_first(), stack, cur.push(s[0]))
    }
}

/// Joins a segment stack back into a path with `/` between segments.
pub open spec fn join_segs(segs: Seq<Seq<u8>>) -> Seq<u8>
    decreases segs.len(),
{
    if segs.len() == 0 {
        Seq::empty()
    } else if segs.len() == 1 {
        segs[0]
    } else {
        segs[0] + seq![SLASH] + join_segs(segs.drop_first())
    }
}

/// The canonical form of a path: its normalized segments, rejoined.
pub open spec fn norm_spec(s: Seq<u8>) -> Seq<u8> {
    join_segs(norm_segs(s, Seq::empty(), Seq::empty()))
}

/// A specifier is relative when it starts with `./` or `../`.
pub open spec fn is_relative(t: Seq<u8>) -> bool {
    is_prefix(seq![DOT, SLASH], t) || is_prefix(seq![DOT, DOT, SLASH], t)
}

/// Joining a specifier onto a directory; an empty directory contributes no
/// separator.
pub open spec fn join_spec(dir: Seq<u8>, t: Seq<u8>) -> Seq<u8> {
    if dir.len() == 0 {
        t
    } else {
        dir + seq![SLASH] + t
    }
}

/// The specifier ends in one of the recognized source extensions.
pub open spec fn has_ext_spec(t: Seq<u8>, exts: Seq<Seq<u8>>) -> bool {
    exists|i: int| 0 <= i < exts.len() && is_suffix(#[trigger] exts[i], t)
}

/// The ordered candidate list for an extensionless path: the path with each
/// extension appended, then its `index` fallback with each extension.
pub open spec fn expand_spec(base: Seq<u8>, exts: Seq<Seq<u8>>) -> Seq<Seq<u8>> {
    Seq::new(exts.len(), |i: int| base + exts[i]) + Seq::new(
        exts.len(),
        |i: int| base + index_seg() + exts[i],
    )
}

/// What resolution decides before any existence question is asked.
pub enum Plan {
    /// The specifier names this module outright.
    Resolved(Vec<u8>),
    /// The specifier names the first of these candidates that exists.
    Probe(Vec<Vec<u8>>),
    /// The specifier cannot be mapped to a module.
    Unresolvable,
}

/// The mathematical shape of a [`Plan`].
pub enum PlanModel {
    Resolved(Seq<u8>),
    Probe(Seq<Seq<u8>>),
    Unresolvable,
}

/// The model of an executable plan.
pub open spec fn plan_model(p: Plan) -> PlanModel {
    match p {
        Plan::Resolved(v) => PlanModel::Resolved(v@),
        Plan::Probe(c) => PlanModel::Probe(views(c@)),
        Plan::Unresolvable => PlanModel::Unresolvable,
    }
}

/// The plan for a specifier found inside module source, imported from
/// directory `dir`. Relative specifiers resolve against `dir`: with a
/// recognized extension the joined, normalized path is the identity outright,
/// with no existence probe — a missing file then surfaces as a read failure
/// on that module's own record, not as an unresolvable edge; without a
/// recognized extension, the extension candidates are probed and no existing
/// candidate means an unresolvable edge. Bare specifiers are tried relative
/// to the configured root where one is set, and are otherwise unresolvable.
pub open spec fn edge_plan_spec(
    t: Seq<u8>,
    dir: Seq<u8>,
    root: Option<Seq<u8>>,
    exts: Seq<Seq<u8>>,
) -> PlanModel {
    if is_relative(t) {
        let base = norm_spec(join_spec(dir, t));
        if has_ext_spec(t, exts) {
            PlanModel::Resolved(base)
        } else if expand_spec(base, exts).len() > 0 {
            PlanModel::Probe(expand_spec(base, exts))
        } else {
            PlanModel::Unresolvable
        }
    } else {
        match root {
            Option::None => PlanModel::Unresolvable,
            Option::Some(r) => {
                let base = norm_spec(join_spec(r, t));
                let cands = if has_ext_spec(t, exts) {
                    seq![base]
                } else {
                    expand_spec(base, exts)
                };
                if cands.len() > 0 {
                    PlanModel::Probe(cands)
                } else {
                    PlanModel::Unresolvable
                }
            },
        }
    }
}

/// The plan for an entry point. An entry is always probed: first as the path
/// it names, then — when it is bare and a root is configured — relative to
/// the root.
pub open spec fn entry_plan_spec(t: Seq<u8>, root: Option<Seq<u8>>, exts: Seq<Seq<u8>>) -> PlanModel {
    let base0 = norm_spec(t);
    let c0 = if has_ext_spec(t, exts) {
        seq![base0]
    } else {
        expand_spec(base0, exts)
    };
    let c1 = if !is_relative(t) && root is Some {
        let base1 = norm_spec(join_spec(root->Some_0, t));
        if has_ext_spec(t, exts) {
            seq![base1]
        } else {
            expand_spec(base1, exts)
        }
    } else {
        Seq::empty()
    };
    if (c0 + c1).len() > 0 {
        PlanModel::Probe(c0 + c1)
    } else {
        PlanModel::Unresolvable
    }
}

/// The first candidate that exists in `fs`, a set of existing file paths.
pub open spec fn first_existing(cands: Seq<Seq<u8>>, fs: Set<Seq<u8>>) -> Option<Seq<u8>>
    decreases cands.len(),
{
    if cands.len() == 0 {
        Option::None
    } else if fs.contains(cands[0]) {
        Option::Some(cands[0])
    } else {
        first_existing(cands.drop_first(), fs)
    }
}

/// What a plan resolves to against a fixed set of existing files.
pub open spec fn resolve_spec(p: PlanModel, fs: Set<Seq<u8>>) -> Option<Seq<u8>> {
    match p {
        PlanModel::Resolved(id) => Option::Some(id),
        PlanModel::Probe(cands) => first_existing(cands, fs),
        PlanModel::Unresolvable => Option::None,
    }
}

/// Pushes one finished segment onto the segment stack.
fn apply_seg_x(stack: &mut Vec<Vec<u8>>, seg: Vec<u8>)
    ensures
        views(final(stack)@) == apply_seg(views(old(stack)@), seg@),
{
    let is_dot = seg.len() == 1 && seg[0] == DOT;
    let is_dotdot = seg.len() == 2 && seg[0] == DOT && seg[1] == DOT;
    proof {
        assert(is_dot == (seg@ =~= seg_dot()));
        assert(is_dotdot == (seg@ =~= seg_dotdot()));
    }
    if seg.len() == 0 || is_dot {
    } else if is_dotdot {
        let n = stack.len();
        let mut pop = false;
        if n > 0 {
            let last = &stack[n - 1];
            let last_is_dotdot = last.len() == 2 && last[0] == DOT && last[1] == DOT;
            proof {
                assert(last_is_dotdot == (views(stack@).last() =~= seg_dotdot()));
            }
            pop = !last_is_dotdot;
        }
        if pop {
            stack.pop();
            assert(views(stack@) =~~= views(old(stack)@).drop_last());
        } else {
            stack.push(seg);
            assert(views(stack@) =~~= views(old(stack)@).push(seg@));
        }
    } else {
        stack.push(seg);
        assert(views(stack@) =~~= views(old(stack)@).push(seg@));
    }
}

/// Joining on the right appends the new segment, with a separator where the
/// stack was not empty.
proof fn lemma_join_push(s: Seq<Seq<u8>>, x: Seq<u8>)
    ensures
        s.len() == 0 ==> join_segs(s.push(x)) == x,
        s.len() > 0 ==> join_segs(s.push(x)) == join_segs(s) + seq![SLASH] + x,
    decreases s.len(),
{
    if s.len() == 0 {
        assert(s.push(x)[0] == x);
    } else if s.len() == 1 {
        assert(s.push(x).drop_first() =~= s.drop_first().push(x));
        assert(s.push(x)[0] == s[0]);
        lemma_join_push(s.drop_first(), x);
        assert(join_segs(s.push(x)) =~= join_segs(s) + seq![SLASH] + x);
    } else {
        assert(s.push(x).drop_first() =~= s.drop_first().push(x));
        assert(s.push(x)[0] == s[0]);
        lemma_join_push(s.drop_first(), x);
        assert(join_segs(s.push(x)) =~= join_segs(s) + seq![SLASH] + x);
    }
}

/// Rejoins a segment stack into a path.
fn join_segs_x(stack: &Vec<Vec<u8>>) -> (r: Vec<u8>)
    ensures
        r@ == join_segs(views(stack@)),
{
    let mut r: Vec<u8> = Vec::new();
    let mut i: usize = 0;
    while i < stack.len()
        invariant
            i <= stack.len(),
            r@ == join_segs(views(stack@).subrange(0, i as int)),
        decreases stack.len() - i,
    {
        if i > 0 {
            r.push(SLASH);
        }
        extend_bytes(&mut r, &stack[i]);
        proof {
            lemma_join_push(views(stack@).subrange(0, i as int), views(stack@)[i as int]);
            assert(views(stack@).subrange(0, i + 1) =~= views(stack@).subrange(
                0,
                i as int,
            ).push(views(stack@)[i as int]));
            if i == 0 {
                assert(r@ =~= join_segs(views(stack@).subrange(0, i + 1)));
            } else {
                assert(r@ =~= join_segs(views(stack@).subrange(0, i + 1)));
            }
        }
        i = i + 1;
    }
    assert(views(stack@).subrange(0, i as int) =~= views(stack@));
    r
}

/// Lexically normalizes a path to its canonical form.
pub fn normalize(v: &Vec<u8>) -> (r: Vec<u8>)
    ensures
        r@ == norm_spec(v@),
{
    let mut stack: Vec<Vec<u8>> = Vec::new();
    let mut cur: Vec<u8> = Vec::new();
    proof {
        assert(views(stack@) =~~= Seq::<Seq<u8>>::empty());
        assert(v@.subrange(0, v@.len() as int) =~= v@);
    }
    let mut i: usize = 0;
    while i < v.len()
        invariant
            i <= v.len(),
            norm_segs(v@, Seq::empty(), Seq::empty()) == norm_segs(
                v@.subrange(i as int, v@.len() as int),
                views(stack@),
                cur@,
            ),
        decreases v.len() - i,
    {
        let ghost pre = v@.subrange(i as int, v@.len() as int);
        proof {
            assert(pre[0] == v@[i as int]);
            assert(pre.drop_first() =~= v@.subrange(i + 1, v@.len() as int));
        }
        if v[i] == SLASH {
            let mut done: Vec<u8> = Vec::new();
            core::mem::swap(&mut done, &mut cur);
            apply_seg_x(&mut stack, done);
        } else {
            cur.push(v[i]);
        }
        i = i + 1;
    }
    proof {
        assert(v@.subrange(i as int, v@.len() as int) =~= Seq::<u8>::empty());
    }
    apply_seg_x(&mut stack, cur);
    join_segs_x(&stack)
}

/// Tests whether the specifier is relative (`./` or `../`).
pub fn is_relative_x(t: &Vec<u8>) -> (r: bool)
    ensures
        r == is_relative(t@),
{
    let dot_slash: Vec<u8> = vec![DOT, SLASH];
    let dotdot_slash: Vec<u8> = vec![DOT, DOT, SLASH];
    proof {
        assert(dot_slash@ =~= seq![DOT, SLASH]);
        assert(dotdot_slash@ =~= seq![DOT, DOT, SLASH]);
    }
    starts_with(t, &dot_slash) || starts_with(t, &dotdot_slash)
}

/// Joins a specifier onto a directory.
pub fn join_path(dir: &Vec<u8>, t: &Vec<u8>) -> (r: Vec<u8>)
    ensures
        r@ == join_spec(dir@, t@),
{
    if dir.len() == 0 {
        copy_bytes(t)
    } else {
        let mut r = copy_bytes(dir);
        r.push(SLASH);
        extend_bytes(&mut r, t);
        assert(r@ =~= dir@ + seq![SLASH] + t@);
        r
    }
}

/// Tests whether the specifier ends in a recognized source extension.
pub fn has_recognized_ext(t: &Vec<u8>, exts: &Vec<Vec<u8>>) -> (r: bool)
    ensures
        r == has_ext_spec(t@, views(exts@)),
{
    let mut i: usize = 0;
    while i < exts.len()
        invariant
            i <= exts.len(),
            forall|j: int| 0 <= j < i ==> !is_suffix(#[trigger] views(exts@)[j], t@),
        decreases exts.len() - i,
    {
        if ends_with(t, &exts[i]) {
            assert(is_suffix(views(exts@)[i as int], t@));
            return true;
        }
        i = i + 1;
    }
    false
}

/// Builds the ordered candidate list for an extensionless base path.
pub fn expand(base: &Vec<u8>, exts: &Vec<Vec<u8>>) -> (r: Vec<Vec<u8>>)
    ensures
        views(r@) == expand_spec(base@, views(exts@)),
{
    let mut r: Vec<Vec<u8>> = Vec::new();
    let mut i: usize = 0;
    while i < exts.len()
        invariant
            i <= exts.len(),
            r@.len() == i as int,
            forall|j: int| 0 <= j < i ==> #[trigger] r@[j]@ == base@ + exts@[j]@,
        decreases exts.len() - i,
    {
        r.push(concat_bytes(base, &exts[i]));
        i = i + 1;
    }
    let index_part: Vec<u8> = vec![SLASH, 105u8, 110u8, 100u8, 101u8, 120u8];
    proof {
        assert(index_part@ =~= index_seg());
    }
    let with_index = concat_bytes(base, &index_part);
    let mut k: usize = 0;
    while k < exts.len()
        invariant
            k <= exts.len(),
            with_index@ == base@ + index_seg(),
            r@.len() == exts@.len() + k as int,
            forall|j: int| 0 <= j < exts@.len() ==> #[trigger] r@[j]@ == base@ + exts@[j]@,
            forall|j: int|
                exts@.len() <= j < exts@.len() + k ==> #[trigger] r@[j]@ == base@ + index_seg()
                    + exts@[j - exts@.len()]@,
        decreases exts.len() - k,
    {
        r.push(concat_bytes(&with_index, &exts[k]));
        k = k + 1;
    }
    proof {
        assert forall|j: int| 0 <= j < r@.len() implies views(r@)[j] == expand_spec(
            base@,
            views(exts@),
        )[j] by {
            assert(views(r@)[j] == r@[j]@);
            assert(views(exts@).len() == exts@.len());
            if j < exts@.len() {
                assert(views(exts@)[j] == exts@[j]@);
            } else {
                assert(views(exts@)[j - exts@.len()] == exts@[j - exts@.len()]@);
            }
        }
        assert(views(r@) =~= expand_spec(base@, views(exts@)));
    }
    r
}

/// The plan for a specifier found inside module source.
pub fn plan_edge(t: &Vec<u8>, dir: &Vec<u8>, root: &Option<Vec<u8>>, exts: &Vec<Vec<u8>>) -> (p:
    Plan)
    ensures
        plan_model(p) == edge_plan_spec(t@, dir@, opt_view(*root), views(exts@)),
{
    if is_relative_x(t) {
        let joined = join_path(dir, t);
        let base = normalize(&joined);
        if has_recognized_ext(t, exts) {
            Plan::Resolved(base)
        } else {
            let cands = expand(&base, exts);
            if cands.len() > 0 {
                Plan::Probe(cands)
            } else {
                Plan::Unresolvable
            }
        }
    } else {
        match root {
            Option::None => Plan::Unresolvable,
            Option::Some(r) => {
                let joined = join_path(r, t);
                let base = normalize(&joined);
                let cands: Vec<Vec<u8>> = if has_recognized_ext(t, exts) {
                    let mut one: Vec<Vec<u8>> = Vec::new();
                    one.push(base);
                    proof {
                        assert(views(one@) =~~= seq![
                            norm_spec(join_spec(r@, t@)),
                        ]);
                    }
                    one
                } else {
                    expand(&base, exts)
                };
                if cands.len() > 0 {
                    Plan::Probe(cands)
                } else {
                    Plan::Unresolvable
                }
            },
        }
    }
}

/// The plan for an entry point.
pub fn plan_entry(t: &Vec<u8>, root: &Option<Vec<u8>>, exts: &Vec<Vec<u8>>) -> (p: Plan)
    ensures
        plan_model(p) == entry_plan_spec(t@, opt_view(*root), views(exts@)),
{
    let base0 = normalize(t);
    let with_ext = has_recognized_ext(t, exts);
    let mut cands: Vec<Vec<u8>> = if with_ext {
        let mut one: Vec<Vec<u8>> = Vec::new();
        one.push(base0);
        proof {
            assert(views(one@) =~~= seq![norm_spec(t@)]);
        }
        one
    } else {
        expand(&base0, exts)
    };
    let ghost c0 = views(cands@);
    if !is_relative_x(t) {
        match root {
            Option::None => {},
            Option::Some(r) => {
                let joined = join_path(r, t);
                let base1 = normalize(&joined);
                let mut more: Vec<Vec<u8>> = if with_ext {
                    let mut one: Vec<Vec<u8>> = Vec::new();
                    one.push(base1);
                    proof {
                        assert(views(one@) =~~= seq![
                            norm_spec(join_spec(r@, t@)),
                        ]);
                    }
                    one
                } else {
                    expand(&base1, exts)
                };
                let ghost c1 = views(more@);
                cands.append(&mut more);
                proof {
                    assert(views(cands@) =~~= c0 + c1);
                }
            },
        }
    }
    if cands.len() > 0 {
        Plan::Probe(cands)
    } else {
        Plan::Unresolvable
    }
}


/// The directory of a path: everything before the last `/`, or empty where
/// the path has no directory part.
pub open spec fn dirname_spec(s: Seq<u8>) -> Seq<u8>
    decreases s.len(),
{
    if s.len() == 0 {
        Seq::empty()
    } else if s.last() == SLASH {
        s.drop_last()
    } else {
        dirname_spec(s.drop_last())
    }
}

/// Computes the directory of a path.
pub fn dirname(v: &Vec<u8>) -> (r: Vec<u8>)
    ensures
        r@ == dirname_spec(v@),
{
    let mut j: usize = v.len();
    proof {
        assert(v@.subrange(0, j as int) =~= v@);
    }
    while j > 0 && v[j - 1] != SLASH
        invariant
            j <= v@.len(),
            dirname_spec(v@) == dirname_spec(v@.subrange(0, j as int)),
        decreases j,
    {
        proof {
            let pre = v@.subrange(0, j as int);
            assert(pre.last() == v@[j - 1]);
            assert(pre.drop_last() =~= v@.subrange(0, j - 1));
        }
        j = j - 1;
    }
    if j == 0 {
        proof {
            assert(v@.subrange(0, 0) =~= Seq::<u8>::empty());
        }
        Vec::new()
    } else {
        proof {
            let pre = v@.subrange(0, j as int);
            assert(pre.last() == v@[j - 1]);
            assert(pre.drop_last() =~= v@.subrange(0, j - 1));
        }
        crate::bytes::copy_range(v, 0, j - 1)
    }
}

/// Idempotent identity: two relative specifiers that point at the same file
/// — their joined, normalized paths are equal and both are written with, or
/// both without, a recognized extension — resolve to equal module
/// identities, whatever files exist.
pub proof fn lemma_resolve_idempotent_identity(
    t1: Seq<u8>,
    d1: Seq<u8>,
    t2: Seq<u8>,
    d2: Seq<u8>,
    root: Option<Seq<u8>>,
    exts: Seq<Seq<u8>>,
    fs: Set<Seq<u8>>,
)
    requires
        is_relative(t1),
        is_relative(t2),
        has_ext_spec(t1, exts) == has_ext_spec(t2, exts),
        norm_spec(join_spec(d1, t1)) == norm_spec(join_spec(d2, t2)),
    ensures
        resolve_spec(edge_plan_spec(t1, d1, root, exts), fs) == resolve_spec(
            edge_plan_spec(t2, d2, root, exts),
            fs,
        ),
{
}

/// Idempotent identity for bare specifiers: two bare specifiers that point
/// at the same file under the configured root — their root-joined,
/// normalized paths are equal and both are written with, or both without, a
/// recognized extension — resolve to equal module identities, whatever files
/// exist. Without a root, every bare specifier is equally unresolvable.
pub proof fn lemma_resolve_idempotent_identity_bare(
    t1: Seq<u8>,
    d1: Seq<u8>,
    t2: Seq<u8>,
    d2: Seq<u8>,
    root: Option<Seq<u8>>,
    exts: Seq<Seq<u8>>,
    fs: Set<Seq<u8>>,
)
    requires
        !is_relative(t1),
        !is_relative(t2),
        has_ext_spec(t1, exts) == has_ext_spec(t2, exts),
        root matches Option::Some(r) ==> norm_spec(join_spec(r, t1)) == norm_spec(
            join_spec(r, t2),
        ),
    ensures
        resolve_spec(edge_plan_spec(t1, d1, root, exts), fs) == resolve_spec(
            edge_plan_spec(t2, d2, root, exts),
            fs,
        ),
{
}

} // verus!
