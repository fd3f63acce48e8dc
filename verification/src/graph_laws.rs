//! What the enrollment graph's transforms mean: where a sample that joins the
//! canonical component is placed, by which relation, and what the novel coverage
//! is measured against.
use vstd::prelude::*;

use crate::enrollment_graph::{
    attached, closed_over, edge, founded, integrated, list_error, promoted, promoted_directly,
    promoted_through, strongest, to_anchor, transforms_to_others, with_anchored, GraphModel,
    GraphState,
};
use crate::registration::{is_triangular, Gf3258AffineQ8, Gf3258PairRelation};

verus! {

/// Transforms move positions: a composition moves by its inner, then by its outer
/// transform, an inverse moves back, and the identity moves nothing.
#[verifier::opaque]
pub open spec fn acts_on<P>(m: GraphModel, act: spec_fn(Gf3258AffineQ8, P) -> P) -> bool {
    &&& forall|outer: Gf3258AffineQ8, inner: Gf3258AffineQ8, p: P|
        #[trigger] act((m.compose)(outer, inner), p) == act(outer, act(inner, p))
    &&& forall|t: Gf3258AffineQ8, p: P| #[trigger] act((m.inverse)(t), act(t, p)) == p
    &&& forall|t: Gf3258AffineQ8, p: P| #[trigger] act(t, act((m.inverse)(t), p)) == p
    &&& forall|p: P|
        #[trigger] act(Gf3258AffineQ8 { a: 0x100, b: 0, c: 0, d: 0x100, tx: 0, ty: 0 }, p) == p
}

/// The transform from sample `x` to sample `y` as the table holds it: as stored
/// from the higher to the lower index, and inverted the other way.
pub open spec fn link(
    rows: Seq<Seq<Gf3258PairRelation>>,
    m: GraphModel,
    x: int,
    y: int,
) -> Gf3258AffineQ8 {
    if x > y {
        rows[x][y].transform_higher_to_lower
    } else {
        (m.inverse)(rows[y][x].transform_higher_to_lower)
    }
}

/// The value of the pair `x`, `y`.
pub open spec fn link_value(rows: Seq<Seq<Gf3258PairRelation>>, x: int, y: int) -> i32 {
    if x > y {
        rows[x][y].relation_value
    } else {
        rows[y][x].relation_value
    }
}

/// The transform from sample `x` to the anchor.
pub open spec fn placement(g: GraphState, m: GraphModel, x: int) -> Gf3258AffineQ8 {
    if x == g.anchor {
        Gf3258AffineQ8 { a: 0x100, b: 0, c: 0, d: 0x100, tx: 0, ty: 0 }
    } else {
        link(g.rows, m, x, g.anchor as int)
    }
}

/// Sample `x` belongs to the component in `g` and did not in `origin`.
pub open spec fn is_new(origin: GraphState, g: GraphState, x: int) -> bool {
    &&& 0 <= x < g.samples.len()
    &&& g.samples[x].canonical_member
    &&& !origin.samples[x].canonical_member
}

/// Sample `x` is placed where sample `w` is, after the relation that they had in
/// `origin`: going from `x` to the anchor is going from `x` to `w` and from there
/// to the anchor.
pub open spec fn is_placed_by<P>(
    origin: GraphState,
    g: GraphState,
    m: GraphModel,
    act: spec_fn(Gf3258AffineQ8, P) -> P,
    x: int,
    w: int,
) -> bool {
    &&& 0 <= w < g.samples.len()
    &&& w != x
    &&& w == g.anchor || g.samples[w].canonical_member
    &&& forall|p: P| #[trigger]
        act(placement(g, m, x), p) == act(placement(g, m, w), act(link(origin.rows, m, x, w), p))
}

/// The relation by which `x` may join beside `w`: the current sample joins by its
/// relation to a member; others join beside the current sample with a score of at
/// least 209, or beside another one with a score above the threshold.
pub open spec fn is_reason(
    origin: GraphState,
    m: GraphModel,
    current: usize,
    score_threshold: i32,
    x: int,
    w: int,
) -> bool {
    ||| x == current
    ||| {
        &&& w == current
        &&& link_value(origin.rows, x, w) >= 0
        &&& (m.score)(current, x as usize, link(origin.rows, m, w, x)) >= 209
    }
    ||| {
        &&& link_value(origin.rows, x, w) >= 0
        &&& (m.score)(x as usize, w as usize, link(origin.rows, m, x, w)) > score_threshold
    }
}

/// Sample `w` explains why `x` joined and where it is placed.
pub open spec fn is_witness<P>(
    origin: GraphState,
    g: GraphState,
    m: GraphModel,
    act: spec_fn(Gf3258AffineQ8, P) -> P,
    current: usize,
    score_threshold: i32,
    x: int,
    w: int,
) -> bool {
    &&& is_placed_by(origin, g, m, act, x, w)
    &&& is_reason(origin, m, current, score_threshold, x, w)
}

/// Records are those of `origin`, but for the ones between new samples and the
/// anchor.
pub open spec fn keeps_records(origin: GraphState, g: GraphState) -> bool {
    &&& g.rows.len() == origin.rows.len()
    &&& is_triangular(g.rows)
    &&& forall|x: int, y: int|
        0 <= y < x < g.rows.len() && !(x == g.anchor && is_new(origin, g, y)) && !(y == g.anchor
            && is_new(origin, g, x)) ==> #[trigger] g.rows[x][y] == origin.rows[x][y]
}

/// A stage of an integration: all new samples but the anchor are placed.
pub open spec fn is_stage<P>(
    origin: GraphState,
    g: GraphState,
    m: GraphModel,
    act: spec_fn(Gf3258AffineQ8, P) -> P,
    current: usize,
    score_threshold: i32,
) -> bool {
    &&& g.established
    &&& g.samples.len() == origin.samples.len()
    &&& g.anchor < g.samples.len() <= g.rows.len()
    &&& keeps_records(origin, g)
    &&& forall|x: int|
        0 <= x < g.samples.len() && (#[trigger] origin.samples[x]).canonical_member
            ==> g.samples[x].canonical_member
    &&& forall|x: int|
        #![trigger g.samples[x]]
        is_new(origin, g, x) && x != g.anchor ==> exists|w: int|
            #[trigger] is_witness(origin, g, m, act, current, score_threshold, x, w)
}

proof fn lemma_edge_is_link(rows: Seq<Seq<Gf3258PairRelation>>, m: GraphModel, x: int, y: int)
    requires
        0 <= x < rows.len(),
        0 <= y < rows.len(),
        x != y,
    ensures
        edge(rows, m.inverse, x, y) == Some((link_value(rows, x, y), link(rows, m, x, y))),
{
}

/// An unplaced sample joins beside `w` by a transform that goes through `w`.
proof fn lemma_join<P>(
    origin: GraphState,
    g: GraphState,
    m: GraphModel,
    act: spec_fn(Gf3258AffineQ8, P) -> P,
    current: usize,
    score_threshold: i32,
    x: int,
    w: int,
    value: i32,
    t: Gf3258AffineQ8,
)
    requires
        acts_on(m, act),
        is_stage(origin, g, m, act, current, score_threshold),
        0 <= x < g.samples.len(),
        !g.samples[x].canonical_member,
        x != g.anchor ==> {
            &&& 0 <= w < g.samples.len()
            &&& w != x
            &&& w == g.anchor || g.samples[w].canonical_member
            &&& is_reason(origin, m, current, score_threshold, x, w)
            &&& forall|p: P| #[trigger]
                act(t, p) == act(placement(g, m, w), act(link(origin.rows, m, x, w), p))
        },
    ensures
        is_stage(
            origin,
            with_anchored(g, m, x, value, t),
            m,
            act,
            current,
            score_threshold,
        ),
{
    reveal(acts_on);
    let after = with_anchored(g, m, x, value, t);
    let anchor = g.anchor as int;
    assert(!origin.samples[x].canonical_member) by {
        if origin.samples[x].canonical_member {
            assert(g.samples[x].canonical_member);
        }
    }
    assert forall|z: int| 0 <= z < after.rows.len() implies (#[trigger] after.rows[z]).len() == z by {
        assert(g.rows[z].len() == z);
    }
    assert forall|y: int, z: int|
        0 <= z < y < after.rows.len() && !(y == after.anchor && is_new(origin, after, z)) && !(z
            == after.anchor && is_new(origin, after, y)) implies #[trigger] after.rows[y][z]
        == origin.rows[y][z] by {
        assert(g.rows[y].len() == y);
        assert(g.rows[y][z] == origin.rows[y][z]);
    }
    assert(keeps_records(origin, after));
    assert forall|z: int| 0 <= z < g.samples.len() && z != x implies placement(after, m, z)
        == placement(g, m, z) by {
        if z != anchor {
            assert(g.rows[z].len() == z);
            assert(g.rows[anchor].len() == anchor);
        }
    }
    assert forall|z: int|
        #![trigger after.samples[z]]
        is_new(origin, after, z) && z != after.anchor implies exists|v: int|
        #[trigger] is_witness(origin, after, m, act, current, score_threshold, z, v) by {
        if z == x {
            assert(g.rows[x].len() == x);
            assert(g.rows[anchor].len() == anchor);
            assert forall|p: P| #[trigger]
                act(placement(after, m, x), p) == act(
                    placement(after, m, w),
                    act(link(origin.rows, m, x, w), p),
                ) by {
                assert(act(t, p) == act(placement(g, m, w), act(link(origin.rows, m, x, w), p)));
                if x < anchor {
                    let back = (m.inverse)(t);
                    let q = act(t, p);
                    // The stored inverse, inverted again, moves as `t` does.
                    assert(act(back, q) == p);
                    assert(act((m.inverse)(back), act(back, q)) == q);
                    assert(placement(after, m, x) == (m.inverse)(back));
                }
            }
            assert(is_placed_by(origin, after, m, act, x, w));
            assert(is_witness(origin, after, m, act, current, score_threshold, x, w));
        } else {
            assert(is_new(origin, g, z));
            let v = choose|v: int|
                #[trigger] is_witness(origin, g, m, act, current, score_threshold, z, v);
            assert(v == x ==> v == anchor);
            assert(placement(after, m, v) == placement(g, m, v));
            assert forall|p: P| #[trigger]
                act(placement(after, m, z), p) == act(
                    placement(after, m, v),
                    act(link(origin.rows, m, z, v), p),
                ) by {
                assert(act(placement(g, m, z), p) == act(
                    placement(g, m, v),
                    act(link(origin.rows, m, z, v), p),
                ));
            }
            assert(is_placed_by(origin, after, m, act, z, v));
            assert(is_witness(origin, after, m, act, current, score_threshold, z, v));
        }
    }
    assert forall|z: int|
        0 <= z < after.samples.len() && (#[trigger] origin.samples[z]).canonical_member implies
        after.samples[z].canonical_member by {
        assert(g.samples[z].canonical_member);
    }
}

/// A record between a sample outside the component and any other one is the
/// original one.
proof fn lemma_outside_record(origin: GraphState, g: GraphState, m: GraphModel, x: int, y: int)
    requires
        keeps_records(origin, g),
        g.samples.len() <= g.rows.len(),
        0 <= x < g.samples.len(),
        0 <= y < g.samples.len(),
        x != y,
        !g.samples[x].canonical_member,
        x != g.anchor,
    ensures
        link(g.rows, m, x, y) == link(origin.rows, m, x, y),
        link(g.rows, m, y, x) == link(origin.rows, m, y, x),
        link_value(g.rows, x, y) == link_value(origin.rows, x, y),
{
    if x > y {
        assert(g.rows[x][y] == origin.rows[x][y]);
    } else {
        assert(g.rows[y][x] == origin.rows[y][x]);
    }
}

proof fn lemma_directly_staged<P>(
    origin: GraphState,
    g: GraphState,
    m: GraphModel,
    act: spec_fn(Gf3258AffineQ8, P) -> P,
    current: usize,
    score_threshold: i32,
    list: Seq<usize>,
    current_to_anchor: Gf3258AffineQ8,
    n: nat,
)
    requires
        acts_on(m, act),
        is_stage(origin, g, m, act, current, score_threshold),
        n <= list.len(),
        current < g.samples.len(),
        g.samples[current as int].canonical_member,
        current_to_anchor == placement(g, m, current as int),
        forall|i: int| 0 <= i < list.len() ==> (#[trigger] list[i]) < current,
    ensures
        ({
            let after = promoted_directly(g, m, current, list, current_to_anchor, n).0;
            &&& is_stage(origin, after, m, act, current, score_threshold)
            &&& after.anchor == g.anchor
            &&& after.samples[current as int].canonical_member
            &&& placement(after, m, current as int) == current_to_anchor
        }),
    decreases n,
{
    reveal(acts_on);
    if n > 0 {
        lemma_directly_staged(
            origin,
            g,
            m,
            act,
            current,
            score_threshold,
            list,
            current_to_anchor,
            (n - 1) as nat,
        );
        let state = promoted_directly(g, m, current, list, current_to_anchor, (n - 1) as nat).0;
        let after = promoted_directly(g, m, current, list, current_to_anchor, n).0;
        let x = list[n - 1] as int;
        lemma_edge_is_link(state.rows, m, current as int, x);
        if after != state {
            let step = link(state.rows, m, current as int, x);
            let t = (m.compose)(current_to_anchor, (m.inverse)(step));
            if x != state.anchor {
                lemma_outside_record(origin, state, m, x, current as int);
                assert forall|p: P| #[trigger]
                    act(t, p) == act(
                        placement(state, m, current as int),
                        act(link(origin.rows, m, x, current as int), p),
                    ) by {
                    assert(link(origin.rows, m, x, current as int) == (m.inverse)(step));
                }
            }
            lemma_join(
                origin,
                state,
                m,
                act,
                current,
                score_threshold,
                x,
                current as int,
                0,
                t,
            );
            assert(state.rows[current as int].len() == current);
            assert(state.rows[state.anchor as int].len() == state.anchor);
        }
    }
}

proof fn lemma_through_staged<P>(
    origin: GraphState,
    g: GraphState,
    m: GraphModel,
    act: spec_fn(Gf3258AffineQ8, P) -> P,
    current: usize,
    score_threshold: i32,
    through: usize,
    through_to_anchor: Gf3258AffineQ8,
    queue: Seq<usize>,
    n: nat,
)
    requires
        acts_on(m, act),
        is_stage(origin, g, m, act, current, score_threshold),
        n <= current < g.samples.len(),
        through < g.samples.len(),
        g.samples[through as int].canonical_member,
        through_to_anchor == placement(g, m, through as int),
        forall|i: int|
            0 <= i < queue.len() ==> (#[trigger] queue[i]) < current
                && g.samples[queue[i] as int].canonical_member,
    ensures
        ({
            let after = promoted_through(
                g,
                m,
                through,
                through_to_anchor,
                score_threshold,
                queue,
                n,
            );
            &&& is_stage(origin, after.0, m, act, current, score_threshold)
            &&& after.0.anchor == g.anchor
            &&& after.0.samples[through as int].canonical_member
            &&& placement(after.0, m, through as int) == through_to_anchor
            &&& forall|i: int|
                0 <= i < after.1.len() ==> (#[trigger] after.1[i]) < current
                    && after.0.samples[after.1[i] as int].canonical_member
        }),
    decreases n,
{
    reveal(acts_on);
    if n > 0 {
        lemma_through_staged(
            origin,
            g,
            m,
            act,
            current,
            score_threshold,
            through,
            through_to_anchor,
            queue,
            (n - 1) as nat,
        );
        let before = promoted_through(
            g,
            m,
            through,
            through_to_anchor,
            score_threshold,
            queue,
            (n - 1) as nat,
        );
        let state = before.0;
        let after = promoted_through(
            g,
            m,
            through,
            through_to_anchor,
            score_threshold,
            queue,
            n,
        );
        let x = n - 1;
        if x != through {
            lemma_edge_is_link(state.rows, m, x, through as int);
        }
        if after != before {
            let step = link(state.rows, m, x, through as int);
            let t = (m.compose)(through_to_anchor, step);
            if x != state.anchor {
                lemma_outside_record(origin, state, m, x, through as int);
            }
            lemma_join(
                origin,
                state,
                m,
                act,
                current,
                score_threshold,
                x,
                through as int,
                0,
                t,
            );
            assert(state.rows[through as int].len() == through);
            assert(state.rows[state.anchor as int].len() == state.anchor);
        }
    }
}

proof fn lemma_closure_staged<P>(
    origin: GraphState,
    g: GraphState,
    m: GraphModel,
    act: spec_fn(Gf3258AffineQ8, P) -> P,
    current: usize,
    score_threshold: i32,
    queue: Seq<usize>,
    at: nat,
)
    requires
        acts_on(m, act),
        is_stage(origin, g, m, act, current, score_threshold),
        current < g.samples.len(),
        forall|i: int|
            0 <= i < queue.len() ==> (#[trigger] queue[i]) < current
                && g.samples[queue[i] as int].canonical_member,
    ensures
        is_stage(
            origin,
            closed_over(g, m, current, score_threshold, queue, at).0,
            m,
            act,
            current,
            score_threshold,
        ),
    decreases
            (if at < queue.len() && current <= g.samples.len() {
                crate::enrollment_graph::outside_count(g.samples, current as nat) + queue.len() - at
            } else {
                0
            }),
{
    if at < queue.len() {
        let through = queue[at as int];
        match to_anchor(g, m, through as int) {
            Some(through_to_anchor) => {
                if through != g.anchor {
                    lemma_edge_is_link(g.rows, m, through as int, g.anchor as int);
                }
                lemma_through_staged(
                    origin,
                    g,
                    m,
                    act,
                    current,
                    score_threshold,
                    through,
                    through_to_anchor,
                    queue,
                    current as nat,
                );
                crate::enrollment_graph::lemma_promoted_through(
                    g,
                    m,
                    through,
                    through_to_anchor,
                    score_threshold,
                    queue,
                    current as nat,
                    current as nat,
                );
                let after = promoted_through(
                    g,
                    m,
                    through,
                    through_to_anchor,
                    score_threshold,
                    queue,
                    current as nat,
                );
                lemma_closure_staged(
                    origin,
                    after.0,
                    m,
                    act,
                    current,
                    score_threshold,
                    after.1,
                    at + 1,
                );
            },
            None => {},
        }
    }
}

proof fn lemma_listed_earlier(g: GraphState, current: usize, list: Seq<usize>, n: nat)
    requires
        n <= list.len(),
        list_error(g, current, list, n) is None,
    ensures
        forall|i: int| 0 <= i < n ==> (#[trigger] list[i]) < current,
    decreases n,
{
    if n > 0 {
        lemma_listed_earlier(g, current, list, (n - 1) as nat);
    }
}

/// The strongest relation of the current sample is one of the listed ones, no
/// listed one is stronger, and a later equal one is taken first; where only members
/// count, it is a member.
pub proof fn lemma_strongest_is_strongest(
    g: GraphState,
    m: GraphModel,
    current: usize,
    list: Seq<usize>,
    canonical_only: bool,
    n: nat,
)
    requires
        n <= list.len(),
        current < g.samples.len() <= g.rows.len(),
        forall|i: int| 0 <= i < list.len() ==> (#[trigger] list[i]) < current,
    ensures
        match strongest(g, m, current, list, canonical_only, n) {
            Some((index, value, t)) => {
                &&& exists|k: int|
                    0 <= k < n && #[trigger] list[k] == index && forall|i: int|
                        k < i < n && (canonical_only ==> g.samples[(
                        #[trigger] list[i]) as int].canonical_member) ==> g.rows[current as int][list[i] as int].relation_value
                            < value
                &&& index < current
                &&& canonical_only ==> g.samples[index as int].canonical_member
                &&& value == g.rows[current as int][index as int].relation_value
                &&& t == g.rows[current as int][index as int].transform_higher_to_lower
                &&& forall|i: int|
                    0 <= i < n && (canonical_only ==> g.samples[(
                    #[trigger] list[i]) as int].canonical_member) ==> g.rows[current as int][list[i] as int].relation_value
                        <= value
            },
            None => forall|i: int|
                0 <= i < n ==> canonical_only && !g.samples[(
                #[trigger] list[i]) as int].canonical_member,
        },
    decreases n,
{
    if n > 0 {
        lemma_strongest_is_strongest(g, m, current, list, canonical_only, (n - 1) as nat);
        lemma_edge_is_link(g.rows, m, current as int, list[n - 1] as int);
        let before = strongest(g, m, current, list, canonical_only, (n - 1) as nat);
        let after = strongest(g, m, current, list, canonical_only, n);
        if after is Some && (before is None || after != before) {
            assert(list[n - 1] == after->Some_0.0);
        } else if after is Some {
            let (index, value, _) = before->Some_0;
            let k = choose|k: int|
                0 <= k < n - 1 && #[trigger] list[k] == index && forall|i: int|
                    k < i < n - 1 && (canonical_only ==> g.samples[(
                    #[trigger] list[i]) as int].canonical_member)
                        ==> g.rows[current as int][list[i] as int].relation_value < value;
            assert(list[k] == index);
        }
    }
}

/// Where joined samples are placed. Whatever an integration comes to, every sample
/// that it takes into the component, but for the anchor of a component that it
/// founds, lies beside another member: going from the sample to the anchor is
/// going to that member by the relation that the two had before, and from the
/// member to the anchor. The current sample joins by any relation to a member;
/// others need a score of at least 209 beside the current sample, or one above
/// the threshold beside another member.
pub proof fn lemma_joined_samples_are_placed<P>(
    g: GraphState,
    m: GraphModel,
    act: spec_fn(Gf3258AffineQ8, P) -> P,
    current: usize,
    list: Seq<usize>,
    score_threshold: i32,
    x: int,
)
    requires
        acts_on(m, act),
        is_triangular(g.rows),
        g.samples.len() <= g.rows.len(),
        g.established ==> g.anchor < g.samples.len(),
        current < g.samples.len() ==> !g.samples[current as int].canonical_member,
        ({
            let state = integrated(g, m, current, list, score_threshold).0;
            is_new(g, state, x) && x != state.anchor
        }),
    ensures
        ({
            let state = integrated(g, m, current, list, score_threshold).0;
            exists|w: int|
                #[trigger] is_witness(g, state, m, act, current, score_threshold, x, w)
        }),
{
    let state = integrated(g, m, current, list, score_threshold).0;
    lemma_listed_earlier(g, current, list, list.len());
    let (base, error) = attached(g, m, current, list);
    if g.established {
        lemma_attached_staged(g, m, act, current, list, score_threshold);
    }
    if error is None {
        let start = founded(base, m, current, list, score_threshold);
        if start.established {
            if !g.established {
                lemma_founded_staged(g, m, act, current, list, score_threshold);
            }
            lemma_promoted_staged(g, start, m, act, current, list, score_threshold);
            assert(is_stage(g, state, m, act, current, score_threshold));
        } else {
            assert(state == g);
        }
    } else {
        assert(state == g);
    }
    assert(state.samples[x].canonical_member);
}

proof fn lemma_attached_staged<P>(
    g: GraphState,
    m: GraphModel,
    act: spec_fn(Gf3258AffineQ8, P) -> P,
    current: usize,
    list: Seq<usize>,
    score_threshold: i32,
)
    requires
        acts_on(m, act),
        is_triangular(g.rows),
        current < g.samples.len() <= g.rows.len(),
        g.established,
        g.anchor < g.samples.len(),
        !g.samples[current as int].canonical_member,
        forall|i: int| 0 <= i < list.len() ==> (#[trigger] list[i]) < current,
    ensures
        is_stage(g, attached(g, m, current, list).0, m, act, current, score_threshold),
{
    reveal(acts_on);
    lemma_strongest_is_strongest(g, m, current, list, true, list.len());
    assert(is_stage(g, g, m, act, current, score_threshold));
    match strongest(g, m, current, list, true, list.len()) {
        Some((through, _, step)) => {
            match to_anchor(g, m, through as int) {
                Some(through_to_anchor) => {
                    if through != g.anchor {
                        lemma_edge_is_link(g.rows, m, through as int, g.anchor as int);
                    }
                    assert(through_to_anchor == placement(g, m, through as int));
                    assert(step == link(g.rows, m, current as int, through as int));
                    lemma_join(
                        g,
                        g,
                        m,
                        act,
                        current,
                        score_threshold,
                        current as int,
                        through as int,
                        crate::enrollment_graph::kept_value(g, current as int),
                        (m.compose)(through_to_anchor, step),
                    );
                },
                None => {},
            }
        },
        None => {},
    }
}

proof fn lemma_promoted_staged<P>(
    origin: GraphState,
    g: GraphState,
    m: GraphModel,
    act: spec_fn(Gf3258AffineQ8, P) -> P,
    current: usize,
    list: Seq<usize>,
    score_threshold: i32,
)
    requires
        acts_on(m, act),
        is_stage(origin, g, m, act, current, score_threshold),
        current < g.samples.len(),
        forall|i: int| 0 <= i < list.len() ==> (#[trigger] list[i]) < current,
    ensures
        is_stage(
            origin,
            promoted(g, m, current, list, score_threshold).0,
            m,
            act,
            current,
            score_threshold,
        ),
{
    if g.samples[current as int].canonical_member {
        match to_anchor(g, m, current as int) {
            Some(current_to_anchor) => {
                if current != g.anchor {
                    lemma_edge_is_link(g.rows, m, current as int, g.anchor as int);
                }
                lemma_directly_staged(
                    origin,
                    g,
                    m,
                    act,
                    current,
                    score_threshold,
                    list,
                    current_to_anchor,
                    list.len(),
                );
                let direct = promoted_directly(
                    g,
                    m,
                    current,
                    list,
                    current_to_anchor,
                    list.len(),
                );
                lemma_direct_queue(g, m, current, list, current_to_anchor, list.len());
                lemma_closure_staged(
                    origin,
                    direct.0,
                    m,
                    act,
                    current,
                    score_threshold,
                    direct.1,
                    0,
                );
            },
            None => {},
        }
    }
}

proof fn lemma_direct_queue(
    g: GraphState,
    m: GraphModel,
    current: usize,
    list: Seq<usize>,
    current_to_anchor: Gf3258AffineQ8,
    n: nat,
)
    requires
        n <= list.len(),
        current < g.samples.len(),
        forall|i: int| 0 <= i < list.len() ==> (#[trigger] list[i]) < current,
    ensures
        ({
            let after = promoted_directly(g, m, current, list, current_to_anchor, n);
            &&& after.0.samples.len() == g.samples.len()
            &&& forall|i: int|
                0 <= i < after.1.len() ==> (#[trigger] after.1[i]) < current
                    && after.0.samples[after.1[i] as int].canonical_member
        }),
    decreases n,
{
    if n > 0 {
        lemma_direct_queue(g, m, current, list, current_to_anchor, (n - 1) as nat);
    }
}

proof fn lemma_founded_staged<P>(
    g: GraphState,
    m: GraphModel,
    act: spec_fn(Gf3258AffineQ8, P) -> P,
    current: usize,
    list: Seq<usize>,
    score_threshold: i32,
)
    requires
        acts_on(m, act),
        is_triangular(g.rows),
        current < g.samples.len() <= g.rows.len(),
        !g.established,
        !g.samples[current as int].canonical_member,
        forall|i: int| 0 <= i < list.len() ==> (#[trigger] list[i]) < current,
        founded(g, m, current, list, score_threshold).established,
    ensures
        is_stage(
            g,
            founded(g, m, current, list, score_threshold),
            m,
            act,
            current,
            score_threshold,
        ),
{
    reveal(acts_on);
    lemma_strongest_is_strongest(g, m, current, list, false, list.len());
    let after = founded(g, m, current, list, score_threshold);
    let anchor = after.anchor as int;
    let c = current as int;
    assert(g.rows[c].len() == c);
    assert forall|z: int| 0 <= z < after.rows.len() implies (#[trigger] after.rows[z]).len() == z by {
        assert(g.rows[z].len() == z);
    }
    assert forall|y: int, z: int|
        0 <= z < y < after.rows.len() && !(y == after.anchor && is_new(g, after, z)) && !(z
            == after.anchor && is_new(g, after, y)) implies #[trigger] after.rows[y][z]
        == g.rows[y][z] by {
        assert(g.rows[y].len() == y);
    }
    assert forall|z: int|
        #![trigger after.samples[z]]
        is_new(g, after, z) && z != after.anchor implies exists|v: int|
        #[trigger] is_witness(g, after, m, act, current, score_threshold, z, v) by {
        assert(z == c);
        assert(placement(after, m, c) == link(g.rows, m, c, anchor));
        assert forall|p: P| #[trigger]
            act(placement(after, m, c), p) == act(
                placement(after, m, anchor),
                act(link(g.rows, m, c, anchor), p),
            ) by {}
        assert(is_placed_by(g, after, m, act, c, anchor));
        assert(is_witness(g, after, m, act, current, score_threshold, c, anchor));
    }
}

/// An integration founds a component exactly if there was none and the strongest
/// listed relation, the last of equal ones, is worth more than five and scores
/// above the threshold. Its other end is the anchor, and both ends are members.
pub proof fn lemma_founding(
    g: GraphState,
    m: GraphModel,
    current: usize,
    list: Seq<usize>,
    score_threshold: i32,
    k: int,
)
    requires
        is_triangular(g.rows),
        current < g.samples.len() <= g.rows.len(),
        !g.established,
        forall|i: int| 0 <= i < list.len() ==> (#[trigger] list[i]) < current,
        0 <= k < list.len(),
        forall|i: int|
            0 <= i < list.len() ==> g.rows[current as int][(#[trigger] list[i]) as int].relation_value
                <= g.rows[current as int][list[k] as int].relation_value,
        forall|i: int|
            k < i < list.len() ==> g.rows[current as int][(#[trigger] list[i]) as int].relation_value
                < g.rows[current as int][list[k] as int].relation_value,
    ensures
        ({
            let record = g.rows[current as int][list[k] as int];
            let after = founded(g, m, current, list, score_threshold);
            &&& after.established == (record.relation_value > 5 && (m.score)(
                current,
                list[k],
                record.transform_higher_to_lower,
            ) > score_threshold)
            &&& after.established ==> after.anchor == list[k]
                && after.samples[list[k] as int].canonical_member
                && after.samples[current as int].canonical_member
        }),
{
    lemma_strongest_is_strongest(g, m, current, list, false, list.len());
    let found = strongest(g, m, current, list, false, list.len());
    if found is None {
        assert(list[k] == list[k]);
    } else {
        let (index, value, t) = found->Some_0;
        let j = choose|j: int|
            0 <= j < list.len() && #[trigger] list[j] == index && forall|i: int|
                j < i < list.len() && (false ==> g.samples[(
                #[trigger] list[i]) as int].canonical_member)
                    ==> g.rows[current as int][list[i] as int].relation_value < value;
        assert(list[j] == index);
        assert(list[k] == list[k]);
        assert(index == list[k]);
    }
}

/// A graph with a component attaches the current sample to it exactly if a listed
/// sample is a member.
pub proof fn lemma_attaching(
    g: GraphState,
    m: GraphModel,
    current: usize,
    list: Seq<usize>,
)
    requires
        is_triangular(g.rows),
        current < g.samples.len() <= g.rows.len(),
        g.established,
        g.anchor < g.samples.len(),
        !g.samples[current as int].canonical_member,
        forall|i: int| 0 <= i < list.len() ==> (#[trigger] list[i]) < current,
        attached(g, m, current, list).1 is None,
    ensures
        attached(g, m, current, list).0.samples[current as int].canonical_member == (exists|i: int|
            0 <= i < list.len() && g.samples[(#[trigger] list[i]) as int].canonical_member),
{
    lemma_strongest_is_strongest(g, m, current, list, true, list.len());
    if strongest(g, m, current, list, true, list.len()) is Some {
        let index = strongest(g, m, current, list, true, list.len())->Some_0.0;
        let k = choose|k: int|
            0 <= k < list.len() && #[trigger] list[k] == index && forall|i: int|
                k < i < list.len() && (true ==> g.samples[(
                #[trigger] list[i]) as int].canonical_member)
                    ==> g.rows[current as int][list[i] as int].relation_value < strongest(
                        g,
                        m,
                        current,
                        list,
                        true,
                        list.len(),
                    )->Some_0.1;
        assert(g.samples[list[k] as int].canonical_member);
    }
}

/// The members below `n` that count for the coverage: those whose status is not
/// five.
pub open spec fn counted_members(g: GraphState, n: nat) -> Seq<int>
    decreases n,
{
    if n == 0 {
        Seq::empty()
    } else {
        let before = counted_members(g, (n - 1) as nat);
        if g.samples[n - 1].canonical_member && g.samples[n - 1].status != 5 {
            before.push(n - 1)
        } else {
            before
        }
    }
}

/// The novel coverage is measured against the members whose status is not five,
/// each by the transform that takes a position of the current sample to the
/// position that the member has in its place: on to the anchor, both arrive at the
/// same position.
pub proof fn lemma_coverage_transforms<P>(
    g: GraphState,
    m: GraphModel,
    act: spec_fn(Gf3258AffineQ8, P) -> P,
    current_to_anchor: Gf3258AffineQ8,
    n: nat,
)
    requires
        acts_on(m, act),
        g.established,
        n <= g.samples.len() <= g.rows.len(),
        g.anchor < g.samples.len(),
        transforms_to_others(g, m, current_to_anchor, n) is Ok,
    ensures
        ({
            let list = transforms_to_others(g, m, current_to_anchor, n)->Ok_0;
            let members = counted_members(g, n);
            &&& list.len() == members.len()
            &&& forall|k: int, p: P|
                0 <= k < list.len() ==> act(
                    placement(g, m, members[k]),
                    #[trigger] act(list[k], p),
                ) == act(current_to_anchor, p)
        }),
    decreases n,
{
    reveal(acts_on);
    if n > 0 {
        lemma_coverage_transforms(g, m, act, current_to_anchor, (n - 1) as nat);
        let x = n - 1;
        if x != g.anchor {
            lemma_edge_is_link(g.rows, m, x, g.anchor as int);
        }
        let list = transforms_to_others(g, m, current_to_anchor, n)->Ok_0;
        let members = counted_members(g, n);
        let before = transforms_to_others(g, m, current_to_anchor, (n - 1) as nat)->Ok_0;
        let earlier = counted_members(g, (n - 1) as nat);
        assert forall|k: int, p: P| 0 <= k < list.len() implies act(
            placement(g, m, members[k]),
            #[trigger] act(list[k], p),
        ) == act(current_to_anchor, p) by {
            if k < before.len() {
                assert(list[k] == before[k] && members[k] == earlier[k]);
                assert(act(placement(g, m, earlier[k]), act(before[k], p)) == act(
                    current_to_anchor,
                    p,
                ));
            } else {
                let there = placement(g, m, x);
                if x != g.anchor {
                    assert(list[k] == (m.compose)((m.inverse)(there), current_to_anchor));
                    assert(act(list[k], p) == act((m.inverse)(there), act(current_to_anchor, p)));
                    assert(act(there, act((m.inverse)(there), act(current_to_anchor, p))) == act(
                        current_to_anchor,
                        p,
                    ));
                }
            }
        }
    }
}

/// Transforms that move nothing.
spec fn no_motion() -> spec_fn(Gf3258AffineQ8, ()) -> () {
    |t: Gf3258AffineQ8, p: ()| p
}

/// The pair of an outside sample `x` and a sample `w` is an edge that scores above
/// the threshold.
pub open spec fn is_strong_edge(
    g: GraphState,
    m: GraphModel,
    score_threshold: i32,
    x: int,
    w: int,
) -> bool {
    &&& x != w
    &&& link_value(g.rows, x, w) >= 0
    &&& (m.score)(x as usize, w as usize, link(g.rows, m, x, w)) > score_threshold
}

/// A graph whose table has room for its samples and whose anchor is one of them.
pub open spec fn is_sound(g: GraphState) -> bool {
    &&& g.established
    &&& is_triangular(g.rows)
    &&& g.anchor < g.samples.len() <= g.rows.len()
}

proof fn lemma_own_stage(g: GraphState, m: GraphModel, current: usize, score_threshold: i32)
    requires
        is_sound(g),
    ensures
        acts_on(m, no_motion()),
        is_stage(g, g, m, no_motion(), current, score_threshold),
{
    reveal(acts_on);
}

/// Between an outside sample and one that was a member before, a record stays.
proof fn lemma_edge_stays(before: GraphState, after: GraphState, m: GraphModel, x: int, w: int)
    requires
        keeps_records(before, after),
        after.samples.len() <= after.rows.len(),
        0 <= x < after.samples.len(),
        0 <= w < after.samples.len(),
        x != w,
        !after.samples[x].canonical_member,
        before.samples[w].canonical_member,
    ensures
        link(after.rows, m, x, w) == link(before.rows, m, x, w),
        link_value(after.rows, x, w) == link_value(before.rows, x, w),
{
    if x > w {
        assert(after.rows[x][w] == before.rows[x][w]);
    } else {
        assert(after.rows[w][x] == before.rows[w][x]);
    }
}

proof fn lemma_through_complete(
    g: GraphState,
    m: GraphModel,
    current: usize,
    score_threshold: i32,
    through: usize,
    through_to_anchor: Gf3258AffineQ8,
    queue: Seq<usize>,
    n: nat,
)
    requires
        is_sound(g),
        n <= current < g.samples.len(),
        through < g.samples.len(),
        g.samples[through as int].canonical_member,
        through_to_anchor == placement(g, m, through as int),
        forall|i: int|
            0 <= i < queue.len() ==> (#[trigger] queue[i]) < current
                && g.samples[queue[i] as int].canonical_member,
    ensures
        ({
            let after = promoted_through(
                g,
                m,
                through,
                through_to_anchor,
                score_threshold,
                queue,
                n,
            );
            &&& is_stage(g, after.0, m, no_motion(), current, score_threshold)
            &&& after.0.anchor == g.anchor
            &&& queue.len() <= after.1.len()
            &&& forall|i: int| 0 <= i < queue.len() ==> after.1[i] == queue[i]
            &&& forall|x: int|
                0 <= x < n && !(#[trigger] after.0.samples[x]).canonical_member ==> !is_strong_edge(
                    g,
                    m,
                    score_threshold,
                    x,
                    through as int,
                )
        }),
    decreases n,
{
    lemma_own_stage(g, m, current, score_threshold);
    lemma_through_staged(
        g,
        g,
        m,
        no_motion(),
        current,
        score_threshold,
        through,
        through_to_anchor,
        queue,
        n,
    );
    if n > 0 {
        lemma_through_complete(
            g,
            m,
            current,
            score_threshold,
            through,
            through_to_anchor,
            queue,
            (n - 1) as nat,
        );
        let before = promoted_through(
            g,
            m,
            through,
            through_to_anchor,
            score_threshold,
            queue,
            (n - 1) as nat,
        );
        let after = promoted_through(
            g,
            m,
            through,
            through_to_anchor,
            score_threshold,
            queue,
            n,
        );
        assert forall|x: int|
            0 <= x < n && !(#[trigger] after.0.samples[x]).canonical_member implies !is_strong_edge(
            g,
            m,
            score_threshold,
            x,
            through as int,
        ) by {
            if x < n - 1 {
                assert(!before.0.samples[x].canonical_member);
            } else if x != through {
                lemma_edge_is_link(before.0.rows, m, x, through as int);
                assert(!before.0.samples[x].canonical_member);
                lemma_edge_stays(g, before.0, m, x, through as int);
            }
        }
    }
}

/// When the closure has ended without an error, nothing is left to promote: no
/// sample below the current one that is still outside has an edge to a queued
/// sample, from position `at` on, that scores above the threshold.
proof fn lemma_closure_complete(
    g: GraphState,
    m: GraphModel,
    current: usize,
    score_threshold: i32,
    queue: Seq<usize>,
    at: nat,
)
    requires
        is_sound(g),
        current < g.samples.len(),
        forall|i: int|
            0 <= i < queue.len() ==> (#[trigger] queue[i]) < current
                && g.samples[queue[i] as int].canonical_member,
        closed_over(g, m, current, score_threshold, queue, at).2 is None,
    ensures
        ({
            let (done, joined, _) = closed_over(g, m, current, score_threshold, queue, at);
            &&& is_stage(g, done, m, no_motion(), current, score_threshold)
            &&& queue.len() <= joined.len()
            &&& forall|i: int| 0 <= i < queue.len() ==> #[trigger] joined[i] == queue[i]
            &&& forall|i: int, x: int|
                at <= i < joined.len() && 0 <= x < current
                    && !done.samples[x].canonical_member ==> !#[trigger] is_strong_edge(
                    done,
                    m,
                    score_threshold,
                    x,
                    joined[i] as int,
                )
        }),
    decreases
            (if at < queue.len() && current <= g.samples.len() {
                crate::enrollment_graph::outside_count(g.samples, current as nat) + queue.len() - at
            } else {
                0
            }),
{
    lemma_own_stage(g, m, current, score_threshold);
    lemma_closure_staged(g, g, m, no_motion(), current, score_threshold, queue, at);
    if at < queue.len() {
        let through = queue[at as int];
        match to_anchor(g, m, through as int) {
            Some(through_to_anchor) => {
                if through != g.anchor {
                    lemma_edge_is_link(g.rows, m, through as int, g.anchor as int);
                }
                lemma_through_staged(
                    g,
                    g,
                    m,
                    no_motion(),
                    current,
                    score_threshold,
                    through,
                    through_to_anchor,
                    queue,
                    current as nat,
                );
                lemma_through_complete(
                    g,
                    m,
                    current,
                    score_threshold,
                    through,
                    through_to_anchor,
                    queue,
                    current as nat,
                );
                crate::enrollment_graph::lemma_promoted_through(
                    g,
                    m,
                    through,
                    through_to_anchor,
                    score_threshold,
                    queue,
                    current as nat,
                    current as nat,
                );
                let after = promoted_through(
                    g,
                    m,
                    through,
                    through_to_anchor,
                    score_threshold,
                    queue,
                    current as nat,
                );
                lemma_closure_complete(
                    after.0,
                    m,
                    current,
                    score_threshold,
                    after.1,
                    at + 1,
                );
                let (done, joined, _) = closed_over(g, m, current, score_threshold, queue, at);
                assert forall|i: int, x: int|
                    at <= i < joined.len() && 0 <= x < current
                        && !done.samples[x].canonical_member implies !#[trigger] is_strong_edge(
                    done,
                    m,
                    score_threshold,
                    x,
                    joined[i] as int,
                ) by {
                    if i == at && x != through {
                        assert(joined[i] == after.1[i] && after.1[i] == queue[i]);
                        assert(!after.0.samples[x].canonical_member) by {
                            if after.0.samples[x].canonical_member {
                                assert(done.samples[x].canonical_member);
                            }
                        }
                        assert(!is_strong_edge(g, m, score_threshold, x, through as int));
                        lemma_edge_stays(g, done, m, x, through as int);
                    }
                }
                assert forall|i: int| 0 <= i < queue.len() implies #[trigger] joined[i]
                    == queue[i] by {
                    assert(after.1[i] == queue[i]);
                }
            },
            None => {},
        }
    }
}

/// Listed samples that stay outside have no relation to the current one that
/// scores 209 or more.
proof fn lemma_direct_complete(
    g: GraphState,
    m: GraphModel,
    current: usize,
    score_threshold: i32,
    list: Seq<usize>,
    current_to_anchor: Gf3258AffineQ8,
    n: nat,
)
    requires
        is_sound(g),
        n <= list.len(),
        current < g.samples.len(),
        g.samples[current as int].canonical_member,
        current_to_anchor == placement(g, m, current as int),
        forall|i: int| 0 <= i < list.len() ==> (#[trigger] list[i]) < current,
    ensures
        ({
            let after = promoted_directly(g, m, current, list, current_to_anchor, n).0;
            &&& is_stage(g, after, m, no_motion(), current, score_threshold)
            &&& after.anchor == g.anchor
            &&& forall|i: int|
                0 <= i < n && !after.samples[(#[trigger] list[i]) as int].canonical_member ==> !(
                link_value(g.rows, current as int, list[i] as int) >= 0 && (m.score)(
                    current,
                    list[i],
                    link(g.rows, m, current as int, list[i] as int),
                ) >= 209)
        }),
    decreases n,
{
    lemma_own_stage(g, m, current, score_threshold);
    lemma_directly_staged(
        g,
        g,
        m,
        no_motion(),
        current,
        score_threshold,
        list,
        current_to_anchor,
        n,
    );
    if n > 0 {
        lemma_direct_complete(
            g,
            m,
            current,
            score_threshold,
            list,
            current_to_anchor,
            (n - 1) as nat,
        );
        let before = promoted_directly(g, m, current, list, current_to_anchor, (n - 1) as nat).0;
        let after = promoted_directly(g, m, current, list, current_to_anchor, n).0;
        let x = list[n - 1] as int;
        lemma_edge_is_link(before.rows, m, current as int, x);
        assert forall|i: int|
            0 <= i < n && !after.samples[(#[trigger] list[i]) as int].canonical_member implies !(
        link_value(g.rows, current as int, list[i] as int) >= 0 && (m.score)(
            current,
            list[i],
            link(g.rows, m, current as int, list[i] as int),
        ) >= 209) by {
            let z = list[i] as int;
            assert(!before.samples[z].canonical_member);
            if i == n - 1 {
                lemma_edge_stays(g, before, m, z, current as int);
                assert(link_value(before.rows, current as int, z) == link_value(
                    g.rows,
                    current as int,
                    z,
                ));
                assert(before.rows[current as int][z] == g.rows[current as int][z]);
            }
        }
    }
}

/// A promotion is complete. When it ends without an error in a graph whose current
/// sample is a member, every listed sample that is still outside scores below 209
/// with the current one, or has no edge to it; and no sample below the current one
/// that is still outside has an edge to a promoted sample that scores above the
/// threshold.
pub proof fn lemma_promotion_is_complete(
    g: GraphState,
    m: GraphModel,
    current: usize,
    list: Seq<usize>,
    score_threshold: i32,
)
    requires
        is_sound(g),
        current < g.samples.len(),
        g.samples[current as int].canonical_member,
        forall|i: int| 0 <= i < list.len() ==> (#[trigger] list[i]) < current,
        promoted(g, m, current, list, score_threshold).2 is None,
    ensures
        ({
            let (done, joined, _) = promoted(g, m, current, list, score_threshold);
            &&& forall|i: int|
                0 <= i < list.len() && !done.samples[(#[trigger] list[i]) as int].canonical_member
                    ==> !(link_value(g.rows, current as int, list[i] as int) >= 0 && (m.score)(
                    current,
                    list[i],
                    link(g.rows, m, current as int, list[i] as int),
                ) >= 209)
            &&& forall|i: int, x: int|
                0 <= i < joined.len() && 0 <= x < current && !done.samples[x].canonical_member
                    ==> !#[trigger] is_strong_edge(done, m, score_threshold, x, joined[i] as int)
        }),
{
    let current_to_anchor = to_anchor(g, m, current as int)->Some_0;
    if current != g.anchor {
        lemma_edge_is_link(g.rows, m, current as int, g.anchor as int);
    }
    lemma_direct_complete(
        g,
        m,
        current,
        score_threshold,
        list,
        current_to_anchor,
        list.len(),
    );
    lemma_direct_queue(g, m, current, list, current_to_anchor, list.len());
    let direct = promoted_directly(g, m, current, list, current_to_anchor, list.len());
    lemma_closure_complete(direct.0, m, current, score_threshold, direct.1, 0);
    let done = promoted(g, m, current, list, score_threshold).0;
    assert forall|i: int|
        0 <= i < list.len() && !done.samples[(
        #[trigger] list[i]) as int].canonical_member implies !direct.0.samples[list[i] as int].canonical_member by {
        if direct.0.samples[list[i] as int].canonical_member {
            assert(done.samples[list[i] as int].canonical_member);
        }
    }
}

} // verus!
