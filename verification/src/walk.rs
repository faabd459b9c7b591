use vstd::prelude::*;
use crate::lemmas::{lemma_reaches_below, lemma_reaches_extends, lemma_stable};
use crate::model::{produced, GraphView};
use crate::operator::Operator;

verus! {

/// Where an evaluation of the computed vertex `n` stands while it gathers the
/// values of its inputs: `key` holds the values of the first inputs, those
/// inputs are settled, and since `before` nothing has happened but the
/// evaluations below them.
pub open spec fn gathering<F: Fn(Operator, &Vec<u32>) -> u32>(
    cur: GraphView,
    before: GraphView,
    n: int,
    apply: &F,
    key: Seq<u32>,
) -> bool {
    &&& before.well_formed()
    &&& cur.well_formed()
    &&& before.is_computable(n)
    &&& cur.extends(before)
    &&& cur.vertices[n] == before.vertices[n]
    &&& key.len() <= before.inputs(n).len()
    &&& forall|t: int|
        0 <= t < key.len() ==> cur.settled(#[trigger] before.inputs(n)[t]) && key[t]
            == cur.value(before.inputs(n)[t])
    &&& cur.grown(before, n, apply)
}

/// An evaluation of a variable leaves the graph as it was.
pub proof fn lemma_computed_variable<F: Fn(Operator, &Vec<u32>) -> u32>(
    g: GraphView,
    n: int,
    apply: &F,
)
    requires
        g.is_variable(n),
    ensures
        g.computed(g, n, apply, g.vertices[n]->value),
{
    assert forall|m: int| #[trigger] g.has(m) implies g.vertex_extends(g, m) by {}
}

/// The walk starts with nothing gathered.
pub proof fn lemma_gather_start<F: Fn(Operator, &Vec<u32>) -> u32>(g: GraphView, n: int, apply: &F)
    requires
        g.well_formed(),
        g.is_computable(n),
    ensures
        gathering(g, g, n, apply, Seq::<u32>::empty()),
{
    assert forall|m: int| #[trigger] g.has(m) implies g.vertex_extends(g, m) by {}
}

/// An entry that was worked out stays so described when other caches grow.
proof fn lemma_transfer<F: Fn(Operator, &Vec<u32>) -> u32>(
    before: GraphView,
    cur: GraphView,
    next: GraphView,
    n: int,
    m: int,
    apply: &F,
)
    requires
        next.extends(cur),
        cur.is_computable(m),
        cur.evaluated(before, n, m, apply),
        next.cache(m) =~= cur.cache(m),
    ensures
        next.evaluated(before, n, m, apply),
{
    lemma_stable(cur, next, m);
    assert(next.vertex_extends(cur, m));
}

/// Adding entries twice is adding entries.
proof fn lemma_extends_twice(before: GraphView, cur: GraphView, next: GraphView)
    requires
        cur.extends(before),
        next.extends(cur),
    ensures
        next.extends(before),
{
    assert forall|m: int| #[trigger] before.has(m) implies next.vertex_extends(before, m) by {
        assert(cur.has(m));
        assert(cur.vertex_extends(before, m));
        assert(next.vertex_extends(cur, m));
        if before.vertices[m] is Computable {
            vstd::map_lib::lemma_submap_of_trans(before.cache(m), cur.cache(m), next.cache(m));
        }
    }
}

/// One input more: after the evaluation of the next input, the walk has
/// gathered its value too.
pub proof fn lemma_gather_step<F: Fn(Operator, &Vec<u32>) -> u32>(
    before: GraphView,
    cur: GraphView,
    next: GraphView,
    n: int,
    apply: &F,
    key: Seq<u32>,
    value: u32,
)
    requires
        gathering(cur, before, n, apply, key),
        key.len() < before.inputs(n).len(),
        next.well_formed(),
        next.computed(cur, before.inputs(n)[key.len() as int], apply, value),
    ensures
        gathering(next, before, n, apply, key.push(value)),
{
    let inputs = before.inputs(n);
    let c = inputs[key.len() as int];
    assert(before.vertex_ok(n));
    assert(c < n);
    lemma_extends_twice(before, cur, next);
    assert(cur.has(n));
    assert(next.vertex_extends(cur, n));
    assert(cur.is_computable(n));
    assert forall|m: int| #[trigger] before.is_computable(m) implies next.cache(m) =~= before.cache(
        m,
    ) || next.evaluated(before, n, m, apply) by {
        assert(cur.has(m));
        assert(cur.vertex_extends(before, m));
        assert(cur.is_computable(m));
        if next.cache(m) =~= cur.cache(m) {
            if !(cur.cache(m) =~= before.cache(m)) {
                lemma_transfer(before, cur, next, n, m, apply);
            }
        } else {
            assert(next.evaluated(cur, c, m, apply));
            lemma_reaches_extends(before, cur, c, m);
            assert(0 <= inputs[key.len() as int] < n && before.reaches(
                inputs[key.len() as int],
                m,
            ));
            assert(before.reaches(n, m));
            if !(cur.cache(m) =~= before.cache(m)) {
                assert(cur.evaluated(before, n, m, apply));
                lemma_stable(cur, next, m);
                assert(false);
            }
            assert(next.vertex_extends(cur, m));
        }
    }
    assert(next.cache(n) =~= cur.cache(n)) by {
        if !(next.cache(n) =~= cur.cache(n)) {
            assert(next.evaluated(cur, c, n, apply));
            lemma_reaches_below(cur, c, n);
        }
    }
    assert(next.vertices[n] =~= cur.vertices[n]);
    let longer = key.push(value);
    assert forall|t: int| 0 <= t < longer.len() implies next.settled(#[trigger] inputs[t])
        && longer[t] == next.value(inputs[t]) by {
        if t < key.len() {
            lemma_stable(cur, next, inputs[t]);
        }
    }
}

/// All inputs gathered and their tuple found in the cache: the evaluation is
/// done, and its result is the cached value.
pub proof fn lemma_gather_hit<F: Fn(Operator, &Vec<u32>) -> u32>(
    before: GraphView,
    cur: GraphView,
    n: int,
    apply: &F,
    key: Seq<u32>,
)
    requires
        gathering(cur, before, n, apply, key),
        key.len() == before.inputs(n).len(),
        cur.cache(n).contains_key(key),
    ensures
        cur.key(n) == key,
        cur.computed(before, n, apply, cur.cache(n)[key]),
{
    assert(before.vertex_ok(n));
    assert(cur.key(n) =~= key);
}

/// All inputs gathered and their tuple new to the cache: once the operator's
/// value for it is remembered, the evaluation is done, and that value is its
/// result.
pub proof fn lemma_gather_miss<F: Fn(Operator, &Vec<u32>) -> u32>(
    before: GraphView,
    cur: GraphView,
    n: int,
    apply: &F,
    key: Seq<u32>,
    value: u32,
)
    requires
        gathering(cur, before, n, apply, key),
        key.len() == before.inputs(n).len(),
        !cur.cache(n).contains_key(key),
        produced(apply, cur.operator(n), key, value),
    ensures
        cur.remember(n, key, value).well_formed(),
        cur.remember(n, key, value).computed(before, n, apply, value),
{
    let next = cur.remember(n, key, value);
    let inputs = before.inputs(n);
    assert(before.vertex_ok(n));
    assert(cur.is_computable(n));
    assert(cur.vertex_ok(n));
    assert(cur.key(n) =~= key);
    assert forall|m: int| #[trigger] cur.has(m) implies next.vertex_extends(cur, m) by {}
    assert(next.extends(cur));
    lemma_extends_twice(before, cur, next);
    assert forall|m: int| #[trigger] next.is_computable(m) implies next.vertex_ok(m) by {
        assert(cur.is_computable(m));
        assert(cur.vertex_ok(m));
        assert(next.inputs(m) == cur.inputs(m));
        assert(next.operator(m) == cur.operator(m));
        assert forall|k: Seq<u32>| #[trigger] next.cache(m).contains_key(k) implies k.len()
            == next.inputs(m).len() by {
            if m != n || k != key {
                assert(cur.cache(m).contains_key(k));
            }
        }
    }
    assert forall|t: int| 0 <= t < inputs.len() implies next.settled(#[trigger] inputs[t])
        && next.value(inputs[t]) == key[t] by {
        lemma_stable(cur, next, inputs[t]);
    }
    assert(next.key(n) =~= key);
    assert(next.settled(n));
    assert(next.value(n) == value);
    assert forall|m: int| #[trigger] before.is_computable(m) implies next.cache(m) =~= before.cache(
        m,
    ) || next.evaluated(before, n, m, apply) by {
        assert(cur.has(m));
        assert(cur.vertex_extends(before, m));
        assert(cur.is_computable(m));
        if m != n {
            assert(next.cache(m) =~= cur.cache(m));
            if !(cur.cache(m) =~= before.cache(m)) {
                lemma_transfer(before, cur, next, n, m, apply);
            }
        } else {
            assert(next.evaluated(before, n, n, apply));
        }
    }
}

} // verus!
