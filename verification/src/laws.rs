use vstd::prelude::*;
use crate::lemmas::{lemma_reaches_extends, lemma_settled_reaches, lemma_stable};
use crate::model::{produced, refines, GraphView, VertexView};
use crate::operator::Operator;

verus! {

/// An evaluation of a vertex that is already settled is answered from the
/// caches alone: it changes nothing in the graph, and its result is the value
/// that the caches hold.
pub proof fn law_settled_evaluation_changes_nothing<F: Fn(Operator, &Vec<u32>) -> u32>(
    before: GraphView,
    after: GraphView,
    n: int,
    apply: &F,
    result: u32,
)
    requires
        before.has(n),
        before.settled(n),
        after.computed(before, n, apply, result),
    ensures
        after == before,
        result == before.value(n),
{
    assert forall|m: int| 0 <= m < before.vertices.len() implies after.vertices[m]
        == before.vertices[m] by {
        assert(before.has(m));
        assert(after.vertex_extends(before, m));
        if before.is_computable(m) {
            if !(after.cache(m) =~= before.cache(m)) {
                assert(after.evaluated(before, n, m, apply));
                lemma_settled_reaches(before, n, m);
                lemma_stable(before, after, m);
                assert(before.cache(m).contains_key(before.key(m)));
                assert(false);
            }
            assert(after.vertices[m] =~= before.vertices[m]);
        }
    }
    assert(after.vertices =~= before.vertices);
    assert(after =~= before);
}

/// Repeated evaluations agree: with no variable set in between, a second
/// evaluation of the same vertex returns the same bits as the first and leaves
/// the graph as the first left it, whatever the operator function does.
pub proof fn law_repeated_evaluation_agrees<
    F: Fn(Operator, &Vec<u32>) -> u32,
    G: Fn(Operator, &Vec<u32>) -> u32,
>(
    start: GraphView,
    n: int,
    once: GraphView,
    first: u32,
    apply: &F,
    twice: GraphView,
    second: u32,
    again: &G,
)
    requires
        start.has(n),
        once.computed(start, n, apply, first),
        twice.computed(once, n, again, second),
    ensures
        second == first,
        twice == once,
{
    law_settled_evaluation_changes_nothing(once, twice, n, again, second);
}

/// One evaluation works a vertex out at most once, and only where it must:
/// the cache of a computed vertex `m` gains an entry exactly when `m` lies at
/// or below the evaluated vertex and the tuple of its inputs' values is new
/// to the cache. The entry gained is the one for that tuple, and its value is
/// one that the operator function gave for it. Every other cache, and every
/// other entry, is as before.
pub proof fn law_one_evaluation_per_tuple<F: Fn(Operator, &Vec<u32>) -> u32>(
    before: GraphView,
    after: GraphView,
    n: int,
    apply: &F,
    result: u32,
    m: int,
)
    requires
        before.has(n),
        after.computed(before, n, apply, result),
        before.is_computable(m),
    ensures
        after.cache(m) == if before.reaches(n, m) && !before.cache(m).contains_key(after.key(m)) {
            before.cache(m).insert(after.key(m), after.value(m))
        } else {
            before.cache(m)
        },
        before.reaches(n, m) && !before.cache(m).contains_key(after.key(m)) ==> produced(
            apply,
            before.operator(m),
            after.key(m),
            after.value(m),
        ),
{
    assert(after.vertex_extends(before, m));
    if after.cache(m) =~= before.cache(m) {
        if before.reaches(n, m) {
            lemma_reaches_extends(before, after, n, m);
            lemma_settled_reaches(after, n, m);
            assert(after.cache(m).contains_key(after.key(m)));
        }
    } else {
        assert(after.evaluated(before, n, m, apply));
    }
}

/// A value that comes back finds its result again: set a variable to `a` and
/// evaluate, set it to `b` and evaluate, set it back to `a` and evaluate. The
/// third evaluation returns what the first returned and adds nothing to any
/// cache.
pub proof fn law_revisited_value_is_reused<
    F: Fn(Operator, &Vec<u32>) -> u32,
    G: Fn(Operator, &Vec<u32>) -> u32,
    H: Fn(Operator, &Vec<u32>) -> u32,
>(
    start: GraphView,
    x: int,
    n: int,
    a: u32,
    b: u32,
    one: GraphView,
    first: u32,
    apply_one: &F,
    two: GraphView,
    second: u32,
    apply_two: &G,
    three: GraphView,
    third: u32,
    apply_three: &H,
)
    requires
        start.is_variable(x),
        start.has(n),
        one.computed(start.assign(x, a), n, apply_one, first),
        two.computed(one.assign(x, b), n, apply_two, second),
        three.computed(two.assign(x, a), n, apply_three, third),
    ensures
        third == first,
        three == two.assign(x, a),
{
    let s1 = start.assign(x, a);
    let s2 = one.assign(x, b);
    let s3 = two.assign(x, a);
    assert forall|m: int| #[trigger] one.has(m) implies s3.vertex_extends(one, m) by {
        assert(s1.has(m));
        assert(one.vertex_extends(s1, m));
        assert(s2.has(m));
        assert(two.vertex_extends(s2, m));
    }
    assert(s3.extends(one));
    lemma_stable(one, s3, n);
    law_settled_evaluation_changes_nothing(s3, three, n, apply_three, third);
}

/// What the expression denotes does not depend on what is cached.
pub proof fn lemma_denote_extends(
    before: GraphView,
    after: GraphView,
    n: int,
    f: spec_fn(Operator, Seq<u32>) -> u32,
)
    requires
        after.extends(before),
    ensures
        after.denote(n, f) == before.denote(n, f),
    decreases n,
{
    if before.has(n) {
        assert(after.vertex_extends(before, n));
        if before.is_computable(n) {
            let inputs = before.inputs(n);
            assert forall|j: int| 0 <= j < inputs.len() && 0 <= (#[trigger] inputs[j]) < n implies
                after.denote(inputs[j], f) == before.denote(inputs[j], f) by {
                lemma_denote_extends(before, after, inputs[j], f);
            }
            assert(after.denote_inputs(n, f) =~= before.denote_inputs(n, f));
        }
    }
}

/// Where every cached entry holds what `f` gives, the value of a settled
/// vertex is what its expression denotes under `f`.
pub proof fn lemma_value_is_denotation(
    g: GraphView,
    n: int,
    f: spec_fn(Operator, Seq<u32>) -> u32,
)
    requires
        g.settled(n),
        g.consistent(f),
    ensures
        g.value(n) == g.denote(n, f),
    decreases n,
{
    if g.is_computable(n) {
        let inputs = g.inputs(n);
        assert forall|j: int| 0 <= j < inputs.len() && 0 <= (#[trigger] inputs[j]) < n implies
            g.value(inputs[j]) == g.denote(inputs[j], f) by {
            lemma_value_is_denotation(g, inputs[j], f);
        }
        assert(g.key(n) =~= g.denote_inputs(n, f));
        assert(g.cache(n).contains_key(g.key(n)));
    }
}

/// Setting a variable caches nothing, so every cached entry still holds what
/// `f` gives.
pub proof fn lemma_consistent_assign(
    g: GraphView,
    x: int,
    value: u32,
    f: spec_fn(Operator, Seq<u32>) -> u32,
)
    requires
        g.is_variable(x),
        g.consistent(f),
    ensures
        g.assign(x, value).consistent(f),
{
    let set = g.assign(x, value);
    assert forall|m: int, k: Seq<u32>|
        set.is_computable(m) && #[trigger] set.cache(m).contains_key(k) implies set.cache(m)[k]
        == f(set.operator(m), k) by {
        assert(g.is_computable(m));
        assert(g.cache(m).contains_key(k));
    }
}

/// A new vertex has nothing cached, so every cached entry still holds what `f`
/// gives.
pub proof fn lemma_consistent_with_vertex(
    g: GraphView,
    vertex: VertexView,
    f: spec_fn(Operator, Seq<u32>) -> u32,
)
    requires
        g.consistent(f),
        vertex is Computable ==> vertex->cache == Map::<Seq<u32>, u32>::empty(),
    ensures
        g.with_vertex(vertex).consistent(f),
{
    let more = g.with_vertex(vertex);
    assert forall|m: int, k: Seq<u32>|
        more.is_computable(m) && #[trigger] more.cache(m).contains_key(k) implies more.cache(m)[k]
        == f(more.operator(m), k) by {
        if m < g.vertices.len() {
            assert(g.is_computable(m));
            assert(g.cache(m).contains_key(k));
        }
    }
}

/// Memoization is transparent. Let the operator function return nothing but
/// what the function `f` gives, and let every cached entry hold what `f`
/// gives. Then an evaluation returns what the expression denotes under `f`
/// and the variables' present values, as if nothing were cached, and every
/// cached entry still holds what `f` gives.
pub proof fn law_memoization_is_transparent<F: Fn(Operator, &Vec<u32>) -> u32>(
    before: GraphView,
    after: GraphView,
    n: int,
    apply: &F,
    result: u32,
    f: spec_fn(Operator, Seq<u32>) -> u32,
)
    requires
        before.has(n),
        before.consistent(f),
        refines(apply, f),
        after.computed(before, n, apply, result),
    ensures
        result == before.denote(n, f),
        after.consistent(f),
{
    assert forall|m: int, k: Seq<u32>|
        after.is_computable(m) && #[trigger] after.cache(m).contains_key(k) implies after.cache(
        m,
    )[k] == f(after.operator(m), k) by {
        assert(before.has(m));
        assert(after.vertex_extends(before, m));
        assert(before.is_computable(m));
        if after.cache(m) =~= before.cache(m) {
            assert(before.cache(m).contains_key(k));
        } else {
            assert(after.evaluated(before, n, m, apply));
            if k == after.key(m) {
                let args = choose|args: Vec<u32>|
                    args@ == after.key(m) && #[trigger] apply.ensures(
                        (after.operator(m), &args),
                        after.value(m),
                    );
                assert(apply.ensures((after.operator(m), &args), after.value(m)));
            } else {
                assert(before.cache(m).contains_key(k));
            }
        }
    }
    lemma_value_is_denotation(after, n, f);
    lemma_denote_extends(before, after, n, f);
}

/// A variable that was set is seen by the next evaluation: after `x` is set to
/// `v`, an evaluation of any vertex returns what its expression denotes with
/// `x` holding `v`. The operator function and the caches are as in
/// `law_memoization_is_transparent`.
pub proof fn law_mutation_is_visible<F: Fn(Operator, &Vec<u32>) -> u32>(
    start: GraphView,
    x: int,
    v: u32,
    n: int,
    after: GraphView,
    apply: &F,
    result: u32,
    f: spec_fn(Operator, Seq<u32>) -> u32,
)
    requires
        start.is_variable(x),
        start.has(n),
        start.consistent(f),
        refines(apply, f),
        after.computed(start.assign(x, v), n, apply, result),
    ensures
        start.assign(x, v).denote(x, f) == v,
        result == start.assign(x, v).denote(n, f),
        after.consistent(f),
{
    lemma_consistent_assign(start, x, v, f);
    law_memoization_is_transparent(start.assign(x, v), after, n, apply, result, f);
}

} // verus!
