use vstd::prelude::*;
use crate::model::GraphView;

verus! {

/// Whether a computed vertex is in order depends on that vertex alone.
pub proof fn lemma_vertex_ok_same(before: GraphView, after: GraphView, m: int)
    requires
        before.vertex_ok(m),
        after.vertices[m] == before.vertices[m],
    ensures
        after.vertex_ok(m),
{
    assert forall|k: Seq<u32>| #[trigger] after.cache(m).contains_key(k) implies k.len()
        == after.inputs(m).len() by {
        assert(before.cache(m).contains_key(k));
    }
}

/// What a vertex reaches lies at or before it.
pub proof fn lemma_reaches_below(g: GraphView, n: int, m: int)
    requires
        g.reaches(n, m),
    ensures
        m <= n,
    decreases n,
{
    if m != n {
        let j = choose|j: int|
            0 <= j < g.inputs(n).len() && 0 <= (#[trigger] g.inputs(n)[j]) < n && g.reaches(
                g.inputs(n)[j],
                m,
            );
        lemma_reaches_below(g, g.inputs(n)[j], m);
    }
}

/// Adding cache entries does not change what reaches what.
pub proof fn lemma_reaches_extends(before: GraphView, after: GraphView, n: int, m: int)
    requires
        after.extends(before),
    ensures
        before.reaches(n, m) == after.reaches(n, m),
    decreases n,
{
    if m != n && before.has(n) {
        assert(after.vertex_extends(before, n));
        if before.is_computable(n) {
            let inputs = before.inputs(n);
            assert(after.inputs(n) == inputs);
            assert forall|j: int| 0 <= j < inputs.len() && 0 <= (#[trigger] inputs[j]) < n implies
                before.reaches(inputs[j], m) == after.reaches(inputs[j], m) by {
                lemma_reaches_extends(before, after, inputs[j], m);
            }
        }
    }
}

/// Below a settled vertex every vertex is settled.
pub proof fn lemma_settled_reaches(g: GraphView, n: int, m: int)
    requires
        g.settled(n),
        g.reaches(n, m),
    ensures
        g.settled(m),
    decreases n,
{
    if m != n {
        let j = choose|j: int|
            0 <= j < g.inputs(n).len() && 0 <= (#[trigger] g.inputs(n)[j]) < n && g.reaches(
                g.inputs(n)[j],
                m,
            );
        lemma_settled_reaches(g, g.inputs(n)[j], m);
    }
}

/// A settled vertex stays settled, with the same key and value, when caches
/// gain entries.
pub proof fn lemma_stable(before: GraphView, after: GraphView, m: int)
    requires
        after.extends(before),
        before.has(m),
        before.settled(m),
    ensures
        after.settled(m),
        before.is_computable(m) ==> after.key(m) == before.key(m),
        after.value(m) == before.value(m),
    decreases m,
{
    assert(after.vertex_extends(before, m));
    if before.is_computable(m) {
        let inputs = before.inputs(m);
        assert(after.inputs(m) == inputs);
        assert forall|j: int| 0 <= j < inputs.len() && 0 <= (#[trigger] inputs[j]) < m implies
            after.settled(inputs[j]) && after.value(inputs[j]) == before.value(
            inputs[j],
        ) by {
            lemma_stable(before, after, inputs[j]);
        }
        assert(after.key(m) =~= before.key(m));
        assert(before.cache(m).submap_of(after.cache(m)));
        assert(before.cache(m).contains_key(before.key(m)));
        assert(after.cache(m).contains_key(after.key(m)));
    }
}

} // verus!
