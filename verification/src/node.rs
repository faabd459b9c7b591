use vstd::prelude::*;
use crate::cache::Cache;
use crate::laws::law_settled_evaluation_changes_nothing;
use crate::lemmas::lemma_vertex_ok_same;
use crate::model::{fresh, produced, total, GraphView, VertexView};
use crate::operator::Operator;
use crate::walk::{
    gathering, lemma_computed_variable, lemma_gather_hit, lemma_gather_miss, lemma_gather_start,
    lemma_gather_step,
};
use vstd::pervasive::unreached;

verus! {

/// What a computed vertex holds: its operator, the vertices it reads in order,
/// and the results it has worked out so far.
struct ComputationNode {
    operator: Operator,
    input: Vec<usize>,
    cache: Cache,
}

/// The two kinds of vertex.
enum NodeType {
    Computable(ComputationNode),
    Variable(u32),
}

impl View for NodeType {
    type V = VertexView;

    closed spec fn view(&self) -> VertexView {
        match self {
            NodeType::Computable(c) => VertexView::Computable {
                operator: c.operator,
                inputs: c.input@.map_values(|i: usize| i as int),
                cache: c.cache@,
            },
            NodeType::Variable(value) => VertexView::Variable { value: *value },
        }
    }
}

impl NodeType {
    /// The cache of a computed vertex is in order.
    spec fn wf(&self) -> bool {
        match self {
            NodeType::Computable(c) => c.cache.wf(),
            NodeType::Variable(_) => true,
        }
    }
}

/// An expression graph: an arena of vertices, in order of creation. A computed
/// vertex reads only vertices created before it.
pub struct Graph {
    nodes: Vec<NodeType>,
}

impl View for Graph {
    type V = GraphView;

    closed spec fn view(&self) -> GraphView {
        GraphView { vertices: self.nodes@.map_values(|node: NodeType| node@) }
    }
}

/// A reference to a vertex of a graph. It may be copied freely and used as an
/// input of any number of computed vertices.
#[derive(Clone, Copy, Debug, PartialEq, Eq, Structural)]
pub struct Node {
    index: usize,
}

impl View for Node {
    type V = int;

    /// The index of the vertex in its graph.
    closed spec fn view(&self) -> int {
        self.index as int
    }
}

/// Why a variable could not be set.
#[derive(Clone, Copy, Debug, PartialEq, Eq, Structural)]
pub enum SetError {
    /// The vertex is computed: only a variable can be set.
    InvalidMutation,
}

impl Graph {
    /// The invariant of the representation: every cache is in order.
    pub closed spec fn caches_wf(&self) -> bool {
        forall|i: int| 0 <= i < self.nodes@.len() ==> (#[trigger] self.nodes@[i]).wf()
    }

    /// The graph is in order: its model is well formed and its representation
    /// is sound.
    pub open spec fn wf(&self) -> bool {
        self@.well_formed() && self.caches_wf()
    }

    /// A graph without vertices.
    pub fn new() -> (graph: Graph)
        ensures
            graph.wf(),
            graph@.vertices.len() == 0,
    {
        Graph { nodes: Vec::new() }
    }

    /// The number of vertices.
    pub fn len(&self) -> (count: usize)
        ensures
            count == self@.vertices.len(),
    {
        self.nodes.len()
    }

    /// The number of results that the vertex `node` has cached: one for each
    /// distinct tuple of input values that an evaluation has seen there. A
    /// variable caches nothing.
    pub fn cache_len(&self, node: Node) -> (count: usize)
        requires
            self.wf(),
            self@.has(node@),
        ensures
            self@.is_variable(node@) ==> count == 0,
            self@.is_computable(node@) ==> self@.cache(node@).dom().finite() && count
                == self@.cache(node@).dom().len(),
    {
        match &self.nodes[node.index] {
            NodeType::Computable(c) => c.cache.len(),
            NodeType::Variable(_) => 0,
        }
    }

    /// The vertex that the computed vertex `n` reads as its input `j`.
    fn input(&self, n: usize, j: usize) -> (input: usize)
        requires
            self@.is_computable(n as int),
            j < self@.inputs(n as int).len(),
        ensures
            input == self@.inputs(n as int)[j as int],
    {
        match &self.nodes[n] {
            NodeType::Computable(c) => c.input[j],
            NodeType::Variable(_) => unreached(),
        }
    }

    /// What the computed vertex `n` has cached for the tuple `key`, if
    /// anything.
    fn cached(&self, n: usize, key: &Vec<u32>) -> (found: Option<u32>)
        requires
            self.caches_wf(),
            self@.is_computable(n as int),
        ensures
            found == (if self@.cache(n as int).contains_key(key@) {
                Some(self@.cache(n as int)[key@])
            } else {
                None
            }),
    {
        match &self.nodes[n] {
            NodeType::Computable(c) => c.cache.get(key),
            NodeType::Variable(_) => unreached(),
        }
    }

    /// Caches `value` for the tuple `key` at the computed vertex `n`.
    fn remember(&mut self, n: usize, key: Vec<u32>, value: u32)
        requires
            old(self).caches_wf(),
            old(self)@.is_computable(n as int),
        ensures
            final(self).caches_wf(),
            final(self)@ == old(self)@.remember(n as int, key@, value),
    {
        match &mut self.nodes[n] {
            NodeType::Computable(c) => {
                c.cache.insert(key, value);
            },
            NodeType::Variable(_) => unreached(),
        }
    }

    /// Whether `node` refers to a vertex of this graph.
    pub fn contains(&self, node: Node) -> (known: bool)
        ensures
            known == self@.has(node@),
    {
        node.index < self.nodes.len()
    }
}

impl Node {
    /// The index of the vertex in its graph.
    pub fn index(&self) -> (index: usize)
        ensures
            index == self@,
    {
        self.index
    }

    /// Adds a computed vertex with no result cached.
    fn create_computable(graph: &mut Graph, operator: Operator, input: Vec<usize>) -> (node: Node)
        requires
            old(graph).wf(),
            input@.len() == operator.spec_arity(),
            forall|j: int| 0 <= j < input@.len() ==> old(graph)@.has(#[trigger] input@[j] as int),
        ensures
            final(graph).wf(),
            node@ == old(graph)@.vertices.len(),
            final(graph)@ == old(graph)@.with_vertex(
                fresh(operator, input@.map_values(|i: usize| i as int)),
            ),
    {
        let index = graph.nodes.len();
        let ghost before = graph@;
        graph.nodes.push(NodeType::Computable(ComputationNode { operator, input, cache: Cache::new() }));
        proof {
            let after = graph@;
            assert(after.vertices =~= before.vertices.push(after.vertices[index as int]));
            assert forall|m: int| #[trigger] after.is_computable(m) implies after.vertex_ok(m) by {
                if m < index {
                    assert(before.is_computable(m));
                    lemma_vertex_ok_same(before, after, m);
                } else {
                    assert forall|k: Seq<u32>| #[trigger]
                        after.cache(m).contains_key(k) implies k.len() == after.inputs(m).len() by {
                        assert(!Map::<Seq<u32>, u32>::empty().contains_key(k));
                    }
                }
            }
        }
        Node { index }
    }

    /// The value of the vertex.
    ///
    /// A variable gives what it holds. A computed vertex first evaluates its
    /// inputs in order, then looks the tuple of their values up in its cache;
    /// only where the tuple is new does it call `apply`, with its operator and
    /// the tuple, and remember what comes back.
    ///
    /// `apply` is the arithmetic: it must accept every operator with a tuple
    /// of as many scalars as the operator takes. Afterwards every vertex at or
    /// below this one is settled, the result is the value that the caches now
    /// hold for it, and no cache has changed but by the entries that were
    /// missing. Where everything was cached already, nothing changes at all.
    pub fn compute<F>(&self, graph: &mut Graph, apply: &F) -> (result: u32) where
        F: Fn(Operator, &Vec<u32>) -> u32,

        requires
            old(graph).wf(),
            old(graph)@.has(self@),
            total(apply),
        ensures
            final(graph).wf(),
            final(graph)@.computed(old(graph)@, self@, apply, result),
            old(graph)@.settled(self@) ==> final(graph)@ == old(graph)@ && result == old(
                graph,
            )@.value(self@),
        decreases self@,
    {
        let n = self.index;
        let ghost before = graph@;
        let (operator, arity) = match &graph.nodes[n] {
            NodeType::Variable(value) => {
                proof {
                    lemma_computed_variable(before, n as int, apply);
                    law_settled_evaluation_changes_nothing(before, before, n as int, apply, *value);
                }
                return *value;
            },
            NodeType::Computable(c) => (c.operator, c.input.len()),
        };
        let mut key: Vec<u32> = Vec::new();
        let mut j: usize = 0;
        proof {
            lemma_gather_start(before, n as int, apply);
        }
        while j < arity
            invariant
                graph.wf(),
                n == self.index,
                j <= arity,
                arity == before.inputs(n as int).len(),
                key@.len() == j,
                gathering(graph@, before, n as int, apply, key@),
                total(apply),
            decreases arity - j,
        {
            let ghost cur = graph@;
            assert(before.vertex_ok(n as int));
            let input = graph.input(n, j);
            let value = Node { index: input }.compute(graph, apply);
            proof {
                lemma_gather_step(before, cur, graph@, n as int, apply, key@, value);
            }
            key.push(value);
            j += 1;
        }
        let ghost cur = graph@;
        let ghost tuple = key@;
        assert(before.vertex_ok(n as int));
        let result = match graph.cached(n, &key) {
            Some(value) => {
                proof {
                    lemma_gather_hit(before, cur, n as int, apply, tuple);
                }
                value
            },
            None => {
                let value = apply(operator, &key);
                assert(produced(apply, operator, tuple, value));
                graph.remember(n, key, value);
                proof {
                    lemma_gather_miss(before, cur, n as int, apply, tuple, value);
                }
                value
            },
        };
        proof {
            if before.settled(n as int) {
                law_settled_evaluation_changes_nothing(before, graph@, n as int, apply, result);
            }
        }
        result
    }

    /// Overwrites what a variable holds. A computed vertex is refused, and the
    /// graph stays as it was.
    pub fn set(&self, graph: &mut Graph, value: u32) -> (outcome: Result<(), SetError>)
        requires
            old(graph).wf(),
            old(graph)@.has(self@),
        ensures
            final(graph).wf(),
            match outcome {
                Ok(_) => old(graph)@.is_variable(self@) && final(graph)@ == old(graph)@.assign(
                    self@,
                    value,
                ),
                Err(e) => e == SetError::InvalidMutation && old(graph)@.is_computable(self@)
                    && final(graph)@ == old(graph)@,
            },
    {
        let n = self.index;
        let ghost before = graph@;
        match &graph.nodes[n] {
            NodeType::Computable(_) => {
                return Err(SetError::InvalidMutation);
            },
            NodeType::Variable(_) => {},
        }
        graph.nodes[n] = NodeType::Variable(value);
        proof {
            let after = graph@;
            assert(after.vertices =~= before.assign(n as int, value).vertices);
            assert forall|m: int| #[trigger] after.is_computable(m) implies after.vertex_ok(m) by {
                assert(before.is_computable(m));
                lemma_vertex_ok_same(before, after, m);
            }
        }
        Ok(())
    }
}

/// Adds a variable that holds `value`.
pub fn create_input(graph: &mut Graph, value: u32) -> (node: Node)
    requires
        old(graph).wf(),
    ensures
        final(graph).wf(),
        node@ == old(graph)@.vertices.len(),
        final(graph)@ == old(graph)@.with_vertex(VertexView::Variable { value }),
{
    let index = graph.nodes.len();
    let ghost before = graph@;
    graph.nodes.push(NodeType::Variable(value));
    proof {
        let after = graph@;
        assert(after.vertices =~= before.vertices.push(VertexView::Variable { value }));
        assert forall|m: int| #[trigger] after.is_computable(m) implies after.vertex_ok(m) by {
            assert(before.is_computable(m));
            lemma_vertex_ok_same(before, after, m);
        }
    }
    Node { index }
}

/// Adds a computed vertex that applies `operator` to `left` and `right`.
fn binary(graph: &mut Graph, operator: Operator, left: Node, right: Node) -> (node: Node)
    requires
        old(graph).wf(),
        operator.spec_arity() == 2,
        old(graph)@.has(left@),
        old(graph)@.has(right@),
    ensures
        final(graph).wf(),
        node@ == old(graph)@.vertices.len(),
        final(graph)@ == old(graph)@.with_vertex(fresh(operator, seq![left@, right@])),
{
    let mut input: Vec<usize> = Vec::new();
    input.push(left.index);
    input.push(right.index);
    assert(input@.map_values(|i: usize| i as int) =~= seq![left@, right@]);
    Node::create_computable(graph, operator, input)
}

/// Adds a computed vertex for the sum `augend + addend`: the operator `Add`
/// over the two, in this order.
pub fn add(graph: &mut Graph, augend: Node, addend: Node) -> (sum: Node)
    requires
        old(graph).wf(),
        old(graph)@.has(augend@),
        old(graph)@.has(addend@),
    ensures
        final(graph).wf(),
        sum@ == old(graph)@.vertices.len(),
        final(graph)@ == old(graph)@.with_vertex(fresh(Operator::Add, seq![augend@, addend@])),
{
    binary(graph, Operator::Add, augend, addend)
}

/// Adds a computed vertex for the difference `minuend - subtrahend`: the
/// operator `Sub` over the two, in this order.
pub fn sub(graph: &mut Graph, minuend: Node, subtrahend: Node) -> (difference: Node)
    requires
        old(graph).wf(),
        old(graph)@.has(minuend@),
        old(graph)@.has(subtrahend@),
    ensures
        final(graph).wf(),
        difference@ == old(graph)@.vertices.len(),
        final(graph)@ == old(graph)@.with_vertex(fresh(Operator::Sub, seq![minuend@, subtrahend@])),
{
    binary(graph, Operator::Sub, minuend, subtrahend)
}

/// Adds a computed vertex for the product `multiplier * multiplicand`: the
/// operator `Mul` over the two, in this order.
pub fn mul(graph: &mut Graph, multiplier: Node, multiplicand: Node) -> (product: Node)
    requires
        old(graph).wf(),
        old(graph)@.has(multiplier@),
        old(graph)@.has(multiplicand@),
    ensures
        final(graph).wf(),
        product@ == old(graph)@.vertices.len(),
        final(graph)@ == old(graph)@.with_vertex(fresh(Operator::Mul, seq![multiplier@, multiplicand@])),
{
    binary(graph, Operator::Mul, multiplier, multiplicand)
}

/// Adds a computed vertex for the quotient `dividend / divisor`: the operator
/// `Div` over the two, in this order. A divisor of zero is no error here: the
/// operator function answers with an infinity or a NaN, which is cached and
/// handed on like any other value.
pub fn div(graph: &mut Graph, dividend: Node, divisor: Node) -> (quotient: Node)
    requires
        old(graph).wf(),
        old(graph)@.has(dividend@),
        old(graph)@.has(divisor@),
    ensures
        final(graph).wf(),
        quotient@ == old(graph)@.vertices.len(),
        final(graph)@ == old(graph)@.with_vertex(fresh(Operator::Div, seq![dividend@, divisor@])),
{
    binary(graph, Operator::Div, dividend, divisor)
}

/// Adds a computed vertex for the sine of `angle`, in radians: the operator
/// `Sin` over it.
pub fn sin(graph: &mut Graph, angle: Node) -> (sine: Node)
    requires
        old(graph).wf(),
        old(graph)@.has(angle@),
    ensures
        final(graph).wf(),
        sine@ == old(graph)@.vertices.len(),
        final(graph)@ == old(graph)@.with_vertex(fresh(Operator::Sin, seq![angle@])),
{
    let mut input: Vec<usize> = Vec::new();
    input.push(angle.index);
    assert(input@.map_values(|i: usize| i as int) =~= seq![angle@]);
    Node::create_computable(graph, Operator::Sin, input)
}

/// Adds a computed vertex for `base` raised to the power `exponent`: the
/// operator `Pow` over the two, in this order.
pub fn pow_f32(graph: &mut Graph, base: Node, exponent: Node) -> (power: Node)
    requires
        old(graph).wf(),
        old(graph)@.has(base@),
        old(graph)@.has(exponent@),
    ensures
        final(graph).wf(),
        power@ == old(graph)@.vertices.len(),
        final(graph)@ == old(graph)@.with_vertex(fresh(Operator::Pow, seq![base@, exponent@])),
{
    binary(graph, Operator::Pow, base, exponent)
}

} // verus!
