use vstd::prelude::*;
use crate::operator::Operator;

verus! {

/// A vertex as a mathematical value.
#[verifier::ext_equal]
pub enum VertexView {
    /// A leaf that holds a settable scalar.
    Variable { value: u32 },
    /// An operator over earlier vertices, with what it has worked out so far:
    /// `cache` maps a tuple of input values to the operator's value for it.
    Computable { operator: Operator, inputs: Seq<int>, cache: Map<Seq<u32>, u32> },
}

/// A graph as a mathematical value: its vertices in order of creation.
#[verifier::ext_equal]
pub struct GraphView {
    pub vertices: Seq<VertexView>,
}

impl GraphView {
    /// `n` is the index of a vertex.
    pub open spec fn has(self, n: int) -> bool {
        0 <= n < self.vertices.len()
    }

    /// `n` is a variable.
    pub open spec fn is_variable(self, n: int) -> bool {
        self.has(n) && self.vertices[n] is Variable
    }

    /// `n` is a computed vertex.
    pub open spec fn is_computable(self, n: int) -> bool {
        self.has(n) && self.vertices[n] is Computable
    }

    /// The operator of the computed vertex `n`.
    pub open spec fn operator(self, n: int) -> Operator {
        self.vertices[n]->operator
    }

    /// The vertices that the computed vertex `n` reads, in order.
    pub open spec fn inputs(self, n: int) -> Seq<int> {
        self.vertices[n]->inputs
    }

    /// What the computed vertex `n` has worked out so far.
    pub open spec fn cache(self, n: int) -> Map<Seq<u32>, u32> {
        self.vertices[n]->cache
    }

    /// The computed vertex `n` has as many inputs as its operator takes, all of
    /// them created before it, and its cache is keyed by tuples of that length.
    pub open spec fn vertex_ok(self, n: int) -> bool {
        &&& self.inputs(n).len() == self.operator(n).spec_arity()
        &&& forall|j: int| 0 <= j < self.inputs(n).len() ==> 0 <= (#[trigger] self.inputs(n)[j]) < n
        &&& forall|k: Seq<u32>| #[trigger]
            self.cache(n).contains_key(k) ==> k.len() == self.inputs(n).len()
    }

    /// Every computed vertex is in order. Inputs point backwards, so the graph
    /// has no cycle.
    pub open spec fn well_formed(self) -> bool {
        forall|n: int| #[trigger] self.is_computable(n) ==> self.vertex_ok(n)
    }

    /// The tuple of values that the inputs of `n` have now.
    pub open spec fn key(self, n: int) -> Seq<u32>
        decreases n, 0int,
    {
        Seq::new(
            self.inputs(n).len(),
            |j: int|
                if 0 <= j < self.inputs(n).len() && 0 <= self.inputs(n)[j] < n {
                    self.value(self.inputs(n)[j])
                } else {
                    0u32
                },
        )
    }

    /// The value of `n`: what a variable holds, and for a computed vertex what
    /// its cache holds for the tuple of its inputs' values. It means something
    /// where `settled(n)` holds.
    pub open spec fn value(self, n: int) -> u32
        decreases n, 1int,
    {
        if !self.has(n) {
            0u32
        } else {
            match self.vertices[n] {
                VertexView::Variable { value } => value,
                VertexView::Computable { .. } => self.cache(n)[self.key(n)],
            }
        }
    }

    /// Every computed vertex at or below `n` has the tuple of its inputs'
    /// values in its cache.
    pub open spec fn settled(self, n: int) -> bool
        decreases n,
    {
        self.is_computable(n) ==> {
            &&& forall|j: int|
                0 <= j < self.inputs(n).len() && 0 <= (#[trigger] self.inputs(n)[j]) < n
                    ==> self.settled(self.inputs(n)[j])
            &&& self.cache(n).contains_key(self.key(n))
        }
    }

    /// `m` is `n` or lies below it.
    pub open spec fn reaches(self, n: int, m: int) -> bool
        decreases n,
    {
        m == n || (self.is_computable(n) && exists|j: int|
            0 <= j < self.inputs(n).len() && 0 <= (#[trigger] self.inputs(n)[j]) < n
                && self.reaches(self.inputs(n)[j], m))
    }

    /// `self` is `before` with nothing changed but cache entries added: the
    /// same vertices, variables and wiring, and every cached entry kept.
    pub open spec fn extends(self, before: GraphView) -> bool {
        &&& self.vertices.len() == before.vertices.len()
        &&& forall|n: int|
            #![trigger before.has(n)]
            #![trigger before.vertices[n]]
            #![trigger self.vertices[n]]
            before.has(n) ==> self.vertex_extends(before, n)
    }

    /// Vertex `n` is as in `before`, but that its cache may hold more.
    pub open spec fn vertex_extends(self, before: GraphView, n: int) -> bool {
        match before.vertices[n] {
            VertexView::Variable { .. } => self.vertices[n] == before.vertices[n],
            VertexView::Computable { operator, inputs, cache } => {
                &&& self.vertices[n] is Computable
                &&& self.operator(n) == operator
                &&& self.inputs(n) == inputs
                &&& cache.submap_of(self.cache(n))
            },
        }
    }

    /// Since `before`, vertex `m` was worked out once: it lies at or below `n`,
    /// the tuple of its inputs' values was new to its cache, and the cache
    /// gained that one entry, whose value the operator function gave for it.
    pub open spec fn evaluated<F: Fn(Operator, &Vec<u32>) -> u32>(
        self,
        before: GraphView,
        n: int,
        m: int,
        apply: &F,
    ) -> bool {
        &&& before.reaches(n, m)
        &&& self.settled(m)
        &&& !before.cache(m).contains_key(self.key(m))
        &&& self.cache(m) =~= before.cache(m).insert(self.key(m), self.value(m))
        &&& produced(apply, self.operator(m), self.key(m), self.value(m))
    }

    /// Every cache is as in `before`, or has gained the one entry that
    /// `evaluated` describes.
    pub open spec fn grown<F: Fn(Operator, &Vec<u32>) -> u32>(
        self,
        before: GraphView,
        n: int,
        apply: &F,
    ) -> bool {
        forall|m: int|
            #![trigger before.is_computable(m)]
            #![trigger self.cache(m)]
            before.is_computable(m) ==> self.cache(m) =~= before.cache(m) || self.evaluated(
                before,
                n,
                m,
                apply,
            )
    }

    /// What an evaluation of `n` that started in `before` and gave `result`
    /// leaves behind.
    pub open spec fn computed<F: Fn(Operator, &Vec<u32>) -> u32>(
        self,
        before: GraphView,
        n: int,
        apply: &F,
        result: u32,
    ) -> bool {
        &&& self.extends(before)
        &&& self.settled(n)
        &&& result == self.value(n)
        &&& self.grown(before, n, apply)
    }

    /// The graph with the variable `x` holding `value`.
    pub open spec fn assign(self, x: int, value: u32) -> GraphView {
        GraphView { vertices: self.vertices.update(x, VertexView::Variable { value }) }
    }

    /// The graph with `value` cached for the tuple `key` at the computed
    /// vertex `n`.
    pub open spec fn remember(self, n: int, key: Seq<u32>, value: u32) -> GraphView {
        GraphView {
            vertices: self.vertices.update(
                n,
                VertexView::Computable {
                    operator: self.operator(n),
                    inputs: self.inputs(n),
                    cache: self.cache(n).insert(key, value),
                },
            ),
        }
    }

    /// The graph with one more vertex.
    pub open spec fn with_vertex(self, vertex: VertexView) -> GraphView {
        GraphView { vertices: self.vertices.push(vertex) }
    }

    /// The tuple of the inputs' values when every operator is the function `f`.
    pub open spec fn denote_inputs(self, n: int, f: spec_fn(Operator, Seq<u32>) -> u32) -> Seq<u32>
        decreases n, 0int,
    {
        Seq::new(
            self.inputs(n).len(),
            |j: int|
                if 0 <= j < self.inputs(n).len() && 0 <= self.inputs(n)[j] < n {
                    self.denote(self.inputs(n)[j], f)
                } else {
                    0u32
                },
        )
    }

    /// The value of the expression at `n` under the variables' present values
    /// when every operator is the function `f`: no cache is read.
    pub open spec fn denote(self, n: int, f: spec_fn(Operator, Seq<u32>) -> u32) -> u32
        decreases n, 1int,
    {
        if !self.has(n) {
            0u32
        } else {
            match self.vertices[n] {
                VertexView::Variable { value } => value,
                VertexView::Computable { operator, .. } => f(operator, self.denote_inputs(n, f)),
            }
        }
    }

    /// Every cached entry holds what `f` gives for its key.
    pub open spec fn consistent(self, f: spec_fn(Operator, Seq<u32>) -> u32) -> bool {
        forall|m: int, k: Seq<u32>|
            self.is_computable(m) && #[trigger] self.cache(m).contains_key(k) ==> self.cache(m)[k]
                == f(self.operator(m), k)
    }
}

/// A computed vertex that has worked out nothing yet.
pub open spec fn fresh(operator: Operator, inputs: Seq<int>) -> VertexView {
    VertexView::Computable { operator, inputs, cache: Map::empty() }
}

/// `value` is something that the operator function can return for `operator`
/// and the tuple `key`.
pub open spec fn produced<F: Fn(Operator, &Vec<u32>) -> u32>(
    apply: &F,
    operator: Operator,
    key: Seq<u32>,
    value: u32,
) -> bool {
    exists|args: Vec<u32>| args@ == key && #[trigger] apply.ensures((operator, &args), value)
}

/// The operator function accepts every tuple of the length that the operator
/// takes.
pub open spec fn total<F: Fn(Operator, &Vec<u32>) -> u32>(apply: &F) -> bool {
    forall|operator: Operator, args: &Vec<u32>|
        args@.len() == operator.spec_arity() ==> #[trigger] apply.requires((operator, args))
}

/// The operator function returns nothing but what the function `f` gives.
pub open spec fn refines<F: Fn(Operator, &Vec<u32>) -> u32>(
    apply: &F,
    f: spec_fn(Operator, Seq<u32>) -> u32,
) -> bool {
    forall|operator: Operator, args: Vec<u32>, value: u32| #[trigger]
        apply.ensures((operator, &args), value) ==> value == f(operator, args@)
}

} // verus!
