//! A directed-graph workflow engine.
//!
//! A [`Graph`] registers named nodes (each carrying a transform of type `N`),
//! unconditional edges and conditional edges (each carrying a predicate of type
//! `C` and a table from labels to targets). [`Graph::compile`] checks that every
//! reference names a registered node or a sentinel and freezes the graph into a
//! [`CompiledGraph`].
//!
//! A compiled graph is run by a driver that owns the state value: the graph
//! tells the driver what to do next ([`Step`]), the driver does it (invokes a
//! transform, evaluates a predicate) and reports back. Every decision of a run
//! (where it starts, which transition is taken, when it ends or fails) is made
//! here; the driver only performs the work.
//!
//! Two choices are deliberate. A label that a predicate yields and its table
//! does not hold is no error: resolution falls through to the next
//! conditional edge out of the node, then to the unconditional edges, and
//! where none is left the run ends successfully with the current state. And
//! cycles are allowed with no cap on the number of steps: a run that must end
//! carries what bounds it (an iteration count, say) in its state, for a
//! predicate to inspect.

use vstd::prelude::*;

verus! {

/// The sentinel that edges leave from to mark where a run begins.
pub const START: &'static str = "__start__";

/// The sentinel that edges lead to to mark where a run ends.
pub const END: &'static str = "__end__";

// ---------------------------------------------------------------------------
// Mathematical model
// ---------------------------------------------------------------------------

/// A label-to-target table, in the order its labels were first given.
pub type LabelTable = Seq<(Seq<char>, Seq<char>)>;

/// The model of a conditional edge.
pub struct ConditionalModel<C> {
    pub from: Seq<char>,
    pub condition: C,
    pub mapping: LabelTable,
}

/// The model of a graph: its nodes in registration order, its edges and
/// conditional edges in declaration order, and its recorded entry point.
pub struct GraphModel<N, C> {
    pub nodes: Seq<(Seq<char>, N)>,
    pub edges: Seq<(Seq<char>, Seq<char>)>,
    pub conditionals: Seq<ConditionalModel<C>>,
    pub entry_point: Option<Seq<char>>,
}

impl<N, C> GraphModel<N, C> {
    /// The names of the registered nodes.
    pub open spec fn names(self) -> Seq<Seq<char>> {
        self.nodes.map_values(|p: (Seq<char>, N)| p.0)
    }

    pub open spec fn has_node(self, name: Seq<char>) -> bool {
        self.names().contains(name)
    }

    /// Node names are unique, and so are the labels of each table.
    pub open spec fn wf(self) -> bool {
        &&& self.names().no_duplicates()
        &&& forall|i: int| 0 <= i < self.conditionals.len() ==> labels_unique(#[trigger] self.conditionals[i].mapping)
    }
}

pub open spec fn labels_unique(t: LabelTable) -> bool {
    forall|i: int, j: int| 0 <= i < t.len() && 0 <= j < t.len() && i != j ==> (#[trigger] t[i]).0 != (#[trigger] t[j]).0
}

/// The position of `label` in `t`, if it is there (the last one, should it occur twice).
pub open spec fn label_index(t: LabelTable, label: Seq<char>) -> Option<int>
    decreases t.len(),
{
    if t.len() == 0 {
        None
    } else if t.last().0 == label {
        Some(t.len() - 1)
    } else {
        label_index(t.drop_last(), label)
    }
}

/// The target that `t` maps `label` to.
pub open spec fn lookup(t: LabelTable, label: Seq<char>) -> Option<Seq<char>> {
    match label_index(t, label) {
        Some(i) => Some(t[i].1),
        None => None,
    }
}

/// `t` with `label` mapped to `target`: an existing entry is overwritten in
/// place, a new label is appended.
pub open spec fn put(t: LabelTable, label: Seq<char>, target: Seq<char>) -> LabelTable {
    match label_index(t, label) {
        Some(i) => t.update(i, (label, target)),
        None => t.push((label, target)),
    }
}

/// The table built from `pairs` by putting them in order: where a label is
/// given twice, the later target wins.
pub open spec fn table_of(pairs: LabelTable) -> LabelTable
    decreases pairs.len(),
{
    if pairs.len() == 0 {
        Seq::empty()
    } else {
        put(table_of(pairs.drop_last()), pairs.last().0, pairs.last().1)
    }
}


// ---------------------------------------------------------------------------
// Validation
// ---------------------------------------------------------------------------

/// `name` may stand at either end of an edge or as the target of a label: a
/// sentinel or a registered node.
pub open spec fn endpoint_ok<N, C>(g: GraphModel<N, C>, name: Seq<char>) -> bool {
    name == START@ || name == END@ || g.has_node(name)
}

/// The first bad endpoint of an edge: its source, then its target.
pub open spec fn edge_fault<N, C>(g: GraphModel<N, C>, e: (Seq<char>, Seq<char>)) -> Option<Seq<char>> {
    if !endpoint_ok(g, e.0) {
        Some(e.0)
    } else if !endpoint_ok(g, e.1) {
        Some(e.1)
    } else {
        None
    }
}

/// The first bad endpoint among `es`, in order.
pub open spec fn edges_fault<N, C>(g: GraphModel<N, C>, es: Seq<(Seq<char>, Seq<char>)>) -> Option<Seq<char>>
    decreases es.len(),
{
    if es.len() == 0 {
        None
    } else {
        match edges_fault(g, es.drop_last()) {
            Some(x) => Some(x),
            None => edge_fault(g, es.last()),
        }
    }
}

/// The first bad target of a label table, in order.
pub open spec fn table_fault<N, C>(g: GraphModel<N, C>, t: LabelTable) -> Option<Seq<char>>
    decreases t.len(),
{
    if t.len() == 0 {
        None
    } else {
        match table_fault(g, t.drop_last()) {
            Some(x) => Some(x),
            None => if endpoint_ok(g, t.last().1) {
                None
            } else {
                Some(t.last().1)
            },
        }
    }
}

/// The first bad reference of a conditional edge: its source, then its targets.
pub open spec fn conditional_fault<N, C>(g: GraphModel<N, C>, c: ConditionalModel<C>) -> Option<Seq<char>> {
    if !g.has_node(c.from) {
        Some(c.from)
    } else {
        table_fault(g, c.mapping)
    }
}

/// The first bad reference among `cs`, in order.
pub open spec fn conditionals_fault<N, C>(g: GraphModel<N, C>, cs: Seq<ConditionalModel<C>>) -> Option<Seq<char>>
    decreases cs.len(),
{
    if cs.len() == 0 {
        None
    } else {
        match conditionals_fault(g, cs.drop_last()) {
            Some(x) => Some(x),
            None => conditional_fault(g, cs.last()),
        }
    }
}

/// The reference that validation reports: the first bad one among the
/// edges, else the first among the conditional edges.
pub open spec fn validation_fault<N, C>(g: GraphModel<N, C>) -> Option<Seq<char>> {
    match edges_fault(g, g.edges) {
        Some(x) => Some(x),
        None => conditionals_fault(g, g.conditionals),
    }
}

/// Every edge endpoint and label target names a sentinel or a registered
/// node, and every conditional-edge source names a registered node.
pub open spec fn references_valid<N, C>(g: GraphModel<N, C>) -> bool {
    &&& forall|i: int| 0 <= i < g.edges.len() ==> endpoint_ok(g, (#[trigger] g.edges[i]).0) && endpoint_ok(g, g.edges[i].1)
    &&& forall|i: int| 0 <= i < g.conditionals.len() ==> g.has_node((#[trigger] g.conditionals[i]).from)
    &&& forall|i: int, j: int|
        0 <= i < g.conditionals.len() && 0 <= j < g.conditionals[i].mapping.len() ==> endpoint_ok(
            g,
            (#[trigger] g.conditionals[i].mapping[j]).1,
        )
}

/// `name` is a dangling reference of `g`: it stands at an edge endpoint or as
/// a label target and is neither a sentinel nor registered, or it stands as a
/// conditional-edge source and is not registered.
pub open spec fn dangling<N, C>(g: GraphModel<N, C>, name: Seq<char>) -> bool {
    ||| exists|i: int| 0 <= i < g.edges.len() && (#[trigger] g.edges[i]).0 == name && !endpoint_ok(g, name)
    ||| exists|i: int| 0 <= i < g.edges.len() && (#[trigger] g.edges[i]).1 == name && !endpoint_ok(g, name)
    ||| exists|i: int| 0 <= i < g.conditionals.len() && (#[trigger] g.conditionals[i]).from == name && !g.has_node(name)
    ||| exists|i: int, j: int|
        0 <= i < g.conditionals.len() && 0 <= j < g.conditionals[i].mapping.len() && (
        #[trigger] g.conditionals[i].mapping[j]).1 == name && !endpoint_ok(g, name)
}


// ---------------------------------------------------------------------------
// Runs
// ---------------------------------------------------------------------------

/// The model of a [`Step`].
pub enum StepModel {
    Run(Seq<char>),
    Evaluate(Seq<char>, int),
    Finish,
}

/// The model of a [`GraphError`].
pub enum FaultModel {
    NodeNotFound(Seq<char>),
    ExecutionError(Seq<char>),
    NoEntryPoint,
}

/// The target of the first edge out of `node`, in declaration order.
pub open spec fn first_target(es: Seq<(Seq<char>, Seq<char>)>, node: Seq<char>) -> Option<Seq<char>>
    decreases es.len(),
{
    if es.len() == 0 {
        None
    } else {
        match first_target(es.drop_last(), node) {
            Some(t) => Some(t),
            None => if es.last().0 == node {
                Some(es.last().1)
            } else {
                None
            },
        }
    }
}

/// Where a run from the entry point begins: the target of the first edge out
/// of [`START`], else the recorded entry point.
pub open spec fn entry<N, C>(g: GraphModel<N, C>) -> Option<Seq<char>> {
    match first_target(g.edges, START@) {
        Some(t) => Some(t),
        None => g.entry_point,
    }
}

/// Running `name` next: possible only if a node is registered under it.
pub open spec fn run_step<N, C>(g: GraphModel<N, C>, name: Seq<char>) -> Result<StepModel, FaultModel> {
    if g.has_node(name) {
        Ok(StepModel::Run(name))
    } else {
        Err(FaultModel::NodeNotFound(name))
    }
}

/// Moving to `target`: [`END`] finishes the run, any other name is run next.
pub open spec fn enter<N, C>(g: GraphModel<N, C>, target: Seq<char>) -> Result<StepModel, FaultModel> {
    if target == END@ {
        Ok(StepModel::Finish)
    } else {
        run_step(g, target)
    }
}

/// The unconditional transition out of `node`: the first edge out of it, and
/// where there is none, the end of the run.
pub open spec fn fallback<N, C>(g: GraphModel<N, C>, node: Seq<char>) -> Result<StepModel, FaultModel> {
    match first_target(g.edges, node) {
        Some(t) => enter(g, t),
        None => Ok(StepModel::Finish),
    }
}

/// The first conditional edge out of `node` at position `i` or later.
pub open spec fn next_conditional<N, C>(g: GraphModel<N, C>, node: Seq<char>, i: int) -> Option<int>
    decreases g.conditionals.len() - i,
{
    if i < 0 || i >= g.conditionals.len() {
        None
    } else if g.conditionals[i].from == node {
        Some(i)
    } else {
        next_conditional(g, node, i + 1)
    }
}

/// The step that follows once the conditional edges out of `node` before
/// position `i` have been consulted without a match: the next such edge is
/// evaluated, and when none is left the unconditional transition is taken.
pub open spec fn scan<N, C>(g: GraphModel<N, C>, node: Seq<char>, i: int) -> Result<StepModel, FaultModel> {
    match next_conditional(g, node, i) {
        Some(j) => Ok(StepModel::Evaluate(node, j)),
        None => fallback(g, node),
    }
}

/// The step after the predicate of conditional edge `edge` out of `node`
/// has yielded `label`.
pub open spec fn after_label<N, C>(g: GraphModel<N, C>, node: Seq<char>, edge: int, label: Seq<char>) -> Result<
    StepModel,
    FaultModel,
> {
    match lookup(g.conditionals[edge].mapping, label) {
        Some(t) => enter(g, t),
        None => scan(g, node, edge + 1),
    }
}


/// The target given by the first conditional edge out of `node`, at position
/// `i` or later, whose table has the label that its predicate yields
/// (`label(k)` for the edge at position `k`).
pub open spec fn conditional_route<N, C>(g: GraphModel<N, C>, node: Seq<char>, label: spec_fn(int) -> Seq<char>, i: int) -> Option<
    Seq<char>,
>
    decreases g.conditionals.len() - i,
{
    if i < 0 || i >= g.conditionals.len() {
        None
    } else if g.conditionals[i].from == node && lookup(g.conditionals[i].mapping, label(i)) is Some {
        lookup(g.conditionals[i].mapping, label(i))
    } else {
        conditional_route(g, node, label, i + 1)
    }
}

/// The node that follows `node`: conditional edges take priority over
/// unconditional ones; among conditional edges the first declared whose table
/// has its label wins; among unconditional edges the first declared wins;
/// `None` where there is no transition at all.
pub open spec fn resolve<N, C>(g: GraphModel<N, C>, node: Seq<char>, label: spec_fn(int) -> Seq<char>) -> Option<Seq<char>> {
    match conditional_route(g, node, label, 0) {
        Some(t) => Some(t),
        None => first_target(g.edges, node),
    }
}

/// Where a driver ends up from step `r` when it answers every request to
/// evaluate conditional edge `k` with `label(k)`, reporting back at most
/// `fuel` times.
pub open spec fn follow<N, C>(
    g: GraphModel<N, C>,
    label: spec_fn(int) -> Seq<char>,
    r: Result<StepModel, FaultModel>,
    fuel: nat,
) -> Result<StepModel, FaultModel>
    decreases fuel,
{
    match r {
        Ok(StepModel::Evaluate(n, k)) => if fuel == 0 || k < 0 || k >= g.conditionals.len() {
            r
        } else {
            follow(g, label, after_label(g, n, k, label(k)), (fuel - 1) as nat)
        },
        _ => r,
    }
}

/// A step that is no failure, or else the failure of moving into [`START`],
/// which edges may lead to but no run can execute.
pub open spec fn only_start_fails(r: Result<StepModel, FaultModel>) -> bool {
    r is Ok || r == Err::<StepModel, FaultModel>(FaultModel::NodeNotFound(START@))
}

/// `g2` is `g1` begun elsewhere: the same nodes and conditional edges, and
/// the same first edge out of every name other than [`START`].
pub open spec fn differs_only_at_start<N, C>(g1: GraphModel<N, C>, g2: GraphModel<N, C>) -> bool {
    &&& g1.nodes == g2.nodes
    &&& g1.conditionals == g2.conditionals
    &&& forall|n: Seq<char>| n != START@ ==> #[trigger] first_target(g1.edges, n) == first_target(g2.edges, n)
}

pub open spec fn error_model(e: GraphError) -> FaultModel {
    match e {
        GraphError::NodeNotFound(n) => FaultModel::NodeNotFound(n@),
        GraphError::ExecutionError(m) => FaultModel::ExecutionError(m@),
        GraphError::NoEntryPoint => FaultModel::NoEntryPoint,
    }
}

pub open spec fn step_model(r: Result<Step, GraphError>) -> Result<StepModel, FaultModel> {
    match r {
        Ok(Step::Run(n)) => Ok(StepModel::Run(n@)),
        Ok(Step::Evaluate { node, edge }) => Ok(StepModel::Evaluate(node@, edge as int)),
        Ok(Step::Finish) => Ok(StepModel::Finish),
        Err(e) => Err(error_model(e)),
    }
}


// ---------------------------------------------------------------------------
// Diagram text
// ---------------------------------------------------------------------------

pub open spec fn node_line(name: Seq<char>) -> Seq<char> {
    "    "@ + name + "["@ + name + "]\n"@
}

pub open spec fn edge_line(e: (Seq<char>, Seq<char>)) -> Seq<char> {
    "    "@ + e.0 + " --> "@ + e.1 + "\n"@
}

pub open spec fn label_line(from: Seq<char>, p: (Seq<char>, Seq<char>)) -> Seq<char> {
    "    "@ + from + " -->|"@ + p.0 + "| "@ + p.1 + "\n"@
}

pub open spec fn node_lines(names: Seq<Seq<char>>) -> Seq<char>
    decreases names.len(),
{
    if names.len() == 0 {
        Seq::empty()
    } else {
        node_lines(names.drop_last()) + node_line(names.last())
    }
}

pub open spec fn edge_lines(es: Seq<(Seq<char>, Seq<char>)>) -> Seq<char>
    decreases es.len(),
{
    if es.len() == 0 {
        Seq::empty()
    } else {
        edge_lines(es.drop_last()) + edge_line(es.last())
    }
}

pub open spec fn label_lines(from: Seq<char>, t: LabelTable) -> Seq<char>
    decreases t.len(),
{
    if t.len() == 0 {
        Seq::empty()
    } else {
        label_lines(from, t.drop_last()) + label_line(from, t.last())
    }
}

pub open spec fn conditional_lines<C>(cs: Seq<ConditionalModel<C>>) -> Seq<char>
    decreases cs.len(),
{
    if cs.len() == 0 {
        Seq::empty()
    } else {
        conditional_lines(cs.drop_last()) + label_lines(cs.last().from, cs.last().mapping)
    }
}

pub open spec fn diagram_head() -> Seq<char> {
    "flowchart TD\n"@ + "    __start__([START])\n"@ + "    __end__([END])\n"@
}

pub open spec fn diagram_tail() -> Seq<char> {
    "    classDef startEnd fill:#e1f5fe,stroke:#01579b,stroke-width:2px\n"@ + "    class __start__,__end__ startEnd\n"@
}

/// The Mermaid flowchart of a graph: the two sentinels, a line per node in
/// registration order, a line per edge and a labelled line per table entry of
/// each conditional edge, in declaration order, and the sentinels' styling.
pub open spec fn mermaid<N, C>(g: GraphModel<N, C>) -> Seq<char> {
    diagram_head() + node_lines(g.names()) + edge_lines(g.edges) + conditional_lines(g.conditionals) + diagram_tail()
}

// ---------------------------------------------------------------------------
// Executable types
// ---------------------------------------------------------------------------

/// An unconditional transition from `from` (a node or [`START`]) to `to`
/// (a node or [`END`]).
#[derive(Clone, Debug)]
pub struct Edge {
    pub from: String,
    pub to: String,
}

/// A predicate-gated, multi-way transition out of `from`: after `from` has
/// run, `condition` yields a label, and `mapping` gives the target of each label.
#[verifier::reject_recursive_types(C)]
pub struct ConditionalEdge<C> {
    pub from: String,
    pub condition: C,
    pub mapping: Vec<(String, String)>,
}

/// The failures of validation and execution.
#[derive(Clone, Debug, PartialEq, Eq)]
pub enum GraphError {
    /// A reference to a name that is neither registered nor a sentinel.
    NodeNotFound(String),
    /// A transform failed; the text describes the failure.
    ExecutionError(String),
    /// A run was asked to start from the entry point, and there is none.
    NoEntryPoint,
}

/// What the driver of a run is to do next.
#[derive(Clone, Debug, PartialEq, Eq)]
pub enum Step {
    /// Invoke the transform registered under this name on the current state,
    /// then report with [`CompiledGraph::after_run`].
    Run(String),
    /// Evaluate the predicate of conditional edge `edge`, whose source is
    /// `node`, on the current state, then report the label with
    /// [`CompiledGraph::after_evaluate`].
    Evaluate { node: String, edge: usize },
    /// The run is over: the current state is its result.
    Finish,
}

/// A graph under construction.
#[verifier::reject_recursive_types(N)]
#[verifier::reject_recursive_types(C)]
pub struct Graph<N, C> {
    nodes: Vec<(String, N)>,
    edges: Vec<Edge>,
    conditional_edges: Vec<ConditionalEdge<C>>,
    entry_point: Option<String>,
}


/// A validated, frozen graph: its node names are unique and every reference
/// in it names a registered node or a sentinel. It has no mutating
/// operation: runs only read it, so any number of runs, each with a state of
/// its own, may use it at once.
#[verifier::reject_recursive_types(N)]
#[verifier::reject_recursive_types(C)]
pub struct CompiledGraph<N, C> {
    nodes: Vec<(String, N)>,
    edges: Vec<Edge>,
    conditional_edges: Vec<ConditionalEdge<C>>,
    entry_point: Option<String>,
}

impl<N, C> CompiledGraph<N, C> {
    #[verifier::type_invariant]
    spec fn frozen_wf(self) -> bool {
        self@.wf() && references_valid(self@)
    }
}

impl<N, C> View for CompiledGraph<N, C> {
    type V = GraphModel<N, C>;

    closed spec fn view(&self) -> GraphModel<N, C> {
        GraphModel {
            nodes: self.nodes@.map_values(|p: (String, N)| (p.0@, p.1)),
            edges: edges_model(self.edges@),
            conditionals: self.conditional_edges@.map_values(|e: ConditionalEdge<C>| conditional_model(e)),
            entry_point: option_model(self.entry_point),
        }
    }
}

pub open spec fn table_model(t: Seq<(String, String)>) -> LabelTable {
    t.map_values(|p: (String, String)| (p.0@, p.1@))
}

pub open spec fn conditional_model<C>(e: ConditionalEdge<C>) -> ConditionalModel<C> {
    ConditionalModel { from: e.from@, condition: e.condition, mapping: table_model(e.mapping@) }
}

pub open spec fn edges_model(edges: Seq<Edge>) -> Seq<(Seq<char>, Seq<char>)> {
    edges.map_values(|e: Edge| (e.from@, e.to@))
}

pub open spec fn option_model(o: Option<String>) -> Option<Seq<char>> {
    match o {
        Some(s) => Some(s@),
        None => None,
    }
}

impl<N, C> Graph<N, C> {
    #[verifier::type_invariant]
    spec fn builder_wf(self) -> bool {
        self@.wf()
    }
}

impl<N, C> View for Graph<N, C> {
    type V = GraphModel<N, C>;

    closed spec fn view(&self) -> GraphModel<N, C> {
        GraphModel {
            nodes: self.nodes@.map_values(|p: (String, N)| (p.0@, p.1)),
            edges: edges_model(self.edges@),
            conditionals: self.conditional_edges@.map_values(|e: ConditionalEdge<C>| conditional_model(e)),
            entry_point: option_model(self.entry_point),
        }
    }
}

fn text_of(s: &str) -> (r: String)
    ensures
        r@ == s@,
{
    s.to_owned()
}

/// Appends `s` to `out`.
fn push_text(out: &mut String, s: &str)
    ensures
        final(out)@ == old(out)@ + s@,
{
    out.append(s);
}

fn draw<N, C>(nodes: &Vec<(String, N)>, edges: &Vec<Edge>, conds: &Vec<ConditionalEdge<C>>) -> (r: String)
    ensures
        r@ == mermaid(
            GraphModel {
                nodes: nodes@.map_values(|p: (String, N)| (p.0@, p.1)),
                edges: edges_model(edges@),
                conditionals: conds@.map_values(|e: ConditionalEdge<C>| conditional_model(e)),
                entry_point: None,
            },
        ),
{
    let ghost g = GraphModel {
        nodes: nodes@.map_values(|p: (String, N)| (p.0@, p.1)),
        edges: edges_model(edges@),
        conditionals: conds@.map_values(|e: ConditionalEdge<C>| conditional_model(e)),
        entry_point: None,
    };
    let ghost names = g.names();
    let mut out = text_of("flowchart TD\n");
    push_text(&mut out, "    __start__([START])\n");
    push_text(&mut out, "    __end__([END])\n");
    let mut i: usize = 0;
    while i < nodes.len()
        invariant
            i <= nodes@.len(),
            names == g.names(),
            names.len() == nodes@.len(),
            forall|k: int| 0 <= k < nodes@.len() ==> #[trigger] names[k] == nodes@[k].0@,
            out@ == diagram_head() + node_lines(names.take(i as int)),
        decreases nodes@.len() - i,
    {
        let name = &nodes[i].0;
        let ghost before = out@;
        push_text(&mut out, "    ");
        push_text(&mut out, name.as_str());
        push_text(&mut out, "[");
        push_text(&mut out, name.as_str());
        push_text(&mut out, "]\n");
        proof {
            assert(names.take(i as int + 1).drop_last() =~= names.take(i as int));
            assert(names.take(i as int + 1).last() == name@);
            assert(out@ =~= before + node_line(name@));
        }
        i = i + 1;
    }
    assert(names.take(i as int) =~= names);
    let ghost es = g.edges;
    let mut j: usize = 0;
    while j < edges.len()
        invariant
            j <= edges@.len(),
            es == edges_model(edges@),
            out@ == diagram_head() + node_lines(names) + edge_lines(es.take(j as int)),
        decreases edges@.len() - j,
    {
        let e = &edges[j];
        let ghost before = out@;
        push_text(&mut out, "    ");
        push_text(&mut out, e.from.as_str());
        push_text(&mut out, " --> ");
        push_text(&mut out, e.to.as_str());
        push_text(&mut out, "\n");
        proof {
            assert(es.take(j as int + 1).drop_last() =~= es.take(j as int));
            assert(es.take(j as int + 1).last() == (e.from@, e.to@));
            assert(out@ =~= before + edge_line((e.from@, e.to@)));
        }
        j = j + 1;
    }
    assert(es.take(j as int) =~= es);
    let ghost cs = g.conditionals;
    let mut k: usize = 0;
    while k < conds.len()
        invariant
            k <= conds@.len(),
            cs == conds@.map_values(|e: ConditionalEdge<C>| conditional_model(e)),
            out@ == diagram_head() + node_lines(names) + edge_lines(es) + conditional_lines(cs.take(k as int)),
        decreases conds@.len() - k,
    {
        let c = &conds[k];
        let ghost cm = cs[k as int];
        let ghost start = out@;
        let mut m: usize = 0;
        while m < c.mapping.len()
            invariant
                m <= c.mapping@.len(),
                cm.from == c.from@,
                cm.mapping == table_model(c.mapping@),
                out@ == start + label_lines(cm.from, cm.mapping.take(m as int)),
            decreases c.mapping@.len() - m,
        {
            let pair = &c.mapping[m];
            let ghost before = out@;
            push_text(&mut out, "    ");
            push_text(&mut out, c.from.as_str());
            push_text(&mut out, " -->|");
            push_text(&mut out, pair.0.as_str());
            push_text(&mut out, "| ");
            push_text(&mut out, pair.1.as_str());
            push_text(&mut out, "\n");
            proof {
                let t = cm.mapping;
                assert(t.take(m as int + 1).drop_last() =~= t.take(m as int));
                assert(t.take(m as int + 1).last() == (pair.0@, pair.1@));
                assert(out@ =~= before + label_line(cm.from, (pair.0@, pair.1@)));
                assert(label_lines(cm.from, t.take(m as int + 1)) == label_lines(cm.from, t.take(m as int))
                    + label_line(cm.from, (pair.0@, pair.1@)));
                assert(out@ =~= start + label_lines(cm.from, t.take(m as int + 1)));
            }
            m = m + 1;
        }
        proof {
            assert(cm.mapping.take(m as int) =~= cm.mapping);
            assert(cs.take(k as int + 1).drop_last() =~= cs.take(k as int));
            assert(cs.take(k as int + 1).last() == cm);
            assert(out@ =~= diagram_head() + node_lines(names) + edge_lines(es) + conditional_lines(cs.take(k as int + 1)));
        }
        k = k + 1;
    }
    assert(cs.take(k as int) =~= cs);
    let ghost body = out@;
    push_text(&mut out, "    classDef startEnd fill:#e1f5fe,stroke:#01579b,stroke-width:2px\n");
    push_text(&mut out, "    class __start__,__end__ startEnd\n");
    assert(out@ =~= body + diagram_tail());
    out
}

impl<N, C> Default for Graph<N, C> {
    fn default() -> (r: Self)
        ensures
            r@.nodes.len() == 0,
            r@.edges.len() == 0,
            r@.conditionals.len() == 0,
            r@.entry_point is None,
    {
        Self::new()
    }
}

impl GraphError {
    /// A one-line description of the error.
    pub fn to_string(&self) -> (r: String)
        ensures
            r@ == match self {
                GraphError::NodeNotFound(n) => "Node not found: "@ + n@,
                GraphError::ExecutionError(m) => "Execution error: "@ + m@,
                GraphError::NoEntryPoint => "No entry point set. Use set_entry_point() or execute_with_start()"@,
            },
    {
        match self {
            GraphError::NodeNotFound(n) => {
                let mut r = text_of("Node not found: ");
                push_text(&mut r, n.as_str());
                r
            },
            GraphError::ExecutionError(m) => {
                let mut r = text_of("Execution error: ");
                push_text(&mut r, m.as_str());
                r
            },
            GraphError::NoEntryPoint => text_of("No entry point set. Use set_entry_point() or execute_with_start()"),
        }
    }
}

impl<N, C> Graph<N, C> {
    /// An empty graph.
    pub fn new() -> (r: Self)
        ensures
            r@.nodes.len() == 0,
            r@.edges.len() == 0,
            r@.conditionals.len() == 0,
            r@.entry_point is None,
    {
        let r = Graph { nodes: Vec::new(), edges: Vec::new(), conditional_edges: Vec::new(), entry_point: None };
        assert(r@.names() =~= Seq::empty());
        r
    }

    /// The position of the node registered under `name`.
    fn node_index(&self, name: &String) -> (r: Option<usize>)
        ensures
            match r {
                Some(i) => i < self@.nodes.len() && self@.nodes[i as int].0 == name@,
                None => !self@.has_node(name@),
            },
    {
        let mut i: usize = 0;
        while i < self.nodes.len()
            invariant
                i <= self.nodes@.len(),
                forall|j: int| 0 <= j < i ==> self@.nodes[j].0 != name@,
            decreases self.nodes@.len() - i,
        {
            if self.nodes[i].0 == *name {
                return Some(i);
            }
            i = i + 1;
        }
        None
    }

    /// Whether a node is registered under `name`.
    fn has_node(&self, name: &String) -> (r: bool)
        ensures
            r == self@.has_node(name@),
    {
        match self.node_index(name) {
            Some(i) => {
                assert(self@.names()[i as int] == name@);
                true
            },
            None => false,
        }
    }

    /// Checks every reference: the edges in order (source, then target), then
    /// the conditional edges in order (source, then each target).
    fn validate(&self) -> (r: Result<(), GraphError>)
        ensures
            match validation_fault(self@) {
                None => r is Ok,
                Some(x) => r matches Err(GraphError::NodeNotFound(n)) && n@ == x,
            },
    {
        let start = text_of(START);
        let end = text_of(END);
        let ghost g = self@;
        let mut i: usize = 0;
        while i < self.edges.len()
            invariant
                i <= self.edges@.len(),
                g == self@,
                start@ == START@,
                end@ == END@,
                edges_fault(g, g.edges.take(i as int)) is None,
            decreases self.edges@.len() - i,
        {
            let e = &self.edges[i];
            proof {
                assert(g.edges.take(i as int + 1).drop_last() =~= g.edges.take(i as int));
                assert(g.edges.take(i as int + 1).last() == (e.from@, e.to@));
            }
            if !(e.from == start) && !(e.from == end) && !self.has_node(&e.from) {
                proof {
                    lemma_edges_fault_prefix(g, g.edges, i as int + 1);
                }
                return Err(GraphError::NodeNotFound(e.from.clone()));
            }
            if !(e.to == start) && !(e.to == end) && !self.has_node(&e.to) {
                proof {
                    lemma_edges_fault_prefix(g, g.edges, i as int + 1);
                }
                return Err(GraphError::NodeNotFound(e.to.clone()));
            }
            i = i + 1;
        }
        assert(g.edges.take(i as int) =~= g.edges);
        let mut k: usize = 0;
        while k < self.conditional_edges.len()
            invariant
                k <= self.conditional_edges@.len(),
                g == self@,
                start@ == START@,
                end@ == END@,
                edges_fault(g, g.edges) is None,
                conditionals_fault(g, g.conditionals.take(k as int)) is None,
            decreases self.conditional_edges@.len() - k,
        {
            let c = &self.conditional_edges[k];
            let ghost cm = g.conditionals[k as int];
            proof {
                assert(g.conditionals.take(k as int + 1).drop_last() =~= g.conditionals.take(k as int));
                assert(g.conditionals.take(k as int + 1).last() == cm);
            }
            if !self.has_node(&c.from) {
                proof {
                    lemma_conditionals_fault_prefix(g, g.conditionals, k as int + 1);
                }
                return Err(GraphError::NodeNotFound(c.from.clone()));
            }
            let mut j: usize = 0;
            while j < c.mapping.len()
                invariant
                    j <= c.mapping@.len(),
                    g == self@,
                    start@ == START@,
                    end@ == END@,
                    k < g.conditionals.len(),
                    cm == g.conditionals[k as int],
                    cm.mapping == table_model(c.mapping@),
                    g.has_node(cm.from),
                    edges_fault(g, g.edges) is None,
                    conditionals_fault(g, g.conditionals.take(k as int)) is None,
                    g.conditionals.take(k as int + 1).drop_last() == g.conditionals.take(k as int),
                    g.conditionals.take(k as int + 1).last() == cm,
                    table_fault(g, cm.mapping.take(j as int)) is None,
                decreases c.mapping@.len() - j,
            {
                let target = &c.mapping[j].1;
                proof {
                    assert(cm.mapping.take(j as int + 1).drop_last() =~= cm.mapping.take(j as int));
                    assert(cm.mapping.take(j as int + 1).last().1 == target@);
                }
                if !(*target == start) && !(*target == end) && !self.has_node(target) {
                    proof {
                        lemma_table_fault_prefix(g, cm.mapping, j as int + 1);
                        lemma_conditionals_fault_prefix(g, g.conditionals, k as int + 1);
                    }
                    return Err(GraphError::NodeNotFound(target.clone()));
                }
                j = j + 1;
            }
            proof {
                assert(cm.mapping.take(j as int) =~= cm.mapping);
            }
            k = k + 1;
        }
        assert(g.conditionals.take(k as int) =~= g.conditionals);
        Ok(())
    }

    /// Validates the graph and freezes it. Fails with `NodeNotFound` naming the
    /// first bad reference: the edges are checked in order (source, then
    /// target), then the conditional edges in order (source, then each target).
    pub fn compile(self) -> (r: Result<CompiledGraph<N, C>, GraphError>)
        ensures
            match validation_fault(self@) {
                None => r matches Ok(cg) && cg@ == self@,
                Some(x) => r matches Err(GraphError::NodeNotFound(n)) && n@ == x,
            },
    {
        proof {
            use_type_invariant(&self);
            lemma_compile_verdict(self);
        }
        match self.validate() {
            Ok(()) => {
                let Graph { nodes, edges, conditional_edges, entry_point } = self;
                let cg = CompiledGraph { nodes, edges, conditional_edges, entry_point };
                Ok(cg)
            },
            Err(e) => Err(e),
        }
    }

    /// The Mermaid flowchart of the graph.
    pub fn draw_mermaid(&self) -> (r: String)
        ensures
            r@ == mermaid(self@),
    {
        let r = draw(&self.nodes, &self.edges, &self.conditional_edges);
        assert(self@.names() =~= self.nodes@.map_values(|p: (String, N)| (p.0@, p.1)).map_values(
            |p: (Seq<char>, N)| p.0,
        ));
        r
    }

    /// Registers `node` under `name`; a node already registered under that
    /// name is replaced, keeping its place.
    pub fn add_node(self, name: &str, node: N) -> (r: Self)
        ensures
            r@.edges == self@.edges,
            r@.conditionals == self@.conditionals,
            r@.entry_point == self@.entry_point,
            r@.nodes.len() == self@.nodes.len() + (if self@.has_node(name@) { 0int } else { 1int }),
            forall|i: int|
                0 <= i < self@.nodes.len() ==> #[trigger] r@.nodes[i] == (if self@.nodes[i].0 == name@ {
                    (name@, node)
                } else {
                    self@.nodes[i]
                }),
            !self@.has_node(name@) ==> r@.nodes.last() == (name@, node),
    {
        proof {
            use_type_invariant(&self);
        }
        let ghost old_nodes = self@.nodes;
        let name = text_of(name);
        let found = self.node_index(&name);
        let Graph { mut nodes, edges, conditional_edges, entry_point } = self;
        match found {
            Some(i) => {
                nodes.set(i, (name, node));
                let ghost g = Graph { nodes, edges, conditional_edges, entry_point };
                proof {
                    assert(g@.nodes =~= old_nodes.update(i as int, (name@, node)));
                    assert(self@.has_node(name@)) by {
                        assert(self@.names()[i as int] == name@);
                    }
                    assert forall|j: int| 0 <= j < old_nodes.len() && j != i implies old_nodes[j].0 != name@ by {
                        assert(self@.names()[j] == old_nodes[j].0);
                        assert(self@.names()[i as int] == old_nodes[i as int].0);
                    }
                    assert(g@.names() =~= self@.names());
                }
                assert(g@.conditionals == self@.conditionals);
            },
            None => {
                nodes.push((name, node));
                let ghost g = Graph { nodes, edges, conditional_edges, entry_point };
                proof {
                    assert(g@.nodes =~= old_nodes.push((name@, node)));
                    assert(g@.names() =~= self@.names().push(name@));
                    assert(!self@.names().contains(name@));
                    assert forall|a: int, b: int|
                        0 <= a < g@.names().len() && 0 <= b < g@.names().len() && a != b implies g@.names()[a]
                        != g@.names()[b] by {
                        if a < old_nodes.len() && b < old_nodes.len() {
                            assert(self@.names()[a] != self@.names()[b]);
                        }
                    }
                    assert forall|j: int| 0 <= j < old_nodes.len() implies old_nodes[j].0 != name@ by {
                        assert(self@.names()[j] == old_nodes[j].0);
                    }
                }
                assert(g@.conditionals == self@.conditionals);
            },
        }
        Graph { nodes, edges, conditional_edges, entry_point }
    }

    /// Adds the unconditional edge `from -> to`.
    pub fn add_edge(self, from: &str, to: &str) -> (r: Self)
        ensures
            r@ == (GraphModel { edges: self@.edges.push((from@, to@)), ..self@ }),
    {
        proof {
            use_type_invariant(&self);
        }
        let Graph { nodes, mut edges, conditional_edges, entry_point } = self;
        edges.push(Edge { from: text_of(from), to: text_of(to) });
        let g = Graph { nodes, edges, conditional_edges, entry_point };
        assert(g@.edges =~= self@.edges.push((from@, to@)));
        g
    }

    /// Makes `name` the entry point: records it and adds `START -> name`.
    pub fn set_entry_point(self, name: &str) -> (r: Self)
        ensures
            r@ == (GraphModel {
                edges: self@.edges.push((START@, name@)),
                entry_point: Some(name@),
                ..self@
            }),
    {
        proof {
            use_type_invariant(&self);
        }
        let Graph { nodes, mut edges, conditional_edges, entry_point: _ } = self;
        edges.push(Edge { from: text_of(START), to: text_of(name) });
        let g = Graph { nodes, edges, conditional_edges, entry_point: Some(text_of(name)) };
        assert(g@.edges =~= self@.edges.push((START@, name@)));
        g
    }

    /// Makes `name` a finish point: adds `name -> END`.
    pub fn set_finish_point(self, name: &str) -> (r: Self)
        ensures
            r@ == (GraphModel { edges: self@.edges.push((name@, END@)), ..self@ }),
    {
        self.add_edge(name, END)
    }

    /// Adds conditional edges out of `from`: after `from` has run, `condition`
    /// yields a label, and the pair of `mapping` with that label gives the
    /// target. Where `mapping` gives a label twice, the later pair counts.
    pub fn add_conditional_edges(self, from: &str, condition: C, mapping: Vec<(&str, &str)>) -> (r: Self)
        ensures
            r@ == (GraphModel {
                conditionals: self@.conditionals.push(
                    ConditionalModel { from: from@, condition, mapping: table_of(pairs_model(mapping@)) },
                ),
                ..self@
            }),
    {
        proof {
            use_type_invariant(&self);
        }
        let mut table: Vec<(String, String)> = Vec::new();
        let mut i: usize = 0;
        while i < mapping.len()
            invariant
                i <= mapping@.len(),
                table_model(table@) == table_of(pairs_model(mapping@).take(i as int)),
                labels_unique(table_model(table@)),
            decreases mapping@.len() - i,
        {
            let (label, target) = mapping[i];
            proof {
                lemma_table_of_step(pairs_model(mapping@), i as int);
            }
            put_label(&mut table, label, target);
            i = i + 1;
        }
        assert(pairs_model(mapping@).take(mapping@.len() as int) =~= pairs_model(mapping@));
        let ghost old_cs = self@.conditionals;
        let Graph { nodes, edges, mut conditional_edges, entry_point } = self;
        conditional_edges.push(ConditionalEdge { from: text_of(from), condition, mapping: table });
        proof {
            let added = ConditionalModel { from: from@, condition, mapping: table_of(pairs_model(mapping@)) };
            let cs = conditional_edges@.map_values(|e: ConditionalEdge<C>| conditional_model(e));
            assert(cs =~= old_cs.push(added));
            assert forall|k: int| 0 <= k < cs.len() implies labels_unique(#[trigger] cs[k].mapping) by {
                if k < old_cs.len() {
                    assert(cs[k] == old_cs[k]);
                }
            }
        }
        let g = Graph { nodes, edges, conditional_edges, entry_point };
        g
    }
}

pub open spec fn pairs_model(pairs: Seq<(&str, &str)>) -> LabelTable {
    pairs.map_values(|p: (&str, &str)| (p.0@, p.1@))
}

proof fn lemma_table_of_step(pairs: LabelTable, i: int)
    requires
        0 <= i < pairs.len(),
    ensures
        table_of(pairs.take(i + 1)) == put(table_of(pairs.take(i)), pairs[i].0, pairs[i].1),
{
    assert(pairs.take(i + 1).drop_last() =~= pairs.take(i));
}

proof fn lemma_label_index(t: LabelTable, label: Seq<char>)
    ensures
        match label_index(t, label) {
            Some(i) => 0 <= i < t.len() && t[i].0 == label,
            None => forall|j: int| 0 <= j < t.len() ==> (#[trigger] t[j]).0 != label,
        },
    decreases t.len(),
{
    if t.len() > 0 {
        lemma_label_index(t.drop_last(), label);
        if t.last().0 != label {
            assert forall|j: int| 0 <= j < t.len() - 1 implies (#[trigger] t[j]).0 == t.drop_last()[j].0 by {}
        }
    }
}

/// Puts `label -> target` into `table`.
fn put_label(table: &mut Vec<(String, String)>, label: &str, target: &str)
    requires
        labels_unique(table_model(old(table)@)),
    ensures
        table_model(final(table)@) == put(table_model(old(table)@), label@, target@),
        labels_unique(table_model(final(table)@)),
{
    let ghost t = table_model(table@);
    proof {
        lemma_label_index(t, label@);
    }
    let key = text_of(label);
    let value = text_of(target);
    let mut i: usize = table.len();
    while i > 0
        invariant
            i <= table@.len(),
            table_model(table@) == t,
            t == table_model(old(table)@),
            labels_unique(t),
            key@ == label@,
            value@ == target@,
            forall|j: int| i <= j < t.len() ==> (#[trigger] t[j]).0 != label@,
        decreases i,
    {
        if table[i - 1].0 == key {
            let ghost k = (i - 1) as int;
            proof {
                assert(t[k].0 == label@);
                assert(label_index(t, label@) == Some(k)) by {
                    lemma_label_index_unique(t, label@, k);
                }
            }
            table.set(i - 1, (key, value));
            proof {
                assert(table_model(table@) =~= t.update(k, (label@, target@)));
                assert(put(t, label@, target@) == t.update(k, (label@, target@)));
                assert forall|a: int, b: int|
                    0 <= a < table@.len() && 0 <= b < table@.len() && a != b implies (#[trigger] table_model(table@)[a]).0
                    != (#[trigger] table_model(table@)[b]).0 by {
                    assert(t[a].0 != t[b].0);
                }
            }
            return;
        }
        i = i - 1;
    }
    proof {
        assert forall|j: int| 0 <= j < t.len() implies (#[trigger] t[j]).0 != label@ by {}
        if let Some(k) = label_index(t, label@) {
            assert(t[k].0 == label@);
        }
    }
    table.push((key, value));
    proof {
        assert(table_model(table@) =~= t.push((label@, target@)));
        assert forall|a: int, b: int|
            0 <= a < table@.len() && 0 <= b < table@.len() && a != b implies (#[trigger] table_model(table@)[a]).0
            != (#[trigger] table_model(table@)[b]).0 by {
            if a < t.len() && b < t.len() {
                assert(t[a].0 != t[b].0);
            }
        }
    }
}

proof fn lemma_label_index_unique(t: LabelTable, label: Seq<char>, k: int)
    requires
        labels_unique(t),
        0 <= k < t.len(),
        t[k].0 == label,
    ensures
        label_index(t, label) == Some(k),
{
    lemma_label_index(t, label);
    if let Some(i) = label_index(t, label) {
        if i != k {
            assert(t[i].0 != t[k].0);
        }
    }
}

impl<N, C> CompiledGraph<N, C> {
    /// Whether a node is registered under `name`.
    fn has_node(&self, name: &String) -> (r: bool)
        ensures
            r == self@.has_node(name@),
    {
        let mut i: usize = 0;
        while i < self.nodes.len()
            invariant
                i <= self.nodes@.len(),
                forall|j: int| 0 <= j < i ==> self@.nodes[j].0 != name@,
            decreases self.nodes@.len() - i,
        {
            if self.nodes[i].0 == *name {
                assert(self@.names()[i as int] == name@);
                return true;
            }
            i = i + 1;
        }
        proof {
            assert forall|j: int| 0 <= j < self@.names().len() implies self@.names()[j] != name@ by {
                assert(self@.names()[j] == self@.nodes[j].0);
            }
        }
        false
    }

    /// The Mermaid flowchart of the graph.
    pub fn draw_mermaid(&self) -> (r: String)
        ensures
            r@ == mermaid(self@),
    {
        let r = draw(&self.nodes, &self.edges, &self.conditional_edges);
        assert(self@.names() =~= self.nodes@.map_values(|p: (String, N)| (p.0@, p.1)).map_values(
            |p: (Seq<char>, N)| p.0,
        ));
        r
    }

    /// The transform registered under `name`.
    pub fn transform(&self, name: &str) -> (r: Option<&N>)
        ensures
            match r {
                Some(n) => exists|i: int| 0 <= i < self@.nodes.len() && #[trigger] self@.nodes[i] == (name@, *n),
                None => !self@.has_node(name@),
            },
    {
        let key = text_of(name);
        let mut i: usize = 0;
        while i < self.nodes.len()
            invariant
                i <= self.nodes@.len(),
                key@ == name@,
                forall|j: int| 0 <= j < i ==> self@.nodes[j].0 != name@,
            decreases self.nodes@.len() - i,
        {
            if self.nodes[i].0 == key {
                assert(self@.nodes[i as int] == (name@, self.nodes[i as int].1));
                return Some(&self.nodes[i].1);
            }
            i = i + 1;
        }
        proof {
            assert forall|j: int| 0 <= j < self@.names().len() implies self@.names()[j] != name@ by {
                assert(self@.names()[j] == self@.nodes[j].0);
            }
        }
        None
    }

    /// The number of conditional edges.
    pub fn conditional_count(&self) -> (r: usize)
        ensures
            r == self@.conditionals.len(),
    {
        self.conditional_edges.len()
    }

    /// The predicate of conditional edge `edge`.
    pub fn condition(&self, edge: usize) -> (r: &C)
        requires
            edge < self@.conditionals.len(),
        ensures
            *r == self@.conditionals[edge as int].condition,
    {
        &self.conditional_edges[edge].condition
    }

    /// The first step of a run from `name`.
    fn run_step(&self, name: String) -> (r: Result<Step, GraphError>)
        ensures
            step_model(r) == run_step(self@, name@),
    {
        if self.has_node(&name) {
            Ok(Step::Run(name))
        } else {
            Err(GraphError::NodeNotFound(name))
        }
    }

    /// The step that moves to `target`.
    fn enter(&self, target: String) -> (r: Result<Step, GraphError>)
        ensures
            step_model(r) == enter(self@, target@),
    {
        if target == text_of(END) {
            Ok(Step::Finish)
        } else {
            self.run_step(target)
        }
    }

    /// The target of the first edge out of `node`.
    fn first_target(&self, node: &String) -> (r: Option<String>)
        ensures
            option_model(r) == first_target(self@.edges, node@),
    {
        let ghost es = self@.edges;
        let mut i: usize = 0;
        while i < self.edges.len()
            invariant
                i <= self.edges@.len(),
                es == self@.edges,
                first_target(es.take(i as int), node@) is None,
            decreases self.edges@.len() - i,
        {
            proof {
                assert(es.take(i as int + 1).drop_last() =~= es.take(i as int));
                assert(es.take(i as int + 1).last() == es[i as int]);
            }
            if self.edges[i].from == *node {
                proof {
                    lemma_first_target_prefix(es, node@, i as int + 1);
                }
                return Some(self.edges[i].to.clone());
            }
            i = i + 1;
        }
        assert(es.take(i as int) =~= es);
        None
    }

    /// The unconditional transition out of `node`.
    fn fallback(&self, node: &String) -> (r: Result<Step, GraphError>)
        ensures
            step_model(r) == fallback(self@, node@),
    {
        match self.first_target(node) {
            Some(t) => self.enter(t),
            None => Ok(Step::Finish),
        }
    }

    /// The next conditional edge out of `node` from position `from` on, or
    /// else the unconditional transition.
    fn scan(&self, node: String, from: usize) -> (r: Result<Step, GraphError>)
        ensures
            step_model(r) == scan(self@, node@, from as int),
    {
        if from >= self.conditional_edges.len() {
            return self.fallback(&node);
        }
        let mut i: usize = from;
        while i < self.conditional_edges.len()
            invariant
                i <= self.conditional_edges@.len(),
                next_conditional(self@, node@, from as int) == next_conditional(self@, node@, i as int),
            decreases self.conditional_edges@.len() - i,
        {
            if self.conditional_edges[i].from == node {
                return Ok(Step::Evaluate { node, edge: i });
            }
            i = i + 1;
        }
        self.fallback(&node)
    }

    /// The first step of a run from the entry point: the target of the first
    /// edge out of [`START`], else the recorded entry point. Fails with
    /// `NoEntryPoint` where there is neither, and with `NodeNotFound` where the
    /// start names no registered node.
    pub fn start(&self) -> (r: Result<Step, GraphError>)
        ensures
            step_model(r) == match entry(self@) {
                Some(n) => run_step(self@, n),
                None => Err(FaultModel::NoEntryPoint),
            },
    {
        match self.first_target(&text_of(START)) {
            Some(t) => self.run_step(t),
            None => match &self.entry_point {
                Some(e) => self.run_step(e.clone()),
                None => Err(GraphError::NoEntryPoint),
            },
        }
    }

    /// The first step of a run from `name`, whether or not it is the entry
    /// point. Fails with `NodeNotFound` where no node is registered under it.
    pub fn start_at(&self, name: &str) -> (r: Result<Step, GraphError>)
        ensures
            step_model(r) == run_step(self@, name@),
    {
        self.run_step(text_of(name))
    }

    /// The step after the transform of `node` has run, with `outcome` its
    /// result: a failure ends the run with `ExecutionError` carrying its
    /// description, and nothing more is run; after a success the conditional
    /// edges out of `node` are consulted first, in declaration order, then the
    /// unconditional ones. After a success the only failure is a transition
    /// into [`START`]: in a compiled graph every other transition leads to a
    /// registered node or to [`END`].
    pub fn after_run(&self, node: &str, outcome: Result<(), String>) -> (r: Result<Step, GraphError>)
        ensures
            step_model(r) == match outcome {
                Ok(()) => scan(self@, node@, 0),
                Err(m) => Err(FaultModel::ExecutionError(m@)),
            },
            outcome is Ok ==> only_start_fails(step_model(r)),
    {
        proof {
            use_type_invariant(self);
            lemma_scan_ok(self@, node@, 0);
        }
        match outcome {
            Ok(()) => self.scan(text_of(node), 0),
            Err(m) => Err(GraphError::ExecutionError(m)),
        }
    }

    /// The step after the predicate of conditional edge `edge`, whose source is
    /// `node`, has yielded `label`: the target its table gives the label, or,
    /// where the table has no such label, the next conditional edge out of
    /// `node`, and after the last of them the unconditional transition. The
    /// only failure is a transition into [`START`].
    pub fn after_evaluate(&self, node: &str, edge: usize, label: &str) -> (r: Result<Step, GraphError>)
        requires
            edge < self@.conditionals.len(),
        ensures
            step_model(r) == after_label(self@, node@, edge as int, label@),
            only_start_fails(step_model(r)),
    {
        proof {
            use_type_invariant(self);
            lemma_after_label_ok(self@, node@, edge as int, label@);
        }
        let table = &self.conditional_edges[edge].mapping;
        let ghost t = self@.conditionals[edge as int].mapping;
        let key = text_of(label);
        let mut i: usize = table.len();
        while i > 0
            invariant
                i <= table@.len(),
                t == table_model(table@),
                edge < self@.conditionals.len(),
                t == self@.conditionals[edge as int].mapping,
                only_start_fails(after_label(self@, node@, edge as int, label@)),
                key@ == label@,
                forall|j: int| i <= j < t.len() ==> (#[trigger] t[j]).0 != label@,
            decreases i,
        {
            if table[i - 1].0 == key {
                proof {
                    lemma_label_index_last(t, label@, i - 1);
                }
                return self.enter(table[i - 1].1.clone());
            }
            i = i - 1;
        }
        proof {
            lemma_label_index(t, label@);
            if let Some(k) = label_index(t, label@) {
                assert(t[k].0 == label@);
            }
        }
        let n: usize = self.conditional_edges.len();
        assert(edge < n);
        self.scan(text_of(node), edge + 1)
    }
}

proof fn lemma_label_index_last(t: LabelTable, label: Seq<char>, k: int)
    requires
        0 <= k < t.len(),
        t[k].0 == label,
        forall|j: int| k < j < t.len() ==> (#[trigger] t[j]).0 != label,
    ensures
        label_index(t, label) == Some(k),
    decreases t.len(),
{
    if k < t.len() - 1 {
        assert(t.last() == t[t.len() - 1]);
        lemma_label_index_last(t.drop_last(), label, k);
    }
}

/// In a graph whose references are valid, the transitions out of a node
/// lead to a registered node, to the end, or to [`START`]: only the last fails.
proof fn lemma_fallback_ok<N, C>(g: GraphModel<N, C>, node: Seq<char>)
    requires
        references_valid(g),
    ensures
        only_start_fails(fallback(g, node)),
{
    lemma_first_target_member(g.edges, node);
    if let Some(t) = first_target(g.edges, node) {
        let i = choose|i: int| 0 <= i < g.edges.len() && #[trigger] g.edges[i] == (node, t);
        assert(endpoint_ok(g, g.edges[i].1));
    }
}

proof fn lemma_scan_ok<N, C>(g: GraphModel<N, C>, node: Seq<char>, i: int)
    requires
        references_valid(g),
    ensures
        only_start_fails(scan(g, node, i)),
{
    lemma_fallback_ok(g, node);
}

proof fn lemma_after_label_ok<N, C>(g: GraphModel<N, C>, node: Seq<char>, edge: int, label: Seq<char>)
    requires
        references_valid(g),
        0 <= edge < g.conditionals.len(),
    ensures
        only_start_fails(after_label(g, node, edge, label)),
{
    let t = g.conditionals[edge].mapping;
    lemma_label_index(t, label);
    if let Some(j) = label_index(t, label) {
        assert(endpoint_ok(g, g.conditionals[edge].mapping[j].1));
    }
    lemma_scan_ok(g, node, edge + 1);
}

proof fn lemma_first_target_member(es: Seq<(Seq<char>, Seq<char>)>, node: Seq<char>)
    ensures
        first_target(es, node) matches Some(t) ==> exists|i: int| 0 <= i < es.len() && #[trigger] es[i] == (node, t),
    decreases es.len(),
{
    if es.len() > 0 {
        let p = es.drop_last();
        lemma_first_target_member(p, node);
        if let Some(t) = first_target(p, node) {
            let i = choose|i: int| 0 <= i < p.len() && #[trigger] p[i] == (node, t);
            assert(es[i] == p[i]);
        } else if es.last().0 == node {
            assert(es[es.len() - 1] == (node, es.last().1));
        }
    }
}

proof fn lemma_first_target_prefix(es: Seq<(Seq<char>, Seq<char>)>, node: Seq<char>, k: int)
    requires
        0 <= k <= es.len(),
        first_target(es.take(k), node) is Some,
    ensures
        first_target(es, node) == first_target(es.take(k), node),
    decreases es.len(),
{
    if k < es.len() {
        assert(es.drop_last().take(k) =~= es.take(k));
        lemma_first_target_prefix(es.drop_last(), node, k);
    } else {
        assert(es.take(k) =~= es);
    }
}

// ---------------------------------------------------------------------------
// Laws of runs
// ---------------------------------------------------------------------------

/// Once `node` has run, the steps that [`CompiledGraph::after_run`] and
/// [`CompiledGraph::after_evaluate`] hand out, with each predicate answered by
/// `label`, come within one report per conditional edge to the transition that
/// resolution gives: conditional edges before unconditional ones, the first
/// declared that matches winning, and the end of the run where none matches.
/// The steps depend on the node alone, not on how the run began, so a run
/// begun with [`CompiledGraph::start_at`] resolves each step as one begun with
/// [`CompiledGraph::start`] does.
pub proof fn lemma_resolution_order<N, C>(g: CompiledGraph<N, C>, node: Seq<char>, label: spec_fn(int) -> Seq<char>)
    ensures
        follow(g@, label, scan(g@, node, 0), (g@.conditionals.len() + 1) as nat) == match resolve(g@, node, label) {
            Some(t) => enter(g@, t),
            None => Ok(StepModel::Finish),
        },
{
    lemma_follow_from(g@, node, label, 0, (g@.conditionals.len() + 1) as nat);
}

/// A run begun with [`CompiledGraph::start_at`] at `s` goes as a run begun
/// with [`CompiledGraph::start`] in a graph that differs only in beginning at
/// `s`: the first step is the same, and after every node (other than one
/// registered under the name [`START`]) the steps are the same, with the
/// conditional edges consulted before the unconditional ones, for every
/// answer the predicates give.
pub proof fn lemma_start_at_as_entry<N, C>(
    g1: CompiledGraph<N, C>,
    g2: CompiledGraph<N, C>,
    s: Seq<char>,
    node: Seq<char>,
    label: spec_fn(int) -> Seq<char>,
    fuel: nat,
)
    requires
        differs_only_at_start(g1@, g2@),
        entry(g2@) == Some(s),
        node != START@,
    ensures
        match entry(g2@) {
            Some(n) => run_step(g2@, n),
            None => Err(FaultModel::NoEntryPoint),
        } == run_step(g1@, s),
        scan(g1@, node, 0) == scan(g2@, node, 0),
        forall|k: int, l: Seq<char>|
            0 <= k < g1@.conditionals.len() ==> #[trigger] after_label(g1@, node, k, l) == after_label(g2@, node, k, l),
        follow(g1@, label, scan(g1@, node, 0), fuel) == follow(g2@, label, scan(g2@, node, 0), fuel),
{
    let (m1, m2) = (g1@, g2@);
    assert(m1.names() =~= m2.names());
    lemma_scan_same(m1, m2, node);
    lemma_follow_same(m1, m2, node, label, scan(m1, node, 0), fuel);
}

proof fn lemma_next_conditional_same<N, C>(g1: GraphModel<N, C>, g2: GraphModel<N, C>, node: Seq<char>, i: int)
    requires
        g1.conditionals == g2.conditionals,
    ensures
        next_conditional(g1, node, i) == next_conditional(g2, node, i),
    decreases g1.conditionals.len() - i,
{
    if 0 <= i < g1.conditionals.len() {
        lemma_next_conditional_same(g1, g2, node, i + 1);
    }
}

proof fn lemma_scan_same<N, C>(g1: GraphModel<N, C>, g2: GraphModel<N, C>, node: Seq<char>)
    requires
        differs_only_at_start(g1, g2),
        node != START@,
    ensures
        forall|i: int| #[trigger] scan(g1, node, i) == scan(g2, node, i),
        forall|k: int, l: Seq<char>|
            0 <= k < g1.conditionals.len() ==> #[trigger] after_label(g1, node, k, l) == after_label(g2, node, k, l),
{
    assert(g1.names() =~= g2.names());
    assert(first_target(g1.edges, node) == first_target(g2.edges, node));
    assert forall|i: int| #[trigger] scan(g1, node, i) == scan(g2, node, i) by {
        lemma_next_conditional_same(g1, g2, node, i);
    }
    assert forall|k: int, l: Seq<char>|
        0 <= k < g1.conditionals.len() implies #[trigger] after_label(g1, node, k, l) == after_label(g2, node, k, l) by {
        lemma_next_conditional_same(g1, g2, node, k + 1);
    }
}

proof fn lemma_follow_same<N, C>(
    g1: GraphModel<N, C>,
    g2: GraphModel<N, C>,
    node: Seq<char>,
    label: spec_fn(int) -> Seq<char>,
    r: Result<StepModel, FaultModel>,
    fuel: nat,
)
    requires
        differs_only_at_start(g1, g2),
        node != START@,
        r matches Ok(StepModel::Evaluate(n, _)) ==> n == node,
    ensures
        follow(g1, label, r, fuel) == follow(g2, label, r, fuel),
    decreases fuel,
{
    lemma_scan_same(g1, g2, node);
    if let Ok(StepModel::Evaluate(n, k)) = r {
        if fuel > 0 && 0 <= k < g1.conditionals.len() {
            let next = after_label(g1, node, k, label(k));
            assert(next == after_label(g2, node, k, label(k)));
            lemma_follow_same(g1, g2, node, label, next, (fuel - 1) as nat);
        }
    }
}

proof fn lemma_follow_from<N, C>(g: GraphModel<N, C>, node: Seq<char>, label: spec_fn(int) -> Seq<char>, i: int, fuel: nat)
    requires
        0 <= i <= g.conditionals.len(),
        fuel >= g.conditionals.len() - i + 1,
    ensures
        follow(g, label, scan(g, node, i), fuel) == match conditional_route(g, node, label, i) {
            Some(t) => enter(g, t),
            None => fallback(g, node),
        },
    decreases g.conditionals.len() - i,
{
    lemma_next_conditional_found(g, node, i);
    match next_conditional(g, node, i) {
        Some(j) => {
            lemma_conditional_route_skip(g, node, label, i, j);
            assert(scan(g, node, i) == Ok::<StepModel, FaultModel>(StepModel::Evaluate(node, j)));
            assert(follow(g, label, scan(g, node, i), fuel) == follow(
                g,
                label,
                after_label(g, node, j, label(j)),
                (fuel - 1) as nat,
            ));
            match lookup(g.conditionals[j].mapping, label(j)) {
                Some(t) => {
                    assert(conditional_route(g, node, label, j) == Some(t));
                    lemma_follow_settled(g, label, enter(g, t), (fuel - 1) as nat);
                },
                None => {
                    assert(conditional_route(g, node, label, j) == conditional_route(g, node, label, j + 1));
                    lemma_follow_from(g, node, label, j + 1, (fuel - 1) as nat);
                },
            }
        },
        None => {
            lemma_conditional_route_skip(g, node, label, i, g.conditionals.len() as int);
            assert(conditional_route(g, node, label, g.conditionals.len() as int) is None);
            lemma_follow_settled(g, label, fallback(g, node), fuel);
        },
    }
}

proof fn lemma_follow_settled<N, C>(g: GraphModel<N, C>, label: spec_fn(int) -> Seq<char>, r: Result<StepModel, FaultModel>, fuel: nat)
    requires
        !(r matches Ok(StepModel::Evaluate(_, _))),
    ensures
        follow(g, label, r, fuel) == r,
{
}

proof fn lemma_next_conditional_found<N, C>(g: GraphModel<N, C>, node: Seq<char>, i: int)
    requires
        0 <= i <= g.conditionals.len(),
    ensures
        match next_conditional(g, node, i) {
            Some(j) => i <= j < g.conditionals.len() && g.conditionals[j].from == node && forall|k: int|
                i <= k < j ==> (#[trigger] g.conditionals[k]).from != node,
            None => forall|k: int| i <= k < g.conditionals.len() ==> (#[trigger] g.conditionals[k]).from != node,
        },
    decreases g.conditionals.len() - i,
{
    if i < g.conditionals.len() && g.conditionals[i].from != node {
        lemma_next_conditional_found(g, node, i + 1);
    }
}

proof fn lemma_conditional_route_skip<N, C>(g: GraphModel<N, C>, node: Seq<char>, label: spec_fn(int) -> Seq<char>, a: int, b: int)
    requires
        0 <= a <= b <= g.conditionals.len(),
        forall|k: int| a <= k < b ==> (#[trigger] g.conditionals[k]).from != node,
    ensures
        conditional_route(g, node, label, a) == conditional_route(g, node, label, b),
    decreases b - a,
{
    if a < b {
        lemma_conditional_route_skip(g, node, label, a + 1, b);
    }
}

// ---------------------------------------------------------------------------
// Laws of compilation
// ---------------------------------------------------------------------------

/// Compiling accepts a graph exactly when every edge endpoint and label target
/// names a sentinel or a registered node and every conditional-edge source
/// names a registered node; when it refuses one, the name it reports is such a
/// dangling reference.
pub proof fn lemma_compile_verdict<N, C>(g: Graph<N, C>)
    ensures
        validation_fault(g@) is None <==> references_valid(g@),
        validation_fault(g@) matches Some(x) ==> dangling(g@, x),
{
    let m = g@;
    lemma_edges_fault_meaning(m, m.edges);
    lemma_conditionals_fault_meaning(m, m.conditionals);
    if validation_fault(m) is None {
        assert forall|i: int, j: int|
            0 <= i < m.conditionals.len() && 0 <= j < m.conditionals[i].mapping.len() implies endpoint_ok(
            m,
            (#[trigger] m.conditionals[i].mapping[j]).1,
        ) by {
            lemma_table_fault_meaning(m, m.conditionals[i].mapping);
        }
    }
    if references_valid(m) {
        assert forall|i: int| 0 <= i < m.conditionals.len() implies conditional_fault(m, #[trigger] m.conditionals[i]) is None by {
            lemma_table_fault_meaning(m, m.conditionals[i].mapping);
        }
    }
    if let Some(x) = validation_fault(m) {
        if let Some(y) = edges_fault(m, m.edges) {
        } else {
            let i = choose|i: int| 0 <= i < m.conditionals.len() && conditional_fault(m, #[trigger] m.conditionals[i]) == Some(x);
            lemma_table_fault_meaning(m, m.conditionals[i].mapping);
            if m.has_node(m.conditionals[i].from) {
                let j = choose|j: int|
                    0 <= j < m.conditionals[i].mapping.len() && (#[trigger] m.conditionals[i].mapping[j]).1 == x && !endpoint_ok(m, x);
                assert(m.conditionals[i].mapping[j].1 == x);
            }
        }
    }
}

proof fn lemma_edges_fault_meaning<N, C>(g: GraphModel<N, C>, es: Seq<(Seq<char>, Seq<char>)>)
    ensures
        edges_fault(g, es) is None <==> forall|i: int| 0 <= i < es.len() ==> edge_fault(g, #[trigger] es[i]) is None,
        edges_fault(g, es) matches Some(x) ==> exists|i: int|
            0 <= i < es.len() && ((#[trigger] es[i]).0 == x && !endpoint_ok(g, x) || es[i].1 == x && !endpoint_ok(g, x)),
    decreases es.len(),
{
    if es.len() > 0 {
        let p = es.drop_last();
        lemma_edges_fault_meaning(g, p);
        assert forall|i: int| 0 <= i < p.len() implies #[trigger] p[i] == es[i] by {}
        if let Some(x) = edges_fault(g, p) {
            let i = choose|i: int| 0 <= i < p.len() && ((#[trigger] p[i]).0 == x && !endpoint_ok(g, x) || p[i].1 == x && !endpoint_ok(g, x));
            assert(es[i] == p[i]);
        } else if edge_fault(g, es.last()) is Some {
            assert(es[es.len() - 1] == es.last());
        } else {
            assert forall|i: int| 0 <= i < es.len() implies edge_fault(g, #[trigger] es[i]) is None by {
                if i < p.len() {
                    assert(p[i] == es[i]);
                }
            }
        }
    }
}

proof fn lemma_table_fault_meaning<N, C>(g: GraphModel<N, C>, t: LabelTable)
    ensures
        table_fault(g, t) is None <==> forall|j: int| 0 <= j < t.len() ==> endpoint_ok(g, (#[trigger] t[j]).1),
        table_fault(g, t) matches Some(x) ==> exists|j: int| 0 <= j < t.len() && (#[trigger] t[j]).1 == x && !endpoint_ok(g, x),
    decreases t.len(),
{
    if t.len() > 0 {
        let p = t.drop_last();
        lemma_table_fault_meaning(g, p);
        assert forall|i: int| 0 <= i < p.len() implies #[trigger] p[i] == t[i] by {}
        if let Some(x) = table_fault(g, p) {
            let j = choose|j: int| 0 <= j < p.len() && (#[trigger] p[j]).1 == x && !endpoint_ok(g, x);
            assert(t[j] == p[j]);
        } else if !endpoint_ok(g, t.last().1) {
            assert(t[t.len() - 1] == t.last());
        } else {
            assert forall|j: int| 0 <= j < t.len() implies endpoint_ok(g, (#[trigger] t[j]).1) by {
                if j < p.len() {
                    assert(p[j] == t[j]);
                }
            }
        }
    }
}

proof fn lemma_conditionals_fault_meaning<N, C>(g: GraphModel<N, C>, cs: Seq<ConditionalModel<C>>)
    ensures
        conditionals_fault(g, cs) is None <==> forall|i: int| 0 <= i < cs.len() ==> conditional_fault(g, #[trigger] cs[i]) is None,
        conditionals_fault(g, cs) matches Some(x) ==> exists|i: int| 0 <= i < cs.len() && conditional_fault(g, #[trigger] cs[i]) == Some(x),
    decreases cs.len(),
{
    if cs.len() > 0 {
        let p = cs.drop_last();
        lemma_conditionals_fault_meaning(g, p);
        assert forall|i: int| 0 <= i < p.len() implies #[trigger] p[i] == cs[i] by {}
        if let Some(x) = conditionals_fault(g, p) {
            let i = choose|i: int| 0 <= i < p.len() && conditional_fault(g, #[trigger] p[i]) == Some(x);
            assert(cs[i] == p[i]);
        } else if conditional_fault(g, cs.last()) is Some {
            assert(cs[cs.len() - 1] == cs.last());
        } else {
            assert forall|i: int| 0 <= i < cs.len() implies conditional_fault(g, #[trigger] cs[i]) is None by {
                if i < p.len() {
                    assert(p[i] == cs[i]);
                }
            }
        }
    }
}

proof fn lemma_edges_fault_prefix<N, C>(g: GraphModel<N, C>, es: Seq<(Seq<char>, Seq<char>)>, k: int)
    requires
        0 <= k <= es.len(),
        edges_fault(g, es.take(k)) is Some,
    ensures
        edges_fault(g, es) == edges_fault(g, es.take(k)),
    decreases es.len(),
{
    if k < es.len() {
        assert(es.drop_last().take(k) =~= es.take(k));
        lemma_edges_fault_prefix(g, es.drop_last(), k);
    } else {
        assert(es.take(k) =~= es);
    }
}

proof fn lemma_table_fault_prefix<N, C>(g: GraphModel<N, C>, t: LabelTable, k: int)
    requires
        0 <= k <= t.len(),
        table_fault(g, t.take(k)) is Some,
    ensures
        table_fault(g, t) == table_fault(g, t.take(k)),
    decreases t.len(),
{
    if k < t.len() {
        assert(t.drop_last().take(k) =~= t.take(k));
        lemma_table_fault_prefix(g, t.drop_last(), k);
    } else {
        assert(t.take(k) =~= t);
    }
}

proof fn lemma_conditionals_fault_prefix<N, C>(g: GraphModel<N, C>, cs: Seq<ConditionalModel<C>>, k: int)
    requires
        0 <= k <= cs.len(),
        conditionals_fault(g, cs.take(k)) is Some,
    ensures
        conditionals_fault(g, cs) == conditionals_fault(g, cs.take(k)),
    decreases cs.len(),
{
    if k < cs.len() {
        assert(cs.drop_last().take(k) =~= cs.take(k));
        lemma_conditionals_fault_prefix(g, cs.drop_last(), k);
    } else {
        assert(cs.take(k) =~= cs);
    }
}

} // verus!
