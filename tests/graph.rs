use ai::graph::{CompiledGraph, Graph, GraphError, Step, END, START};
use std::cell::Cell;
use std::rc::Rc;

type Node = Box<dyn Fn(i64) -> Result<i64, String>>;
type Cond = Box<dyn Fn(&i64) -> String>;

fn node(f: impl Fn(i64) -> Result<i64, String> + 'static) -> Node {
    Box::new(f)
}

fn cond(f: impl Fn(&i64) -> String + 'static) -> Cond {
    Box::new(f)
}

fn counted(counter: &Rc<Cell<u32>>, f: impl Fn(i64) -> Result<i64, String> + 'static) -> Node {
    let c = counter.clone();
    Box::new(move |s| {
        c.set(c.get() + 1);
        f(s)
    })
}

/// Drives a run to its end the way an executor does: invoke what the graph
/// asks for, report back, stop at `Finish` or at the first error.
fn drive(g: &CompiledGraph<Node, Cond>, first: Result<Step, GraphError>, input: i64) -> Result<i64, GraphError> {
    let mut state = input;
    let mut step = first?;
    loop {
        match step {
            Step::Run(name) => {
                let f = g.transform(&name).expect("a step runs only registered nodes");
                let outcome = match f(state) {
                    Ok(next) => {
                        state = next;
                        Ok(())
                    }
                    Err(e) => Err(e),
                };
                step = g.after_run(&name, outcome)?;
            }
            Step::Evaluate { node, edge } => {
                let label = (g.condition(edge))(&state);
                step = g.after_evaluate(&node, edge, &label)?;
            }
            Step::Finish => return Ok(state),
        }
    }
}

fn execute(g: &CompiledGraph<Node, Cond>, input: i64) -> Result<i64, GraphError> {
    drive(g, g.start(), input)
}

fn execute_with_start(g: &CompiledGraph<Node, Cond>, start: &str, input: i64) -> Result<i64, GraphError> {
    drive(g, g.start_at(start), input)
}

fn inc() -> Node {
    node(|s| Ok(s + 1))
}

#[test]
fn compile_accepts_graph_with_valid_references() {
    let g: Graph<Node, Cond> = Graph::new()
        .add_node("a", inc())
        .add_node("b", inc())
        .add_edge(START, "a")
        .add_conditional_edges("a", cond(|_| "x".to_string()), vec![("x", "b"), ("y", END)])
        .add_edge("b", END);
    assert!(g.compile().is_ok());
}

#[test]
fn compile_reports_dangling_edge_target() {
    let g: Graph<Node, Cond> = Graph::new().add_node("a", inc()).add_edge(START, "a").add_edge("a", "missing");
    assert_eq!(g.compile().err(), Some(GraphError::NodeNotFound("missing".to_string())));
}

#[test]
fn compile_reports_dangling_edge_source() {
    let g: Graph<Node, Cond> = Graph::new().add_node("a", inc()).add_edge("ghost", "a");
    assert_eq!(g.compile().err(), Some(GraphError::NodeNotFound("ghost".to_string())));
}

#[test]
fn compile_accepts_sentinels_at_any_endpoint() {
    let g: Graph<Node, Cond> = Graph::new().add_node("a", inc()).add_edge(END, "a");
    assert!(g.compile().is_ok());
    let g: Graph<Node, Cond> = Graph::new()
        .add_node("a", inc())
        .add_edge("a", START)
        .add_conditional_edges("a", cond(|_| "x".to_string()), vec![("x", START), ("y", END)]);
    assert!(g.compile().is_ok());
    let g: Graph<Node, Cond> = Graph::new().add_node("a", inc()).add_edge("a", START).add_edge("a", "missing");
    assert_eq!(g.compile().err(), Some(GraphError::NodeNotFound("missing".to_string())));
    let g: Graph<Node, Cond> =
        Graph::new().add_node("a", inc()).add_conditional_edges(START, cond(|_| "x".to_string()), vec![("x", "a")]);
    assert_eq!(g.compile().err(), Some(GraphError::NodeNotFound(START.to_string())));
}

#[test]
fn transition_into_start_fails_at_run_time() {
    let g = Graph::new().add_node("a", inc()).add_edge(START, "a").add_edge("a", START).compile().unwrap();
    assert_eq!(execute(&g, 0), Err(GraphError::NodeNotFound(START.to_string())));
}

#[test]
fn compile_reports_dangling_conditional_source_and_target() {
    let g: Graph<Node, Cond> =
        Graph::new().add_node("a", inc()).add_conditional_edges("nowhere", cond(|_| "x".to_string()), vec![("x", "a")]);
    assert_eq!(g.compile().err(), Some(GraphError::NodeNotFound("nowhere".to_string())));
    let g: Graph<Node, Cond> = Graph::new()
        .add_node("a", inc())
        .add_conditional_edges("a", cond(|_| "x".to_string()), vec![("x", END), ("y", "lost")]);
    assert_eq!(g.compile().err(), Some(GraphError::NodeNotFound("lost".to_string())));
}

#[test]
fn compile_reports_first_violation_in_order() {
    let g: Graph<Node, Cond> = Graph::new()
        .add_node("a", inc())
        .add_conditional_edges("a", cond(|_| "x".to_string()), vec![("x", "second")])
        .add_edge("a", "first");
    assert_eq!(g.compile().err(), Some(GraphError::NodeNotFound("first".to_string())));
}

#[test]
fn execute_without_entry_point_fails() {
    let g = Graph::new().add_node("a", inc()).add_edge("a", END).compile().unwrap();
    assert_eq!(execute(&g, 0), Err(GraphError::NoEntryPoint));
    assert_eq!(execute_with_start(&g, "a", 0), Ok(1));
}

#[test]
fn execute_with_start_on_unregistered_name_fails() {
    let g = Graph::new().add_node("a", inc()).add_edge(START, "a").compile().unwrap();
    assert_eq!(execute_with_start(&g, "zzz", 0), Err(GraphError::NodeNotFound("zzz".to_string())));
    assert_eq!(execute_with_start(&g, END, 0), Err(GraphError::NodeNotFound(END.to_string())));
}

#[test]
fn linear_graph_runs_each_node_once() {
    let a_count = Rc::new(Cell::new(0));
    let b_count = Rc::new(Cell::new(0));
    let g = Graph::new()
        .add_node("A", counted(&a_count, |s| Ok(s + 1)))
        .add_node("B", counted(&b_count, |s| Ok(s + 1)))
        .add_edge(START, "A")
        .add_edge("A", "B")
        .add_edge("B", END)
        .compile()
        .unwrap();
    assert_eq!(execute(&g, 0), Ok(2));
    assert_eq!(a_count.get(), 1);
    assert_eq!(b_count.get(), 1);
}

fn threshold_graph(k: i64, passes: &Rc<Cell<u32>>) -> CompiledGraph<Node, Cond> {
    Graph::new()
        .add_node("check", node(Ok))
        .add_node("increase", counted(passes, |s| Ok(s + 1)))
        .set_entry_point("check")
        .add_conditional_edges(
            "check",
            cond(move |s| if *s < k { "low".to_string() } else { "high".to_string() }),
            vec![("low", "increase"), ("high", END)],
        )
        .add_edge("increase", "check")
        .compile()
        .unwrap()
}

#[test]
fn conditional_loop_stops_at_threshold() {
    for (initial, k) in [(0i64, 5i64), (3, 4), (-2, 7), (10, 10)] {
        let passes = Rc::new(Cell::new(0));
        let g = threshold_graph(k, &passes);
        assert_eq!(execute(&g, initial), Ok(k));
        assert_eq!(passes.get() as i64, k - initial);
    }
}

#[test]
fn failing_transform_aborts_run() {
    let after = Rc::new(Cell::new(0));
    let g = Graph::new()
        .add_node("boom", node(|_| Err("disk on fire".to_string())))
        .add_node("after", counted(&after, |s| Ok(s + 1)))
        .add_edge(START, "boom")
        .add_edge("boom", "after")
        .add_edge("after", END)
        .compile()
        .unwrap();
    assert_eq!(execute(&g, 0), Err(GraphError::ExecutionError("disk on fire".to_string())));
    assert_eq!(after.get(), 0);
}

#[test]
fn interleaved_runs_do_not_interfere() {
    let g = Graph::new()
        .add_node("double", node(|s| Ok(s * 2)))
        .add_node("inc", inc())
        .add_edge(START, "double")
        .add_edge("double", "inc")
        .add_edge("inc", END)
        .compile()
        .unwrap();
    // Two runs advanced in alternation over one compiled graph.
    let mut runs = vec![(3i64, g.start().unwrap()), (10i64, g.start().unwrap())];
    let mut done = vec![None, None];
    while done.iter().any(|d| d.is_none()) {
        for (i, (state, step)) in runs.iter_mut().enumerate() {
            if done[i].is_some() {
                continue;
            }
            match step.clone() {
                Step::Run(name) => {
                    *state = (g.transform(&name).unwrap())(*state).unwrap();
                    *step = g.after_run(&name, Ok(())).unwrap();
                }
                Step::Evaluate { .. } => unreachable!(),
                Step::Finish => done[i] = Some(*state),
            }
        }
    }
    assert_eq!(done, vec![Some(7), Some(21)]);
    assert_eq!(execute(&g, 3), Ok(7));
    assert_eq!(execute(&g, 10), Ok(21));
}

#[test]
fn start_at_resolves_conditionals_before_edges() {
    let g = Graph::new()
        .add_node("entry", inc())
        .add_node("mid", node(|s| Ok(s * 10)))
        .add_node("cond_target", node(|s| Ok(s + 1000)))
        .add_node("edge_target", node(|s| Ok(s + 5)))
        .add_edge(START, "entry")
        .add_edge("entry", "mid")
        .add_edge("mid", "edge_target")
        .add_conditional_edges("mid", cond(|_| "go".to_string()), vec![("go", "cond_target")])
        .add_edge("cond_target", END)
        .add_edge("edge_target", END)
        .compile()
        .unwrap();
    assert_eq!(execute(&g, 1), Ok(1020));
    assert_eq!(execute_with_start(&g, "mid", 1), Ok(1010));
}

#[test]
fn unmapped_label_falls_through() {
    let g = Graph::new()
        .add_node("a", inc())
        .add_node("b", node(|s| Ok(s * 100)))
        .add_node("c", node(|s| Ok(s - 1)))
        .add_edge(START, "a")
        .add_conditional_edges("a", cond(|_| "nothing".to_string()), vec![("x", "b")])
        .add_conditional_edges("a", cond(|_| "y".to_string()), vec![("y", "c")])
        .add_edge("a", "b")
        .compile()
        .unwrap();
    // The first table misses, the second one matches.
    assert_eq!(execute(&g, 1), Ok(1));
    let g = Graph::new()
        .add_node("a", inc())
        .add_node("b", node(|s| Ok(s * 100)))
        .add_edge(START, "a")
        .add_conditional_edges("a", cond(|_| "nothing".to_string()), vec![("x", END)])
        .add_edge("a", "b")
        .compile()
        .unwrap();
    assert_eq!(execute(&g, 1), Ok(200));
    let g = Graph::new()
        .add_node("a", inc())
        .add_edge(START, "a")
        .add_conditional_edges("a", cond(|_| "nothing".to_string()), vec![("x", END)])
        .compile()
        .unwrap();
    assert_eq!(execute(&g, 1), Ok(2));
}

#[test]
fn steps_are_reported_exactly() {
    let g = Graph::new()
        .add_node("a", inc())
        .add_edge("a", "a")
        .add_conditional_edges("a", cond(|_| "stop".to_string()), vec![("stop", END)])
        .compile()
        .unwrap();
    assert_eq!(g.start(), Err(GraphError::NoEntryPoint));
    assert_eq!(g.start_at("a"), Ok(Step::Run("a".to_string())));
    assert_eq!(g.after_run("a", Ok(())), Ok(Step::Evaluate { node: "a".to_string(), edge: 0 }));
    assert_eq!(g.after_evaluate("a", 0, "stop"), Ok(Step::Finish));
    assert_eq!(g.after_evaluate("a", 0, "other"), Ok(Step::Run("a".to_string())));
    assert_eq!(g.after_run("a", Err("bad".to_string())), Err(GraphError::ExecutionError("bad".to_string())));
    assert_eq!(g.after_run("lonely", Ok(())), Ok(Step::Finish));
}

#[test]
fn entry_point_and_start_edge_priority() {
    let g = Graph::new()
        .add_node("a", inc())
        .add_node("b", node(|s| Ok(s * 3)))
        .set_entry_point("b")
        .set_finish_point("a")
        .set_finish_point("b")
        .compile()
        .unwrap();
    assert_eq!(execute(&g, 2), Ok(6));
    let g = Graph::new()
        .add_node("a", inc())
        .add_node("b", node(|s| Ok(s * 3)))
        .add_edge(START, "a")
        .set_entry_point("b")
        .set_finish_point("a")
        .compile()
        .unwrap();
    assert_eq!(execute(&g, 2), Ok(3));
}

#[test]
fn later_label_and_node_registration_win() {
    let g = Graph::new()
        .add_node("a", inc())
        .add_node("b", node(|s| Ok(s * 3)))
        .add_node("a", node(|s| Ok(s - 10)))
        .add_edge(START, "a")
        .add_conditional_edges("a", cond(|_| "l".to_string()), vec![("l", END), ("l", "b")])
        .add_edge("b", END)
        .compile()
        .unwrap();
    assert_eq!(execute(&g, 20), Ok(30));
}

#[test]
fn mermaid_diagram_lists_nodes_edges_and_labels() {
    let g: Graph<Node, Cond> = Graph::new()
        .add_node("a", inc())
        .add_node("b", inc())
        .add_edge(START, "a")
        .add_conditional_edges("a", cond(|_| "x".to_string()), vec![("x", "b"), ("y", END)])
        .add_edge("b", END);
    let expected = "flowchart TD\n    __start__([START])\n    __end__([END])\n    a[a]\n    b[b]\n    __start__ --> a\n    b --> __end__\n    a -->|x| b\n    a -->|y| __end__\n    classDef startEnd fill:#e1f5fe,stroke:#01579b,stroke-width:2px\n    class __start__,__end__ startEnd\n";
    assert_eq!(g.draw_mermaid(), expected);
    let compiled = g.compile().unwrap();
    assert_eq!(compiled.draw_mermaid(), expected);
}

#[test]
fn error_descriptions() {
    assert_eq!(GraphError::NodeNotFound("x".to_string()).to_string(), "Node not found: x");
    assert_eq!(GraphError::ExecutionError("boom".to_string()).to_string(), "Execution error: boom");
    assert_eq!(
        GraphError::NoEntryPoint.to_string(),
        "No entry point set. Use set_entry_point() or execute_with_start()"
    );
}

#[test]
fn default_graph_is_empty() {
    let g: Graph<Node, Cond> = Graph::default();
    assert_eq!(g.compile().err(), None);
}

#[test]
fn start_at_runs_like_a_graph_begun_there() {
    let build = |entry: &str| {
        Graph::new()
            .add_node("entry", inc())
            .add_node("mid", node(|s| Ok(s * 10)))
            .add_node("cond_target", node(|s| Ok(s + 1000)))
            .add_node("edge_target", node(|s| Ok(s + 5)))
            .set_entry_point(entry)
            .add_edge("entry", "mid")
            .add_edge("mid", "edge_target")
            .add_conditional_edges("mid", cond(|s| if *s > 20 { "go".to_string() } else { "stay".to_string() }), vec![("go", "cond_target")])
            .add_edge("cond_target", END)
            .add_edge("edge_target", END)
            .compile()
            .unwrap()
    };
    let from_entry = build("entry");
    let begun_at_mid = build("mid");
    for x in [0i64, 1, 2, 3, 7] {
        assert_eq!(execute_with_start(&from_entry, "mid", x), execute(&begun_at_mid, x));
    }
    assert_eq!(execute_with_start(&from_entry, "mid", 1), Ok(15));
    assert_eq!(execute_with_start(&from_entry, "mid", 3), Ok(1030));
}
