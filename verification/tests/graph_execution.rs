use runx::graph::{
    checkpoint_planning_cursor, enforce_guards, reached_step_limit, retry_budget_remaining,
    terminal_prefix_cursor, transition_field_value, when_skipped_steps, ExecutionGraph,
    GraphStep, GraphStepStatus, GuardFailure, GuardGate, StepRun, StepState, SyncPoint,
    WhenCondition,
};
use runx::json::{JsonObject, JsonValue};
use runx::string_set::StringSet;

fn step(id: &str, when: Option<(&str, &str)>) -> GraphStep {
    GraphStep {
        id: id.to_owned(),
        when: when.map(|(field, equals)| WhenCondition {
            field: field.to_owned(),
            equals: Some(JsonValue::String(equals.to_owned())),
            not_equals: None,
        }),
        retry_max_attempts: None,
        fanout_group: None,
    }
}

fn object(pairs: Vec<(&str, JsonValue)>) -> JsonObject {
    let mut object = JsonObject::new();
    for (key, value) in pairs {
        object.insert(key.to_owned(), value);
    }
    object
}

fn conditional_graph() -> ExecutionGraph {
    ExecutionGraph {
        steps: vec![
            step("source", None),
            step("inspect", Some(("source.decision", "ready"))),
            step("reject", Some(("inspect.decision", "reject"))),
        ],
        guards: None,
    }
}

#[test]
fn skipped_branch_predicates_propagate_to_unreachable_descendants() {
    let graph = conditional_graph();
    let mut already = StringSet::new();
    already.insert("inspect".to_owned());
    let skipped = when_skipped_steps(&graph, &[], &already);

    assert!(skipped.contains("reject"));
}

#[test]
fn when_selection_reads_prior_runs() {
    let graph = conditional_graph();
    let runs = vec![StepRun {
        step_id: "source".to_owned(),
        outputs: object(vec![("decision", JsonValue::String("hold".to_owned()))]),
    }];
    let skipped = when_skipped_steps(&graph, &runs, &StringSet::new());
    assert!(skipped.contains("inspect"));
    assert!(skipped.contains("reject"));
    assert!(!skipped.contains("source"));
    let ready = vec![StepRun {
        step_id: "source".to_owned(),
        outputs: object(vec![("decision", JsonValue::String("ready".to_owned()))]),
    }];
    let pending = when_skipped_steps(&graph, &ready, &StringSet::new());
    assert!(!pending.contains("inspect"));
    assert!(!pending.contains("reject"));
}

#[test]
fn field_references_read_the_last_run_and_nested_fields() {
    let runs = vec![
        StepRun {
            step_id: "a".to_owned(),
            outputs: object(vec![("x", JsonValue::Bool(false))]),
        },
        StepRun {
            step_id: "a".to_owned(),
            outputs: object(vec![(
                "x",
                JsonValue::Object(object(vec![("y", JsonValue::Bool(true))])),
            )]),
        },
    ];
    assert_eq!(transition_field_value("a.x.y", &runs), Some(&JsonValue::Bool(true)));
    assert_eq!(transition_field_value("a.x.z", &runs), None);
    assert_eq!(transition_field_value("a", &runs), None);
    assert_eq!(transition_field_value("a.skill_claim", &runs), None);
    assert_eq!(transition_field_value("b.x", &runs), None);
}

#[test]
fn guards_block_until_their_comparison_holds() {
    let graph = ExecutionGraph {
        steps: vec![step("a", None), step("b", None)],
        guards: Some(vec![GuardGate {
            step: "b".to_owned(),
            field: "a.ok".to_owned(),
            equals: Some(JsonValue::Bool(true)),
            not_equals: None,
        }]),
    };
    let target = step("b", None);
    assert_eq!(
        enforce_guards(&graph, &target, &[]),
        Err(GuardFailure::Unresolved { step_id: "b".to_owned(), field: "a.ok".to_owned() })
    );
    let runs = vec![StepRun {
        step_id: "a".to_owned(),
        outputs: object(vec![("ok", JsonValue::Bool(false))]),
    }];
    assert!(matches!(
        enforce_guards(&graph, &target, &runs),
        Err(GuardFailure::Expected { .. })
    ));
    let passing = vec![StepRun {
        step_id: "a".to_owned(),
        outputs: object(vec![("ok", JsonValue::Bool(true))]),
    }];
    assert_eq!(enforce_guards(&graph, &target, &passing), Ok(()));
    assert_eq!(enforce_guards(&graph, &step("a", None), &[]), Ok(()));
}

#[test]
fn budgets_and_cursors() {
    let mut retrying = step("a", None);
    assert!(retry_budget_remaining(&retrying, 0));
    assert!(!retry_budget_remaining(&retrying, 1));
    retrying.retry_max_attempts = Some(u64::MAX);
    assert!(retry_budget_remaining(&retrying, u32::MAX - 1));
    assert!(!retry_budget_remaining(&retrying, u32::MAX));
    assert!(reached_step_limit(3, 5, Some(2)));
    assert!(!reached_step_limit(5, 3, Some(1)));
    assert!(!reached_step_limit(0, 100, None));

    let mut graph = conditional_graph();
    graph.steps[1].fanout_group = Some("g".to_owned());
    let states = vec![
        StepState { step_id: "source".to_owned(), status: GraphStepStatus::Succeeded },
        StepState { step_id: "inspect".to_owned(), status: GraphStepStatus::Succeeded },
        StepState { step_id: "reject".to_owned(), status: GraphStepStatus::Pending },
    ];
    assert_eq!(terminal_prefix_cursor(&graph, &states, &vec![], 0), 1);
    let sync = vec![SyncPoint { group_id: "g".to_owned(), proceed: true }];
    assert_eq!(terminal_prefix_cursor(&graph, &states, &sync, 0), 2);
    assert_eq!(checkpoint_planning_cursor(&graph, &states, &sync), Ok(2));
    let running = vec![StepState { step_id: "source".to_owned(), status: GraphStepStatus::Running }];
    assert_eq!(
        checkpoint_planning_cursor(&graph, &running, &sync),
        Err("source".to_owned())
    );
}
