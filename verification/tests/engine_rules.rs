use bpm_engine::tasks::handlers::command::CommandTaskHandler;
use bpm_engine::{ProcessBuilder, ProcessEngine, ProcessState};

fn deployed(builder: ProcessBuilder) -> ProcessEngine {
    let mut engine = ProcessEngine::new();
    engine.deploy(builder.build().expect("build failed"));
    engine
}

#[test]
fn start_of_undeployed_definition_fails() {
    let mut engine = ProcessEngine::new();
    assert_eq!(engine.start_process("nope"), Err("Process definition 'nope' not found".to_string()));
}

#[test]
fn execute_of_missing_instance_fails() {
    let mut engine = ProcessEngine::new();
    assert_eq!(engine.execute_instance("ghost"), Err("Instance 'ghost' not found".to_string()));
}

#[test]
fn advance_of_missing_instance_fails() {
    let mut engine = ProcessEngine::new();
    assert_eq!(engine.advance_token("ghost", &["a".to_string()]), Err("Instance not found".to_string()));
}

#[test]
fn token_at_missing_node_fails_and_leaves_instance_running() {
    let mut engine = deployed(ProcessBuilder::new("p").add_start("start").connect("start", "nowhere"));
    let err = engine.start_process("p").unwrap_err();
    assert_eq!(err, "Node 'nowhere' not found");
}

#[test]
fn instantiate_creates_instance_at_start_without_running() {
    let mut engine = ProcessEngine::new();
    engine.deploy(ProcessBuilder::new("p").add_start("s").build().unwrap());
    assert_eq!(engine.instantiate("p", "i1".to_string()), Ok("i1".to_string()));
    let inst = engine.get_instance("i1").unwrap();
    assert_eq!(inst.id, "i1");
    assert_eq!(inst.process_def_id, "p");
    assert_eq!(inst.current_node_ids, vec!["s"]);
    assert_eq!(inst.active_tokens, 1);
    assert_eq!(inst.state, ProcessState::Running);
    assert_eq!(inst.variables.len(), 0);
    assert_eq!(
        engine.instantiate("q", "i2".to_string()),
        Err("Process definition 'q' not found".to_string())
    );
    assert!(engine.get_instance("i2").is_none());
    // The start node leads nowhere: its token is used up.
    assert_eq!(engine.execute_instance("i1"), Ok(()));
    assert!(engine.get_instance("i1").unwrap().current_node_ids.is_empty());
    assert_eq!(engine.get_active_tokens("i1"), Some(1));
}

#[test]
fn exclusive_gateway_takes_first_path_and_completes() {
    let mut engine = deployed(
        ProcessBuilder::new("x")
            .add_start("start")
            .add_exclusive_gateway("gw")
            .add_task("a", "A")
            .add_task("b", "B")
            .add_end("end")
            .connect("start", "gw")
            .connect("gw", "a")
            .connect("gw", "b")
            .connect("a", "end")
            .connect("b", "end"),
    );
    let id = engine.start_process("x").unwrap();
    assert_eq!(engine.get_instance_state(&id), Some(&ProcessState::Completed));
    assert_eq!(engine.get_active_tokens(&id), Some(0));
    assert!(engine.get_instance(&id).unwrap().current_node_ids.is_empty());
}

#[test]
fn join_without_all_paths_waits() {
    // The exclusive gateway sends one token to a join that expects two.
    let mut engine = deployed(
        ProcessBuilder::new("w")
            .add_start("start")
            .add_exclusive_gateway("gw")
            .add_task("a", "A")
            .add_task("b", "B")
            .add_parallel_gateway("join")
            .add_end("end")
            .connect("start", "gw")
            .connect("gw", "a")
            .connect("gw", "b")
            .connect("a", "join")
            .connect("b", "join")
            .connect("join", "end"),
    );
    let id = engine.start_process("w").unwrap();
    assert_eq!(engine.get_instance_state(&id), Some(&ProcessState::Running));
    assert_eq!(engine.get_join_counter(&id, "join"), Some(1));
    assert_eq!(engine.get_active_tokens(&id), Some(1));
}

#[test]
fn fork_into_three_adds_two_tokens() {
    let mut engine = deployed(
        ProcessBuilder::new("f")
            .add_start("start")
            .add_parallel_gateway("fork")
            .add_task("a", "A")
            .add_task("b", "B")
            .add_task("c", "C")
            .connect("start", "fork")
            .connect("fork", "a")
            .connect("fork", "b")
            .connect("fork", "c"),
    );
    let id = engine.start_process("f").unwrap();
    // The tasks lead nowhere: their tokens are used up, the paths stay counted.
    assert_eq!(engine.get_active_tokens(&id), Some(3));
    assert_eq!(engine.get_instance_state(&id), Some(&ProcessState::Running));
}

#[test]
fn advance_token_queues_in_order_and_counts_splits() {
    let mut engine = ProcessEngine::new();
    engine.deploy(ProcessBuilder::new("p").add_start("s").build().unwrap());
    engine.instantiate("p", "i".to_string()).unwrap();
    let next = vec!["a".to_string(), "b".to_string(), "c".to_string()];
    assert_eq!(engine.advance_token("i", &next), Ok(()));
    let inst = engine.get_instance("i").unwrap();
    assert_eq!(inst.current_node_ids, vec!["s", "a", "b", "c"]);
    assert_eq!(inst.active_tokens, 3);
    assert_eq!(engine.advance_token("i", &["d".to_string()]), Ok(()));
    assert_eq!(engine.get_active_tokens("i"), Some(3));
}

#[test]
fn completed_instance_is_left_alone() {
    let mut engine = deployed(ProcessBuilder::new("p").add_start("s").add_end("e").connect("s", "e"));
    let id = engine.start_process("p").unwrap();
    assert_eq!(engine.get_instance_state(&id), Some(&ProcessState::Completed));
    engine.advance_token(&id, &["s".to_string()]).unwrap();
    assert_eq!(engine.execute_instance(&id), Ok(()));
    assert_eq!(engine.get_instance(&id).unwrap().current_node_ids, vec!["s"]);
    assert_eq!(engine.get_instance_state(&id), Some(&ProcessState::Completed));
}

#[test]
fn generated_instance_ids_have_the_uuid_shape() {
    let mut engine = deployed(ProcessBuilder::new("p").add_start("s"));
    let a = engine.start_process("p").unwrap();
    let b = engine.start_process("p").unwrap();
    assert_ne!(a, b);
    for id in [&a, &b] {
        assert!(id.starts_with("instance_"));
        let u: Vec<char> = id["instance_".len()..].chars().collect();
        assert_eq!(u.len(), 36);
        for (i, c) in u.iter().enumerate() {
            if i == 8 || i == 13 || i == 18 || i == 23 {
                assert_eq!(*c, '-');
            } else {
                assert!(c.is_ascii_hexdigit() && !c.is_ascii_uppercase());
            }
        }
        assert_eq!(u[14], '4');
        assert!("89ab".contains(u[19]));
    }
    let id2 = bpm_engine::ids::new_instance_id();
    assert_ne!(id2, "instance_");
    assert_eq!(id2.len(), 45);
}

#[test]
fn command_task_awaits_its_result_then_maps_output() {
    let mut engine = deployed(
        ProcessBuilder::new("c")
            .add_start("start")
            .add_command_task("first", "First", "printer", vec!["x"])
            .set_output_mapping("first", "greeting", "message")
            .set_output_mapping("first", "exit_code", "code")
            .add_command_task("second", "Second", "echo", vec!["${message}", "${unknown}", "plain"])
            .add_end("end")
            .connect("start", "first")
            .connect("first", "second")
            .connect("second", "end"),
    );
    let id = engine.start_process("c").unwrap();
    assert_eq!(engine.get_instance_state(&id), Some(&ProcessState::Running));
    let pending = engine.get_instance(&id).unwrap().pending_task.as_ref().unwrap();
    assert_eq!(pending.node_id, "first");
    assert_eq!(pending.request.program, "printer");
    assert_eq!(pending.request.args, vec!["x"]);
    // While the task is pending, running the instance does nothing.
    assert_eq!(engine.execute_instance(&id), Ok(()));
    assert!(engine.get_instance(&id).unwrap().pending_task.is_some());

    let out = CommandTaskHandler.build_output("VAR:greeting=hi there\n".to_string(), String::new(), Some(3), false);
    assert_eq!(engine.resume_task(&id, Ok(out)), Ok(()));
    let vars = engine.get_instance_variables(&id).unwrap();
    assert_eq!(vars.get("message"), Some(&"hi there".to_string()));
    assert_eq!(vars.get("code"), Some(&"3".to_string()));
    assert_eq!(engine.execute_instance(&id), Ok(()));
    let pending = engine.get_instance(&id).unwrap().pending_task.as_ref().unwrap();
    assert_eq!(pending.node_id, "second");
    assert_eq!(pending.request.args, vec!["hi there", "${unknown}", "plain"]);

    let out = CommandTaskHandler.build_output(String::new(), String::new(), Some(0), true);
    engine.resume_task(&id, Ok(out)).unwrap();
    engine.execute_instance(&id).unwrap();
    assert_eq!(engine.get_instance_state(&id), Some(&ProcessState::Completed));
}

#[test]
fn failed_command_run_consumes_token_and_reports() {
    let mut engine = deployed(
        ProcessBuilder::new("c")
            .add_start("start")
            .add_command_task("t", "T", "missing-program", vec![])
            .add_end("end")
            .connect("start", "t")
            .connect("t", "end"),
    );
    let id = engine.start_process("c").unwrap();
    let r = engine.resume_task(&id, Err("Failed to execute command: not found".to_string()));
    assert_eq!(r, Err("Failed to execute command: not found".to_string()));
    let inst = engine.get_instance(&id).unwrap();
    assert!(inst.pending_task.is_none());
    assert!(inst.current_node_ids.is_empty());
    assert_eq!(inst.state, ProcessState::Running);
    assert_eq!(
        engine.resume_task(&id, Err("x".to_string())),
        Err(format!("Instance '{}' has no task awaiting a result", id))
    );
    assert_eq!(
        engine.resume_task("ghost", Err("x".to_string())),
        Err("Instance 'ghost' not found".to_string())
    );
}

#[test]
fn range_check_accepts_ordinary_runs() {
    let mut engine = deployed(ProcessBuilder::new("p").add_start("s").add_end("e").connect("s", "e"));
    engine.instantiate("p", "i".to_string()).unwrap();
    assert!(engine.run_stays_in_range("i"));
    assert!(engine.run_stays_in_range("missing"));
}

#[test]
fn range_check_flags_a_count_below_zero() {
    // A token queued by hand is not counted as a path; the join then merges
    // one path too many and the end would take the count below zero.
    let mut engine = deployed(
        ProcessBuilder::new("q")
            .add_start("s")
            .add_task("b", "B")
            .add_parallel_gateway("j")
            .add_end("e")
            .connect("s", "j")
            .connect("b", "j")
            .connect("j", "e"),
    );
    engine.instantiate("q", "k".to_string()).unwrap();
    engine.advance_token("k", &["j".to_string()]).unwrap();
    assert_eq!(engine.get_active_tokens("k"), Some(1));
    assert!(!engine.run_stays_in_range("k"));
}

#[test]
fn task_output_is_applied_before_the_token_moves_on() {
    let mut engine = deployed(
        ProcessBuilder::new("c")
            .add_start("start")
            .add_command_task("t", "T", "prog", vec![])
            .set_output_mapping("t", "a", "x")
            .set_output_mapping("t", "b", "y")
            .add_end("end")
            .connect("start", "t")
            .connect("t", "end"),
    );
    let id = engine.start_process("c").unwrap();
    let out = CommandTaskHandler.build_output("a=1\n".to_string(), String::new(), Some(0), true);
    assert_eq!(engine.apply_task_output(&id, &out), Ok(()));
    let inst = engine.get_instance(&id).unwrap();
    assert_eq!(inst.variables.get("x"), Some(&"1".to_string()));
    assert_eq!(inst.variables.get("y"), None);
    assert!(inst.pending_task.is_some());
    assert!(inst.current_node_ids.is_empty());
    assert_eq!(engine.advance_pending(&id), Ok(()));
    let inst = engine.get_instance(&id).unwrap();
    assert!(inst.pending_task.is_none());
    assert_eq!(inst.current_node_ids, vec!["end"]);
    assert_eq!(
        engine.advance_pending(&id),
        Err(format!("Instance '{}' has no task awaiting a result", id))
    );
    assert_eq!(engine.apply_task_output("ghost", &out), Err("Instance 'ghost' not found".to_string()));
    engine.execute_instance(&id).unwrap();
    assert_eq!(engine.get_instance_state(&id), Some(&ProcessState::Completed));
}

#[test]
fn running_again_changes_nothing() {
    let mut engine = deployed(
        ProcessBuilder::new("w")
            .add_start("start")
            .add_exclusive_gateway("gw")
            .add_task("a", "A")
            .add_task("b", "B")
            .add_parallel_gateway("join")
            .connect("start", "gw")
            .connect("gw", "a")
            .connect("gw", "b")
            .connect("a", "join")
            .connect("b", "join"),
    );
    let id = engine.start_process("w").unwrap();
    let before = format!("{:?}", engine.get_instance(&id).unwrap());
    assert_eq!(engine.execute_instance(&id), Ok(()));
    assert_eq!(format!("{:?}", engine.get_instance(&id).unwrap()), before);
}

#[test]
fn three_way_fork_and_join_completes() {
    let mut engine = deployed(
        ProcessBuilder::new("p")
            .add_start("s")
            .add_parallel_gateway("f")
            .add_task("a", "A")
            .add_task("b", "B")
            .add_task("c", "C")
            .add_parallel_gateway("j")
            .add_end("x")
            .connect("s", "f")
            .connect("f", "a")
            .connect("f", "b")
            .connect("f", "c")
            .connect("a", "j")
            .connect("b", "j")
            .connect("c", "j")
            .connect("j", "x"),
    );
    engine.instantiate("p", "i".to_string()).unwrap();
    assert_eq!(engine.execute_instance("i"), Ok(()));
    assert_eq!(engine.get_instance_state("i"), Some(&ProcessState::Completed));
    assert_eq!(engine.get_active_tokens("i"), Some(0));
    assert_eq!(engine.get_join_counter("i", "j"), None);
    let inst = engine.get_instance("i").unwrap();
    assert_eq!(inst.join_counters.len(), 0);
    assert!(inst.current_node_ids.is_empty());
    assert!(inst.pending_task.is_none());
}
