use bpm_engine::tasks::config::TaskConfig;
use bpm_engine::tasks::context::TaskContext;
use bpm_engine::tasks::handlers::command::CommandTaskHandler;
use bpm_engine::tasks::handlers::function::FunctionTaskHandler;
use bpm_engine::tasks::handlers::{TaskHandler, TaskHandlerType};
use bpm_engine::tasks::node::NodeType;
use bpm_engine::text::decimal_string;
use bpm_engine::{ProcessBuilder, ProcessState, StrMap};

fn map_of(pairs: &[(&str, &str)]) -> StrMap<String> {
    let mut m = StrMap::new();
    for (k, v) in pairs {
        m.insert(k.to_string(), v.to_string());
    }
    m
}

#[test]
fn str_map_reads_back_writes_and_keeps_order() {
    let mut m: StrMap<usize> = StrMap::new();
    assert_eq!(m.len(), 0);
    m.insert("b".to_string(), 1);
    m.insert("a".to_string(), 2);
    m.insert("b".to_string(), 3);
    assert_eq!(m.len(), 2);
    assert_eq!(m.get("b"), Some(&3));
    assert_eq!(m.get("a"), Some(&2));
    assert_eq!(m.get("c"), None);
    assert_eq!(m.entry(0), (&"b".to_string(), &3));
    assert_eq!(m.entry(1), (&"a".to_string(), &2));
    assert!(m.contains_key("a"));
    assert_eq!(m.remove("a"), Some(2));
    assert_eq!(m.remove("a"), None);
    assert!(!m.contains_key("a"));
    assert_eq!(m.replace("b", 9), Some(3));
    assert_eq!(m.replace("z", 9), None);
    assert_eq!(m.get("b"), Some(&9));
    assert_eq!(m.len(), 1);
}

#[test]
fn str_map_copies_are_equal() {
    let m = map_of(&[("x", "1"), ("y", "2")]);
    let d = m.duplicate();
    assert_eq!(d.len(), 2);
    assert_eq!(d.entry(0), (&"x".to_string(), &"1".to_string()));
    assert_eq!(d.entry(1), (&"y".to_string(), &"2".to_string()));
    let mut c: StrMap<usize> = StrMap::new();
    c.insert("k".to_string(), 7);
    assert_eq!(c.copied().get("k"), Some(&7));
}

#[test]
fn context_set_then_get() {
    let mut ctx = TaskContext { variables: StrMap::new() };
    assert_eq!(ctx.get("a"), None);
    ctx.set("a".to_string(), "1".to_string());
    ctx.set("b".to_string(), "2".to_string());
    ctx.set("a".to_string(), "3".to_string());
    assert_eq!(ctx.get("a"), Some(&"3".to_string()));
    assert_eq!(ctx.get("b"), Some(&"2".to_string()));
}

#[test]
fn new_task_config_is_empty() {
    let c = TaskConfig::new();
    assert!(c.command.is_none() && c.url.is_none() && c.method.is_none());
    assert!(c.args.is_empty());
    assert_eq!(c.input_mappings.len(), 0);
    assert_eq!(c.output_mappings.len(), 0);
}

#[test]
fn prepare_substitutes_arguments() {
    let ctx = TaskContext { variables: map_of(&[("name", "world"), ("empty", "")]) };
    let mut config = TaskConfig::new();
    config.command = Some("echo".to_string());
    config.args = vec!["${name}", "${missing}", "x${name}", "${name", "${empty}", "${}"]
        .into_iter()
        .map(|s| s.to_string())
        .collect();
    let req = CommandTaskHandler.prepare(&ctx, &config).unwrap();
    assert_eq!(req.program, "echo");
    assert_eq!(req.args, vec!["world", "${missing}", "x${name}", "${name", "", "${}"]);
}

#[test]
fn prepare_without_command_fails() {
    let ctx = TaskContext { variables: StrMap::new() };
    let err = CommandTaskHandler.prepare(&ctx, &TaskConfig::new()).unwrap_err();
    assert_eq!(err, "No command specified");
}

#[test]
fn command_output_lines_set_variables() {
    let stdout = "Starting...\nVAR:user_id=12345\n  VAR: user name = John Doe  \nkey=value\nlog line with = sign\nbad key=1\nVAR:=nothing\nd==e\nVAR:x=1\nVAR:x=2\r\nplain\nk=a b\n";
    let out = CommandTaskHandler.build_output(stdout.to_string(), "warn".to_string(), Some(0), true);
    let v = &out.variables;
    assert!(out.success);
    assert!(out.message.is_none());
    assert_eq!(v.get("stdout"), Some(&stdout.to_string()));
    assert_eq!(v.get("stderr"), Some(&"warn".to_string()));
    assert_eq!(v.get("exit_code"), Some(&"0".to_string()));
    assert_eq!(v.get("user_id"), Some(&"12345".to_string()));
    assert_eq!(v.get("user name"), Some(&"John Doe".to_string()));
    assert_eq!(v.get("key"), Some(&"value".to_string()));
    assert_eq!(v.get("log line with"), None);
    assert_eq!(v.get("bad key"), None);
    assert_eq!(v.get(""), None);
    assert_eq!(v.get("d"), Some(&"=e".to_string()));
    assert_eq!(v.get("x"), Some(&"2".to_string()));
    assert_eq!(v.get("k"), Some(&"a b".to_string()));
    assert_eq!(v.len(), 9);
}

#[test]
fn command_output_can_replace_builtin_variables() {
    let out = CommandTaskHandler.build_output("stdout=short\n".to_string(), String::new(), Some(1), false);
    assert_eq!(out.variables.get("stdout"), Some(&"short".to_string()));
    assert!(!out.success);
    assert_eq!(out.message, Some(String::new()));
}

#[test]
fn exit_code_is_written_in_decimal() {
    let out = CommandTaskHandler.build_output(String::new(), "boom".to_string(), None, false);
    assert_eq!(out.variables.get("exit_code"), Some(&"-1".to_string()));
    assert_eq!(out.message, Some("boom".to_string()));
    assert_eq!(decimal_string(0), "0");
    assert_eq!(decimal_string(255), "255");
    assert_eq!(decimal_string(-3), "-3");
    assert_eq!(decimal_string(i32::MIN), "-2147483648");
    assert_eq!(decimal_string(i32::MAX), "2147483647");
}

#[test]
fn function_handler_maps_result() {
    let ok = FunctionTaskHandler {
        func: |ctx: &TaskContext| -> Result<StrMap<String>, String> {
            let mut m = StrMap::new();
            m.insert("seen".to_string(), ctx.get("in").cloned().unwrap_or_default());
            Ok(m)
        },
    };
    let ctx = TaskContext { variables: map_of(&[("in", "v")]) };
    let out = ok.execute(&ctx, &TaskConfig::new()).unwrap();
    assert!(out.success);
    assert!(out.message.is_none());
    assert_eq!(out.variables.get("seen"), Some(&"v".to_string()));

    let failing = FunctionTaskHandler { func: |_: &TaskContext| -> Result<StrMap<String>, String> { Err("nope".to_string()) } };
    let out = failing.execute(&ctx, &TaskConfig::new()).unwrap();
    assert!(!out.success);
    assert_eq!(out.message, Some("nope".to_string()));
    assert_eq!(out.variables.len(), 0);
}

#[test]
fn state_names_round_trip() {
    for s in [ProcessState::Running, ProcessState::Completed, ProcessState::Failed] {
        assert_eq!(ProcessState::from_stored_name(&s.stored_name()), s);
    }
    assert_eq!(ProcessState::Running.stored_name(), "Running");
    assert_eq!(ProcessState::Completed.stored_name(), "Completed");
    assert_eq!(ProcessState::from_stored_name("garbage"), ProcessState::Failed);
}

#[test]
fn build_requires_a_start_node() {
    let err = ProcessBuilder::new("p").add_task("t", "T").build().unwrap_err();
    assert_eq!(err, "Process must have a start node");
    let def = ProcessBuilder::new("p").add_start("a").add_start("b").build().unwrap();
    assert_eq!(def.id, "p");
    assert_eq!(def.start_node_id, "b");
    assert_eq!(def.nodes.len(), 2);
}

#[test]
fn builder_nodes_edges_and_mappings() {
    let b = ProcessBuilder::new("p")
        .add_start("s")
        .add_command_task("c", "Cmd", "ls", vec!["-l", "${dir}"])
        .add_exclusive_gateway("g")
        .connect("s", "c")
        .connect("s", "g")
        .connect("missing", "s")
        .set_output_mapping("c", "stdout", "listing")
        .set_output_mapping("s", "stdout", "ignored")
        .set_output_mapping("missing", "a", "b");
    assert_eq!(b.start_node_id, Some("s".to_string()));
    let s = b.nodes.get("s").unwrap();
    assert_eq!(s.outgoing, vec!["c", "g"]);
    assert!(matches!(s.node_type, NodeType::Start));
    let c = b.nodes.get("c").unwrap();
    assert!(c.outgoing.is_empty());
    match &c.node_type {
        NodeType::Task { name, handler_type, config } => {
            assert_eq!(name, "Cmd");
            assert_eq!(*handler_type, TaskHandlerType::Command);
            assert_eq!(config.command, Some("ls".to_string()));
            assert_eq!(config.args, vec!["-l", "${dir}"]);
            assert_eq!(config.output_mappings.get("stdout"), Some(&"listing".to_string()));
            assert_eq!(config.output_mappings.len(), 1);
        }
        _ => panic!("not a task"),
    }
    assert!(matches!(b.nodes.get("g").unwrap().node_type, NodeType::ExclusiveGateway));
    assert!(b.nodes.get("missing").is_none());
    assert_eq!(b.nodes.len(), 3);
}

#[test]
fn multi_variable_output_sets_six_variables() {
    let stdout = "Starting user fetch...\nVAR:user_id=12345\nFetching details...\nVAR:user_name=John Doe\nVAR:user_email=john@example.com\nDone!\n";
    let out = CommandTaskHandler.build_output(stdout.to_string(), String::new(), Some(0), true);
    assert_eq!(out.variables.len(), 6);
    assert_eq!(out.variables.get("user_id"), Some(&"12345".to_string()));
    assert_eq!(out.variables.get("user_name"), Some(&"John Doe".to_string()));
    assert_eq!(out.variables.get("user_email"), Some(&"john@example.com".to_string()));
    assert_eq!(out.variables.get("exit_code"), Some(&"0".to_string()));
}

#[test]
fn cloned_map_keeps_keys_and_values() {
    let m = map_of(&[("a", "1"), ("b", "2")]);
    let c = m.clone();
    assert_eq!(c.len(), 2);
    assert_eq!(c.entry(0), (&"a".to_string(), &"1".to_string()));
    assert_eq!(c.entry(1), (&"b".to_string(), &"2".to_string()));
}
