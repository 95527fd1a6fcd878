use axiomc::dap::{
    finish_launch, handle_request, DapAction, DapArguments, DapBody, DapMessage, DapRequest, DebugAdapter,
    LaunchBuild, SourceLine,
};

fn request(seq: i64, command: &str, arguments: DapArguments) -> DapRequest {
    DapRequest { seq, command: command.to_string(), arguments }
}

fn no_arguments() -> DapArguments {
    DapArguments { program: None, package: None, source_path: None, breakpoint_lines: None }
}

fn reply(action: DapAction) -> DapMessage {
    match action {
        DapAction::Reply(mut messages) => {
            assert_eq!(messages.len(), 1);
            messages.remove(0)
        }
        DapAction::Launch { .. } => panic!("expected a reply"),
    }
}

#[test]
fn adapter_answers_initialize_and_unknown_commands() {
    let mut adapter = DebugAdapter::new();
    match reply(handle_request(&mut adapter, &request(1, "initialize", no_arguments()))) {
        DapMessage::Response { seq, request_seq, success, command, body, .. } => {
            assert_eq!((seq, request_seq, success), (1, 1, true));
            assert_eq!(command, "initialize");
            assert!(matches!(body, DapBody::Capabilities));
        }
        DapMessage::Event { .. } => panic!("expected a response"),
    }
    match reply(handle_request(&mut adapter, &request(2, "evaluate", no_arguments()))) {
        DapMessage::Response { seq, success, message, .. } => {
            assert_eq!(seq, 2);
            assert!(!success);
            assert_eq!(message.as_deref(), Some("unsupported DAP command `evaluate` in stage1 adapter"));
        }
        DapMessage::Event { .. } => panic!("expected a response"),
    }
}

#[test]
fn adapter_requires_launch_program_and_breakpoint_source() {
    let mut adapter = DebugAdapter::new();
    match reply(handle_request(&mut adapter, &request(1, "launch", no_arguments()))) {
        DapMessage::Response { success, message, .. } => {
            assert!(!success);
            assert_eq!(message.as_deref(), Some("launch requires arguments.program"));
        }
        DapMessage::Event { .. } => panic!("expected a response"),
    }
    match reply(handle_request(&mut adapter, &request(2, "setBreakpoints", no_arguments()))) {
        DapMessage::Response { message, .. } => {
            assert_eq!(message.as_deref(), Some("setBreakpoints requires source.path"));
        }
        DapMessage::Event { .. } => panic!("expected a response"),
    }
}

#[test]
fn adapter_launch_starts_session_and_verifies_breakpoints() {
    let mut adapter = DebugAdapter::new();
    let mut arguments = no_arguments();
    arguments.program = Some("demo".to_string());
    let (request_seq, program, package) = match handle_request(&mut adapter, &request(1, "launch", arguments)) {
        DapAction::Launch { request_seq, program, package } => (request_seq, program, package),
        DapAction::Reply(_) => panic!("expected a launch"),
    };
    let build = LaunchBuild {
        binary: "demo/dist/demo".to_string(),
        statement_count: 3,
        debug_map: Some((
            "demo/dist/demo.debug.json".to_string(),
            Ok((
                "axiom.stage1.debug_map.v1".to_string(),
                vec![SourceLine { source: "/src/main.ax".to_string(), line: 2 }],
            )),
        )),
    };
    let messages = finish_launch(&mut adapter, request_seq, &program, &package, Ok(build));
    assert_eq!(messages.len(), 2);
    assert!(matches!(&messages[1], DapMessage::Event { seq: 2, event, .. } if event == "initialized"));
    let mut arguments = no_arguments();
    arguments.source_path = Some("/src/main.ax".to_string());
    arguments.breakpoint_lines = Some(vec![2, 5]);
    match reply(handle_request(&mut adapter, &request(2, "setBreakpoints", arguments))) {
        DapMessage::Response { seq, body: DapBody::Breakpoints(replies), .. } => {
            assert_eq!(seq, 3);
            assert!(replies[0].verified);
            assert!(!replies[1].verified);
            assert_eq!(
                replies[1].message.as_deref(),
                Some("No stage1 debug mapping exists for this source line")
            );
        }
        _ => panic!("expected breakpoints"),
    }
}
