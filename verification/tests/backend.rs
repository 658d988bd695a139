use ace_proxy::backend::{
    actions_after_start, configure_process_resources, configure_process_resources_unix,
    finish_notification, must_kill, BackendInstance, BackendState, NotificationOutcome,
    ProcessAction, ProcessStatus, RequestOutcome, SpawnOutcome, StreamSetup,
    WaitOutcome,
};
use ace_proxy::config::Config;
use ace_proxy::error::ProxyError;
use ace_proxy::jsonrpc::{JsonRpcError, JsonRpcId, JsonRpcRequest, JsonRpcResponse};
use ace_proxy::path::FilePath;
use ace_proxy::pending::{
    next_proxy_id, proxy_id_of, to_wire, Delivery, PendingRequest, PendingTable, ProxyIdCounter,
    BACKEND_GONE,
};
use ace_proxy::pipeline::{frame_message, message_in_line, ReaderAction, ReaderEvent};
use ace_proxy::retry::{RetryEvent, RetryLoop, RetryStep};

type Backend = BackendInstance<&'static str>;

fn config() -> Config {
    let mut config = Config::default();
    config.node = Some(FilePath::from_text("/usr/bin/node"));
    config.auggie_entry = Some(FilePath::from_text("/opt/augment.mjs"));
    config
}

fn started() -> SpawnOutcome {
    SpawnOutcome::Started { pid: Some(77), stdin: true, stdout: true }
}

fn backend() -> Backend {
    match Backend::spawn(&config(), FilePath::from_text("/w/project"), started(), true, 1000) {
        Ok(backend) => backend,
        Err(_) => panic!("the backend starts"),
    }
}

fn request(id: Option<JsonRpcId>) -> JsonRpcRequest<u32> {
    JsonRpcRequest {
        jsonrpc: "2.0".to_string(),
        id,
        method: "tools/call".to_string(),
        params: Some(9),
    }
}

fn response(id: Option<JsonRpcId>) -> JsonRpcResponse<u32> {
    JsonRpcResponse { jsonrpc: "2.0".to_string(), id, result: Some(5), error: None }
}

fn number(id: &Option<JsonRpcId>) -> Option<i64> {
    match id {
        Some(JsonRpcId::Number(n)) => Some(*n),
        _ => None,
    }
}

fn described(error: &ProxyError) -> String {
    let kind = match error {
        ProxyError::ConfigError(_) => "config",
        ProxyError::BackendSpawnFailed(_) => "spawn",
        ProxyError::BackendUnavailable(_) => "unavailable",
        ProxyError::RoutingFailed(_) => "routing",
        ProxyError::BackendTimeout(_) => "timeout",
        ProxyError::JobObjectError(_) => "job",
        ProxyError::JsonError(_) => "json",
    };
    format!("{}: {}", kind, error.message())
}

fn failure<V>(result: Result<V, ProxyError>) -> String {
    match result {
        Ok(_) => panic!("an error is expected"),
        Err(error) => described(&error),
    }
}

#[test]
fn test_backend_state_transitions() {
    assert_eq!(BackendState::Ready, BackendState::Ready);
    assert_ne!(BackendState::Ready, BackendState::Dead);
    assert_ne!(BackendState::Stopping, BackendState::Dead);
}

#[test]
fn test_proxy_id_generation() {
    let mut counter = ProxyIdCounter::new();
    let id1 = next_proxy_id(&mut counter);
    let id2 = next_proxy_id(&mut counter);
    assert!(id2 > id1, "Proxy IDs should be monotonically increasing");
}

#[test]
fn proxy_ids_count_from_one() {
    let mut counter = ProxyIdCounter::new();
    let ids: Vec<u64> = (0..5).map(|_| next_proxy_id(&mut counter)).collect();
    assert_eq!(ids, vec![1, 2, 3, 4, 5]);
}

#[test]
fn proxy_ids_keep_their_bits_on_the_wire() {
    for id in [0, 1, 42, i64::MAX as u64, i64::MAX as u64 + 1, u64::MAX - 1, u64::MAX] {
        assert_eq!(to_wire(id), id as i64);
        assert_eq!(proxy_id_of(&JsonRpcId::Number(to_wire(id))), id);
        assert_eq!(proxy_id_of(&JsonRpcId::String(id.to_string())), id);
    }
    assert_eq!(to_wire(u64::MAX), -1);
}

#[test]
fn text_ids_are_read_as_numbers_or_count_as_zero() {
    let read = |s: &str| proxy_id_of(&JsonRpcId::String(s.to_string()));
    assert_eq!(read("17"), 17);
    assert_eq!(read("+17"), 17);
    assert_eq!(read("007"), 7);
    for s in ["", "+", "-1", " 1", "1 ", "0x1", "one", "18446744073709551616"] {
        assert_eq!(read(s), s.parse::<u64>().unwrap_or(0), "{:?}", s);
        assert_eq!(read(s), 0, "{:?}", s);
    }
}

#[test]
fn command_names_entry_mode_and_root() {
    let mut config = config();
    config.mode = "minimal".to_string();
    let command = match Backend::build_command(&config, &FilePath::from_text("/w/project")) {
        Ok(command) => command,
        Err(_) => panic!("the command can be built"),
    };
    assert_eq!(command.program.bytes, b"/usr/bin/node".to_vec());
    let args: Vec<String> =
        command.args.into_iter().map(|arg| String::from_utf8(arg).unwrap()).collect();
    assert_eq!(
        args,
        vec!["/opt/augment.mjs", "--mcp", "-m", "minimal", "--workspace-root", "/w/project"]
    );
    assert_eq!(
        command.env,
        vec![("AUGMENT_DISABLE_AUTO_UPDATE".to_string(), "1".to_string())]
    );
    assert_eq!(command.stdin, StreamSetup::Piped);
    assert_eq!(command.stdout, StreamSetup::Piped);
    assert_eq!(command.stderr, StreamSetup::Inherited);
}

#[test]
fn command_needs_node_and_entry() {
    let root = FilePath::from_text("/w");
    let mut config = config();
    config.auggie_entry = None;
    assert_eq!(
        failure(Backend::build_command(&config, &root)),
        "config: Auggie entry path not configured"
    );
    config.node = None;
    assert_eq!(failure(Backend::build_command(&config, &root)), "config: Node path not configured");
    assert_eq!(
        failure(Backend::spawn(&config, root, started(), false, 0)),
        "config: Node path not configured"
    );
}

#[test]
fn new_backend_is_ready() {
    let mut config = config();
    config.request_timeout_seconds = 7;
    let root = FilePath::from_text("/w");
    let backend = match Backend::spawn(&config, root, started(), false, 12) {
        Ok(backend) => backend,
        Err(_) => panic!("the backend starts"),
    };
    assert_eq!(backend.state, BackendState::Ready);
    assert_eq!(backend.last_used, 12);
    assert_eq!(backend.root.bytes, b"/w".to_vec());
    assert_eq!(backend.request_timeout_seconds, 7);
    assert_eq!(backend.child_pid, Some(77));
    assert!(backend.has_child && backend.stdin_open);
    assert!(backend.writer_running && backend.reader_running);
    assert!(!backend.in_group);
    assert!(!backend.has_pending());
    assert!(!backend.is_dead());
}

#[test]
fn failed_starts_are_reported() {
    let start = |outcome: SpawnOutcome| {
        failure(Backend::spawn(&config(), FilePath::from_text("/w"), outcome, false, 0))
    };
    assert_eq!(
        start(SpawnOutcome::Failed("no such file".to_string())),
        "spawn: Failed to spawn backend: no such file"
    );
    assert_eq!(
        start(SpawnOutcome::Started { pid: None, stdin: false, stdout: false }),
        "spawn: Failed to get stdin handle"
    );
    assert_eq!(
        start(SpawnOutcome::Started { pid: None, stdin: true, stdout: false }),
        "spawn: Failed to get stdout handle"
    );
}

#[test]
fn request_travels_under_a_proxy_id_and_comes_back() {
    let mut counter = ProxyIdCounter::new();
    next_proxy_id(&mut counter);
    let mut backend = backend();
    let own_id = JsonRpcId::String("client-1".to_string());
    let (proxy_id, message) =
        match backend.send_request(&mut counter, request(Some(own_id)), "first", 2000) {
            Ok(sent) => sent,
            Err(_) => panic!("the request is taken"),
        };
    assert_eq!(proxy_id, 2);
    assert_eq!(number(&message.id), Some(2));
    assert_eq!(message.method, "tools/call");
    assert_eq!(message.params, Some(9));
    assert_eq!(backend.last_used, 2000);
    assert!(backend.has_pending());

    match backend.deliver_response(response(Some(JsonRpcId::Number(2)))) {
        Delivery::To(reply, answer) => {
            assert_eq!(reply, "first");
            assert!(matches!(answer.id, Some(JsonRpcId::String(ref s)) if s == "client-1"));
            assert_eq!(answer.result, Some(5));
        }
        _ => panic!("the answer is for the request"),
    }
    assert!(!backend.has_pending());
    assert!(matches!(
        backend.deliver_response(response(Some(JsonRpcId::Number(2)))),
        Delivery::Unknown(2)
    ));
    assert!(matches!(backend.deliver_response(response(None)), Delivery::WithoutId));
}

#[test]
fn request_is_refused_where_nothing_can_be_sent() {
    let mut counter = ProxyIdCounter::new();
    let mut backend = backend();
    assert_eq!(
        failure(backend.send_request(&mut counter, request(None), "x", 5)),
        "routing: send_request called with notification (id is None)"
    );
    backend.stdin_open = false;
    let id = Some(JsonRpcId::Number(1));
    assert_eq!(
        failure(backend.send_request(&mut counter, request(id), "x", 6)),
        "unavailable: Backend stdin not available"
    );
    assert_eq!(
        failure(backend.send_request(&mut counter, request(None), "x", 7)),
        "unavailable: Backend stdin not available"
    );
    assert_eq!(backend.last_used, 7);
    assert!(!backend.has_pending());
    assert_eq!(next_proxy_id(&mut counter), 1);
}

#[test]
fn request_ends_as_its_outcome_says() {
    let mut counter = ProxyIdCounter::new();
    let mut backend = backend();
    let mut send = |backend: &mut Backend| -> u64 {
        match backend.send_request(&mut counter, request(Some(JsonRpcId::Number(8))), "x", 0) {
            Ok((id, _)) => id,
            Err(_) => panic!("the request is taken"),
        }
    };

    let id = send(&mut backend);
    let unsent: RequestOutcome<u32> = RequestOutcome::NotSent("gone".to_string());
    assert_eq!(
        failure(backend.finish_request(id, unsent)),
        "unavailable: Failed to send to backend: gone"
    );
    assert!(backend.has_pending());
    let unwritten: RequestOutcome<u32> = RequestOutcome::NotWritten("key".to_string());
    assert_eq!(failure(backend.finish_request(id, unwritten)), "json: key");
    assert!(backend.has_pending());
    let late: RequestOutcome<u32> = RequestOutcome::TimedOut;
    assert_eq!(
        failure(backend.finish_request(id, late)),
        "timeout: Request timed out after 120 seconds"
    );
    assert!(!backend.has_pending());
    assert_eq!(backend.state, BackendState::Ready);

    let id = send(&mut backend);
    let closed: RequestOutcome<u32> = RequestOutcome::Closed;
    assert_eq!(
        failure(backend.finish_request(id, closed)),
        "unavailable: Backend response channel closed"
    );
    assert!(!backend.has_pending());
    assert!(backend.is_dead());

    match backend.finish_request(id, RequestOutcome::Response(response(None))) {
        Ok(answer) => assert_eq!(answer.result, Some(5)),
        Err(_) => panic!("the answer is handed on"),
    }
}

#[test]
fn notifications_have_no_id() {
    let mut backend = backend();
    assert!(backend.send_notification(&request(None), 3).is_ok());
    assert_eq!(backend.last_used, 3);
    assert_eq!(
        failure(backend.send_notification(&request(Some(JsonRpcId::Number(1))), 4)),
        "routing: send_notification called with request (id is Some)"
    );
    backend.stdin_open = false;
    assert_eq!(
        failure(backend.send_notification(&request(Some(JsonRpcId::Number(1))), 4)),
        "routing: send_notification called with request (id is Some)"
    );
    assert_eq!(
        failure(backend.send_notification(&request(None), 4)),
        "unavailable: Backend stdin not available"
    );
    assert!(finish_notification(NotificationOutcome::Sent).is_ok());
    assert_eq!(
        failure(finish_notification(NotificationOutcome::NotSent("full".to_string()))),
        "unavailable: Failed to send to backend: full"
    );
    assert_eq!(
        failure(finish_notification(NotificationOutcome::NotWritten("bad".to_string()))),
        "json: bad"
    );
}

#[test]
fn crash_answers_every_pending_request_once() {
    let mut table: PendingTable<u64> = PendingTable::new();
    for i in 0..500u64 {
        table.insert(i, PendingRequest { client_id: Some(JsonRpcId::Number(-(i as i64))), reply: i });
    }
    assert_eq!(table.len(), 500);
    let sent: Vec<(u64, JsonRpcResponse<u32>)> = table.fail_all();
    assert!(table.is_empty());
    assert_eq!(sent.len(), 500);
    let mut replies: Vec<u64> = sent.iter().map(|(reply, _)| *reply).collect();
    replies.sort();
    assert_eq!(replies, (0..500).collect::<Vec<u64>>());
    for (reply, answer) in sent {
        assert_eq!(number(&answer.id), Some(-(reply as i64)));
        assert!(answer.result.is_none());
        let error = answer.error.unwrap();
        assert_eq!(error.code, -32001);
        assert_eq!(error.code, BACKEND_GONE);
        assert_eq!(error.message, "Backend process terminated unexpectedly");
        assert_eq!(error.data, None);
    }
    let again: Vec<(u64, JsonRpcResponse<u32>)> = table.fail_all();
    assert!(again.is_empty());
}

#[test]
fn reader_follows_the_output_of_a_backend() {
    let mut counter = ProxyIdCounter::new();
    let mut backend = backend();
    for reply in ["a", "b"] {
        let id = Some(JsonRpcId::String(reply.to_string()));
        assert!(backend.send_request(&mut counter, request(id), reply, 0).is_ok());
    }
    let line = |s: &str| -> ReaderEvent<u32> { ReaderEvent::Line(s.to_string()) };
    assert!(matches!(backend.reader_step(line(" \t\r\n")), ReaderAction::ReadOn));
    match backend.reader_step(line("  {\"id\":1} \n")) {
        ReaderAction::Parse(message) => assert_eq!(message, "{\"id\":1}"),
        _ => panic!("the line is looked into"),
    }
    let garbage: ReaderEvent<u32> = ReaderEvent::NotParsed;
    assert!(matches!(backend.reader_step(garbage), ReaderAction::ReadOn));
    match backend.reader_step(ReaderEvent::Parsed(response(Some(JsonRpcId::String("1".into()))))) {
        ReaderAction::Answer(reply, answer) => {
            assert_eq!(reply, "a");
            assert!(matches!(answer.id, Some(JsonRpcId::String(ref s)) if s == "a"));
        }
        _ => panic!("the answer is handed on"),
    }
    assert!(matches!(
        backend.reader_step(ReaderEvent::Parsed(response(Some(JsonRpcId::Number(1))))),
        ReaderAction::ReadOn
    ));
    assert!(matches!(
        backend.reader_step(ReaderEvent::Parsed(response(None))),
        ReaderAction::ReadOn
    ));
    let ended: ReaderEvent<u32> = ReaderEvent::Ended;
    match backend.reader_step(ended) {
        ReaderAction::Stop(sent) => {
            assert_eq!(sent.len(), 1);
            assert_eq!(sent[0].0, "b");
        }
        _ => panic!("the reader stops"),
    }
    assert!(!backend.has_pending());
}

#[test]
fn framed_messages_read_back() {
    assert_eq!(frame_message("{}"), "{}\n");
    assert_eq!(message_in_line(&frame_message("{\"a\": 1}")), Some("{\"a\": 1}".to_string()));
    assert_eq!(message_in_line(&frame_message("")), None);
    assert_eq!(message_in_line("\u{3000}x y\u{85}"), Some("x y".to_string()));
}

#[test]
fn process_status_decides_whether_it_is_alive() {
    let mut b = backend();
    assert!(b.is_process_alive(ProcessStatus::Running));
    assert!(!b.is_process_alive(ProcessStatus::Unknown));
    assert_eq!(b.state, BackendState::Ready);
    assert!(!b.is_process_alive(ProcessStatus::Exited));
    assert!(b.is_dead());
    let mut b = backend();
    b.has_child = false;
    assert!(!b.is_process_alive(ProcessStatus::Exited));
    assert_eq!(b.state, BackendState::Ready);
}

#[test]
fn health_needs_a_process_a_pipe_and_life() {
    let mut b = backend();
    assert!(b.health_check(ProcessStatus::Running));
    assert!(!b.health_check(ProcessStatus::Unknown));
    b.stdin_open = false;
    assert!(!b.health_check(ProcessStatus::Running));
    assert!(b.is_dead());
    let mut b = backend();
    b.state = BackendState::Dead;
    assert!(!b.health_check(ProcessStatus::Running));
    let mut b = backend();
    assert!(!b.health_check(ProcessStatus::Exited));
    assert!(b.is_dead());
}

#[test]
fn shutdown_stops_everything_once() {
    let mut b = backend();
    let plan = b.shutdown();
    assert!(plan.stop_writer && plan.stop_reader);
    assert_eq!(plan.wait_ms, Some(5000));
    assert_eq!(b.state, BackendState::Stopping);
    assert!(!b.stdin_open && !b.has_child);
    assert_eq!(b.finish_shutdown(false), Some(77));
    assert!(b.is_dead());
    assert_eq!(b.child_pid, None);

    let plan = b.shutdown_with_timeout(10);
    assert!(!plan.stop_writer && !plan.stop_reader);
    assert_eq!(plan.wait_ms, None);
    assert_eq!(b.finish_shutdown(false), None);
    assert!(b.is_dead());

    let mut on_windows = backend();
    on_windows.shutdown();
    assert_eq!(on_windows.finish_shutdown(true), None);
    assert!(on_windows.is_dead());
    assert_eq!(on_windows.child_pid, Some(77));

    let mut alone = backend();
    alone.in_group = false;
    assert_eq!(alone.shutdown_with_timeout(250).wait_ms, Some(250));
    assert_eq!(alone.finish_shutdown(false), None);
    assert_eq!(alone.child_pid, None);
}

#[test]
fn only_a_process_that_ended_is_not_killed() {
    assert!(!must_kill(WaitOutcome::Exited));
    assert!(must_kill(WaitOutcome::Failed));
    assert!(must_kill(WaitOutcome::TimedOut));
}

#[test]
fn restart_takes_over_a_new_process() {
    let mut counter = ProxyIdCounter::new();
    let mut b = backend();
    let id = Some(JsonRpcId::Number(1));
    assert!(b.send_request(&mut counter, request(id), "lost", 0).is_ok());
    b.shutdown();
    b.finish_shutdown(false);
    let failed = SpawnOutcome::Failed("busy".to_string());
    assert_eq!(failure(b.restart(failed, 9)), "spawn: Failed to spawn backend: busy");
    assert!(b.is_dead());
    assert!(b.has_pending());
    let again = SpawnOutcome::Started { pid: Some(78), stdin: true, stdout: true };
    assert!(b.restart(again, 10).is_ok());
    assert_eq!(b.state, BackendState::Ready);
    assert_eq!(b.child_pid, Some(78));
    assert_eq!(b.last_used, 10);
    assert!(b.has_child && b.stdin_open && b.writer_running && b.reader_running);
    assert!(!b.has_pending());
    assert_eq!(b.root.bytes, b"/w/project".to_vec());
}

#[test]
fn process_that_was_taken_over_is_left_alone() {
    let mut counter = ProxyIdCounter::new();
    let mut old = backend();
    let mut new = backend();
    new.child_pid = Some(99);
    let id = Some(JsonRpcId::Number(1));
    assert!(new.send_request(&mut counter, request(id), "kept", 0).is_ok());
    old.apply_new_instance(&mut new, 50);
    assert_eq!(old.child_pid, Some(99));
    assert_eq!(old.last_used, 50);
    assert!(old.has_pending());
    assert!(new.is_dead());
    assert!(!new.has_child && !new.stdin_open && !new.has_pending());
    assert_eq!(new.child_pid, None);
}

#[test]
fn resources_follow_the_configuration() {
    let mut config = config();
    assert_eq!(configure_process_resources_unix(3, &config), vec![ProcessAction::Renice(3, 10)]);
    assert_eq!(configure_process_resources(3, &config), vec![ProcessAction::BelowNormal(3)]);
    config.low_priority = false;
    config.cpu_affinity = 6;
    assert_eq!(
        configure_process_resources_unix(3, &config),
        vec![ProcessAction::AffinityUnsupported(3)]
    );
    assert_eq!(configure_process_resources(3, &config), vec![ProcessAction::SetAffinity(3, 6)]);
    config.cpu_affinity = 0;
    assert!(configure_process_resources_unix(3, &config).is_empty());
    config.low_priority = true;
    assert_eq!(
        actions_after_start(Some(3), true, &config, false),
        vec![ProcessAction::JoinGroup(3), ProcessAction::Renice(3, 10)]
    );
    assert_eq!(
        actions_after_start(Some(3), false, &config, true),
        vec![ProcessAction::BelowNormal(3)]
    );
    assert!(actions_after_start(None, true, &config, false).is_empty());
}

fn send_error() -> Result<JsonRpcResponse<u32>, ProxyError> {
    Err(ProxyError::BackendTimeout("slow".to_string()))
}

fn attempt(step: &RetryStep<u32>) -> (&'static str, u32) {
    match step {
        RetryStep::Restart(retry) => ("restart", retry.attempt),
        RetryStep::Send(retry) => ("send", retry.attempt),
        RetryStep::Finish(_) => ("finish", 0),
    }
}

fn retry_of(step: RetryStep<u32>) -> RetryLoop {
    match step {
        RetryStep::Restart(retry) => retry,
        RetryStep::Send(retry) => retry,
        RetryStep::Finish(_) => panic!("another attempt is expected"),
    }
}

#[test]
fn failed_request_is_sent_again_after_a_restart() {
    let mut b = backend();
    let step = b.send_request_with_retry(RetryLoop::new(1), RetryEvent::Start);
    assert_eq!(attempt(&step), ("send", 0));
    let step = b.send_request_with_retry(retry_of(step), RetryEvent::Answered(send_error()));
    assert_eq!(attempt(&step), ("restart", 1));
    assert!(b.is_dead());
    let step = b.send_request_with_retry(retry_of(step), RetryEvent::Restarted(Ok(())));
    assert_eq!(attempt(&step), ("send", 1));
    b.state = BackendState::Ready;
    let step = b.send_request_with_retry(retry_of(step), RetryEvent::Answered(send_error()));
    match step {
        RetryStep::Finish(result) => assert_eq!(failure(result), "timeout: slow"),
        _ => panic!("no attempt is left"),
    }
    assert_eq!(b.state, BackendState::Ready);
}

#[test]
fn first_attempt_is_made_on_a_dead_backend_too() {
    let mut b = backend();
    b.state = BackendState::Dead;
    let step: RetryStep<u32> = b.send_request_with_retry(RetryLoop::new(0), RetryEvent::Start);
    assert_eq!(attempt(&step), ("send", 0));
    match b.send_request_with_retry(retry_of(step), RetryEvent::Answered(send_error())) {
        RetryStep::Finish(result) => assert_eq!(failure(result), "timeout: slow"),
        _ => panic!("no attempt is left"),
    }
}

#[test]
fn failed_restarts_use_up_the_attempts() {
    let mut b = backend();
    b.state = BackendState::Dead;
    let broken = || -> RetryEvent<u32> {
        RetryEvent::Restarted(Err(ProxyError::BackendSpawnFailed("broken".to_string())))
    };
    let step = b.send_request_with_retry(RetryLoop::new(2), RetryEvent::Start);
    let step = b.send_request_with_retry(retry_of(step), RetryEvent::Answered(send_error()));
    assert_eq!(attempt(&step), ("restart", 1));
    let step = b.send_request_with_retry(retry_of(step), broken());
    assert_eq!(attempt(&step), ("restart", 2));
    match b.send_request_with_retry(retry_of(step), broken()) {
        RetryStep::Finish(result) => assert_eq!(failure(result), "spawn: broken"),
        _ => panic!("no attempt is left"),
    }
}

#[test]
fn answer_ends_the_attempts() {
    let mut b = backend();
    let retry = retry_of(b.send_request_with_retry(RetryLoop::new(3), RetryEvent::Start));
    match b.send_request_with_retry(retry, RetryEvent::Answered(Ok(response(None)))) {
        RetryStep::Finish(Ok(answer)) => assert_eq!(answer.result, Some(5)),
        _ => panic!("the answer is returned"),
    }
    assert_eq!(b.state, BackendState::Ready);
}

#[test]
fn error_responses_carry_the_id() {
    let error: JsonRpcError<u32> = JsonRpcError::new(-7, "why");
    let answer = JsonRpcResponse::error(Some(JsonRpcId::Number(3)), error);
    assert_eq!(answer.jsonrpc, "2.0");
    assert_eq!(number(&answer.id), Some(3));
    assert!(answer.result.is_none());
    let error = answer.error.unwrap();
    assert_eq!((error.code, error.message.as_str()), (-7, "why"));
    assert!(request(None).is_notification());
    assert!(!request(Some(JsonRpcId::Number(0))).is_notification());
}
