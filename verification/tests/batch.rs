use auric_core::agents::AgentStatus;
use auric_core::batch::BatchState;
use auric_core::batch::PipelineAction;
use auric_core::batch::agent_channel_name;
use auric_core::batch::finish_actions;
use auric_core::batch::no_output_diagnostic;

#[test]
fn test_small_fast_chunks_wait_for_the_timer() {
    // A producer emitting small chunks faster than the batch interval:
    // nothing is flushed until the interval has passed, then everything
    // accumulated goes out in one flush.
    let mut state = BatchState::new();
    assert_eq!(state.on_chunk(b"hello ", 0), None);
    assert_eq!(state.on_chunk(b"world", 10), None);
    let flush = state.on_chunk(b"!", 33);
    assert_eq!(flush.as_deref(), Some("hello world!"));
    // after the flush the accumulator is empty: a timer tick emits nothing
    assert_eq!(state.on_timer(), None);
}

#[test]
fn test_timer_flushes_pending_text() {
    let mut state = BatchState::new();
    assert_eq!(state.on_chunk(b"partial", 0), None);
    assert_eq!(state.on_timer().as_deref(), Some("partial"));
    assert_eq!(state.on_timer(), None);
}

#[test]
fn test_oversized_chunk_flushes_immediately() {
    // More than 16 KiB arrives at once: the flush happens without waiting
    // for the timer (elapsed time 0).
    let mut state = BatchState::new();
    let big = vec![b'x'; 16385];
    let flush = state.on_chunk(&big, 0);
    assert!(flush.is_some());
    assert_eq!(flush.unwrap().len(), 16385);
}

#[test]
fn test_exactly_threshold_bytes_do_not_flush_early() {
    let mut state = BatchState::new();
    let big = vec![b'x'; 16384];
    assert_eq!(state.on_chunk(&big, 0), None);
}

#[test]
fn test_no_byte_is_dropped_across_flushes() {
    let mut state = BatchState::new();
    let mut seen = String::new();
    for (chunk, elapsed) in [(&b"ab"[..], 0u64), (b"cd", 40), (b"ef", 1), (b"gh", 100)] {
        if let Some(f) = state.on_chunk(chunk, elapsed) {
            seen.push_str(&f);
        }
    }
    if let Some(f) = state.on_timer() {
        seen.push_str(&f);
    }
    assert_eq!(seen, "abcdefgh");
}

#[test]
fn test_finish_after_output_emits_final_flush_then_status() {
    let mut state = BatchState::new();
    assert_eq!(state.on_chunk(b"tail", 0), None);
    let acts = finish_actions(state, "agent-1", "bolt", 42, &Some("/repo".to_string()));
    assert_eq!(acts.len(), 4);
    match &acts[0] {
        PipelineAction::EmitOutput(ev) => {
            assert_eq!(ev.agent_id, "agent-1");
            assert_eq!(ev.stream, "stdout");
            assert_eq!(ev.line, "tail");
            assert_eq!(ev.timestamp, 42);
            assert_eq!(ev.repo_path.as_deref(), Some("/repo"));
        }
        _ => panic!("expected the final flush first"),
    }
    match &acts[1] {
        PipelineAction::EmitRaw(channel, text) => {
            assert_eq!(channel, "terminal-out-agent-agent-1");
            assert_eq!(text, "tail");
        }
        _ => panic!("expected the raw emission second"),
    }
    match &acts[2] {
        PipelineAction::RemoveAgent(id) => assert_eq!(id, "agent-1"),
        _ => panic!("expected the registry removal third"),
    }
    match &acts[3] {
        PipelineAction::EmitStatus(ev) => {
            assert_eq!(ev.agent_id, "agent-1");
            assert_eq!(ev.status, AgentStatus::Idle);
            assert_eq!(ev.exit_code, Some(0));
            assert_eq!(ev.repo_path.as_deref(), Some("/repo"));
        }
        _ => panic!("expected the terminal status last"),
    }
}

#[test]
fn test_no_output_emits_one_diagnostic_before_status() {
    let state = BatchState::new();
    let acts = finish_actions(state, "agent-2", "crush", 7, &None);
    assert_eq!(acts.len(), 4);
    let expected = no_output_diagnostic("crush");
    match &acts[0] {
        PipelineAction::EmitRaw(channel, text) => {
            assert_eq!(channel, "terminal-out-agent-agent-2");
            assert_eq!(*text, expected);
        }
        _ => panic!("expected the raw diagnostic first"),
    }
    match &acts[1] {
        PipelineAction::EmitOutput(ev) => {
            assert_eq!(ev.stream, "stderr");
            assert_eq!(ev.line, expected);
        }
        _ => panic!("expected the stderr diagnostic second"),
    }
    let diagnostics = acts
        .iter()
        .filter(|a| matches!(a, PipelineAction::EmitOutput(ev) if ev.stream == "stderr"))
        .count();
    assert_eq!(diagnostics, 1);
    match &acts[2] {
        PipelineAction::RemoveAgent(id) => assert_eq!(id, "agent-2"),
        _ => panic!("expected the registry removal third"),
    }
    assert!(matches!(&acts[3], PipelineAction::EmitStatus(_)));
}

#[test]
fn test_produced_output_suppresses_diagnostic() {
    let mut state = BatchState::new();
    let _ = state.on_chunk(b"out", 100);
    let acts = finish_actions(state, "agent-3", "crush", 7, &None);
    assert_eq!(acts.len(), 2);
    assert!(matches!(&acts[0], PipelineAction::RemoveAgent(_)));
    assert!(matches!(&acts[1], PipelineAction::EmitStatus(_)));
}

#[test]
fn test_diagnostic_text_names_the_provider() {
    let msg = no_output_diagnostic("bolt");
    assert_eq!(
        msg,
        "\r\n\u{1b}[31mError: Agent process terminated without output. Check if 'bolt' CLI is installed.\u{1b}[0m\r\n"
    );
}

#[test]
fn test_channel_name_layout() {
    assert_eq!(agent_channel_name("agent-9"), "terminal-out-agent-agent-9");
}
