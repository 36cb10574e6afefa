use dwqc::cleanup::{batches, DELETE_BATCH};
use dwqc::job::{CmdBody, Result, ResultBody};
use dwqc::run::{Action, BrokerError, Event, Phase, RunState, Stage};

fn result_for(id: &str, status: i32, output: Option<&str>) -> ResultBody {
    ResultBody {
        job_id: id.to_string(),
        state: "done".to_string(),
        result: Result {
            status,
            worker: "worker-1".to_string(),
            body: CmdBody::new("repo".to_string(), "HEAD".to_string(), "true".to_string(), Some("control::7")),
            output: output.map(|o| o.to_string()),
        },
    }
}

fn printed(a: &Action) -> Option<String> {
    match a {
        Action::Print(s) => Some(s.clone()),
        _ => None,
    }
}

#[test]
fn two_echo_commands_complete_and_exit_zero() {
    let mut st = RunState::new();
    assert!(matches!(st.step(Event::Ack("D-a".to_string())), Action::Wait));
    assert!(matches!(st.step(Event::Ack("D-b".to_string())), Action::Wait));
    assert!(matches!(st.step(Event::SourceExhausted(2)), Action::Wait));
    assert_eq!(st.phase(), Phase::Dispatching);
    let mut out = Vec::new();
    out.push(printed(&st.step(Event::Outcome(result_for("D-b", 0, Some("b\n"))))).unwrap());
    assert!(!st.is_finished());
    out.push(printed(&st.step(Event::Outcome(result_for("D-a", 0, Some("a\n"))))).unwrap());
    assert!(st.is_finished());
    assert_eq!(st.phase(), Phase::Done);
    assert_eq!(st.exit_code(), 0);
    assert!(out.contains(&"a\n".to_string()));
    assert!(out.contains(&"b\n".to_string()));
    assert_eq!(st.cleanup_batches(DELETE_BATCH).len(), 0);
}

#[test]
fn clean_run_of_many_commands_prints_each_once() {
    let n: u64 = 25;
    let mut st = RunState::new();
    for i in 0..n {
        st.step(Event::Ack(format!("D-{}", i)));
    }
    st.step(Event::SourceExhausted(n));
    let mut outputs = 0;
    for i in (0..n).rev() {
        let a = st.step(Event::Outcome(result_for(&format!("D-{}", i), 0, Some("ok"))));
        if printed(&a).is_some() {
            outputs += 1;
        }
    }
    assert_eq!(outputs, 25);
    assert_eq!(st.total_completed, 25);
    assert_eq!(st.phase(), Phase::Done);
    assert_eq!(st.exit_code(), 0);
}

#[test]
fn nonzero_status_fails_the_run_even_when_all_complete() {
    let mut st = RunState::new();
    st.step(Event::Ack("D-1".to_string()));
    st.step(Event::Ack("D-2".to_string()));
    st.step(Event::SourceExhausted(2));
    st.step(Event::Outcome(result_for("D-1", 2, Some("boom"))));
    st.step(Event::Outcome(result_for("D-2", 0, Some("fine"))));
    assert_eq!(st.phase(), Phase::Done);
    assert_eq!(st.exit_code(), 1);
}

#[test]
fn unacked_result_is_discarded() {
    let mut st = RunState::new();
    st.step(Event::Ack("D-1".to_string()));
    let a = st.step(Event::Outcome(result_for("D-other", 0, Some("x"))));
    match a {
        Action::Discard(id) => assert_eq!(id, "D-other"),
        _ => panic!("expected the result to be dropped"),
    }
    assert_eq!(st.total_completed, 0);
    assert_eq!(st.outstanding.len(), 1);
    assert_eq!(st.exit_code(), 0);
}

#[test]
fn a_result_is_counted_once() {
    let mut st = RunState::new();
    st.step(Event::Ack("D-1".to_string()));
    assert!(printed(&st.step(Event::Outcome(result_for("D-1", 0, Some("x"))))).is_some());
    assert!(matches!(st.step(Event::Outcome(result_for("D-1", 0, Some("x")))), Action::Discard(_)));
    assert_eq!(st.total_completed, 1);
}

#[test]
fn repeated_ack_is_kept_once() {
    let mut st = RunState::new();
    st.step(Event::Ack("D-1".to_string()));
    st.step(Event::Ack("D-1".to_string()));
    assert_eq!(st.outstanding.len(), 1);
}

#[test]
fn missing_output_prints_empty() {
    let mut st = RunState::new();
    st.step(Event::Ack("D-1".to_string()));
    let a = st.step(Event::Outcome(result_for("D-1", 0, None)));
    assert_eq!(printed(&a), Some(String::new()));
}

#[test]
fn tick_reports_progress() {
    let mut st = RunState::new();
    st.step(Event::Ack("D-1".to_string()));
    st.step(Event::Ack("D-2".to_string()));
    st.step(Event::SourceExhausted(2));
    st.step(Event::Outcome(result_for("D-1", 0, Some(""))));
    match st.step(Event::Tick) {
        Action::Progress { done, total } => {
            assert_eq!(done, 1);
            assert_eq!(total, 2);
        }
        _ => panic!("expected progress"),
    }
    assert!(matches!(st.step(Event::AckClosed), Action::Wait));
}

#[test]
fn submitted_count_never_goes_down() {
    let mut st = RunState::new();
    st.step(Event::SourceExhausted(5));
    st.step(Event::SourceExhausted(3));
    assert_eq!(st.total_submitted, 5);
}

#[test]
fn late_ack_keeps_run_open() {
    let mut st = RunState::new();
    st.step(Event::SourceExhausted(1));
    assert_eq!(st.phase(), Phase::Dispatching);
    st.step(Event::Ack("D-1".to_string()));
    st.step(Event::Outcome(result_for("D-1", 0, Some("x"))));
    assert_eq!(st.phase(), Phase::Done);
}

#[test]
fn enqueue_failure_ends_run_nonzero() {
    let mut st = RunState::new();
    st.step(Event::SourceExhausted(1));
    match st.step(Event::Failure(Stage::Submission, BrokerError::Unavailable)) {
        Action::Fail(stage, e) => {
            assert_eq!(stage, Stage::Submission);
            assert_eq!(e, BrokerError::Unavailable);
        }
        _ => panic!("expected a failure"),
    }
    assert_eq!(st.fatal, Some((Stage::Submission, BrokerError::Unavailable)));
    assert!(st.is_finished());
    assert_eq!(st.phase(), Phase::Failed);
    assert_eq!(st.exit_code(), 1);
    assert_eq!(st.total_completed, 0);
    assert_eq!(st.cleanup_batches(DELETE_BATCH).len(), 0);
}

#[test]
fn abort_with_three_outstanding_deletes_them_in_one_batch() {
    let mut st = RunState::new();
    for id in ["D-1", "D-2", "D-3"] {
        st.step(Event::Ack(id.to_string()));
    }
    assert!(matches!(st.step(Event::Terminate), Action::Abort));
    assert_eq!(st.phase(), Phase::Aborted);
    assert_eq!(st.exit_code(), 1);
    let b = st.cleanup_batches(DELETE_BATCH);
    assert_eq!(b.len(), 1);
    let mut ids = b[0].clone();
    ids.sort();
    assert_eq!(ids, vec!["D-1".to_string(), "D-2".to_string(), "D-3".to_string()]);
}

#[test]
fn abort_before_any_ack_deletes_nothing() {
    let mut st = RunState::new();
    st.step(Event::Tick);
    st.step(Event::Terminate);
    assert_eq!(st.cleanup_batches(DELETE_BATCH).len(), 0);
    assert_eq!(st.exit_code(), 1);
}

#[test]
fn cleanup_with_nothing_outstanding_is_empty() {
    let mut st = RunState::new();
    st.step(Event::Ack("D-1".to_string()));
    st.step(Event::Outcome(result_for("D-1", 0, Some("x"))));
    st.step(Event::Terminate);
    assert_eq!(st.cleanup_batches(DELETE_BATCH).len(), 0);
    assert_eq!(batches(&Vec::new(), DELETE_BATCH).len(), 0);
}

#[test]
fn ten_thousand_ids_make_three_batches() {
    let ids: Vec<String> = (0..10000).map(|i| format!("D-{}", i)).collect();
    let b = batches(&ids, 4096);
    let sizes: Vec<usize> = b.iter().map(|x| x.len()).collect();
    assert_eq!(sizes, vec![4096, 4096, 1808]);
    let joined: Vec<String> = b.concat();
    assert_eq!(joined, ids);
}

#[test]
fn abort_with_ten_thousand_outstanding() {
    let mut st = RunState::new();
    for i in 0..10000 {
        st.step(Event::Ack(format!("D-{}", i)));
    }
    st.step(Event::Terminate);
    let b = st.cleanup_batches(4096);
    let sizes: Vec<usize> = b.iter().map(|x| x.len()).collect();
    assert_eq!(sizes, vec![4096, 4096, 1808]);
}

#[test]
fn batches_of_exact_multiple() {
    let ids: Vec<String> = (0..8).map(|i| format!("{}", i)).collect();
    let sizes: Vec<usize> = batches(&ids, 4).iter().map(|x| x.len()).collect();
    assert_eq!(sizes, vec![4, 4]);
}

#[test]
fn unaborted_run_has_no_cleanup() {
    let mut st = RunState::new();
    st.step(Event::Ack("D-1".to_string()));
    assert_eq!(st.cleanup_batches(DELETE_BATCH).len(), 0);
    assert_eq!(st.phase(), Phase::Collecting);
}

#[test]
fn malformed_result_fails_collection() {
    let mut st = RunState::new();
    st.step(Event::Ack("D-1".to_string()));
    match st.step(Event::Failure(Stage::Collection, BrokerError::MalformedPayload)) {
        Action::Fail(stage, e) => {
            assert_eq!(stage, Stage::Collection);
            assert_eq!(e, BrokerError::MalformedPayload);
        }
        _ => panic!("expected a failure"),
    }
    assert_eq!(st.phase(), Phase::Failed);
    assert_eq!(st.exit_code(), 1);
    assert_eq!(st.cleanup_batches(DELETE_BATCH).len(), 0);
}
