use httplatencies::aggregate::{latency_millis, AggregationError, Aggregator};
use httplatencies::probe::{MeasurementBatch, ProbeAction, ProbeEvent, ProbeOutcome, ProbeTask};

/// What the target answers to each request.
#[derive(Clone, Copy)]
enum Answer {
    Fine(u64),
    Status,
    Refused,
}

/// Runs one worker against scripted answers, as the runtime would, and returns
/// the batches it handed over and the actions it asked for.
fn drive(task_number: u32, probe_count: u32, jitter: u64, answers: &[Answer]) -> (Vec<MeasurementBatch>, Vec<ProbeAction>) {
    let mut task = ProbeTask::new(task_number, probe_count, jitter);
    let mut batches = Vec::new();
    let mut actions = vec![task.pending()];
    let mut next = 0usize;
    loop {
        let event = match *actions.last().unwrap() {
            ProbeAction::AwaitBarrier => ProbeEvent::BarrierReleased,
            ProbeAction::Sleep { .. } => ProbeEvent::SleepElapsed,
            ProbeAction::Request => {
                let a = answers[next];
                next += 1;
                match a {
                    Answer::Fine(ms) => ProbeEvent::Success { secs: ms / 1000, subsec_nanos: ((ms % 1000) * 1_000_000) as u32 },
                    Answer::Status => ProbeEvent::Rejected { message: "status code not OK: 500".to_string() },
                    Answer::Refused => ProbeEvent::TransportFailure { message: "connection refused".to_string() },
                }
            }
            ProbeAction::Stop => break,
        };
        let step = task.step(event);
        if let Some(b) = step.flush {
            batches.push(b);
        }
        actions.push(step.action);
    }
    assert!(task.is_terminated());
    (batches, actions)
}

fn count(batches: &[MeasurementBatch]) -> usize {
    batches.iter().map(|b| b.outcomes.len()).sum()
}

#[test]
fn worker_paces_and_stops() {
    let (batches, actions) = drive(2, 3, 500, &[Answer::Fine(5), Answer::Fine(6), Answer::Fine(7)]);
    assert_eq!(
        actions,
        vec![
            ProbeAction::AwaitBarrier,
            ProbeAction::Sleep { nanos: 500 },
            ProbeAction::Request,
            ProbeAction::Sleep { nanos: 1_000_000_000 },
            ProbeAction::Request,
            ProbeAction::Sleep { nanos: 1_000_000_000 },
            ProbeAction::Request,
            ProbeAction::Stop,
        ]
    );
    assert_eq!(batches.len(), 1);
    assert_eq!(batches[0].task_number, 2);
    assert_eq!(batches[0].outcomes.len(), 3);
    assert!(matches!(batches[0].outcomes[1], ProbeOutcome::Latency { secs: 0, subsec_nanos: 6_000_000 }));
}

#[test]
fn batches_hold_at_most_ten() {
    let answers = vec![Answer::Fine(1); 25];
    let (batches, _) = drive(0, 25, 0, &answers);
    let sizes: Vec<usize> = batches.iter().map(|b| b.outcomes.len()).collect();
    assert_eq!(sizes, vec![10, 10, 5]);
    let answers = vec![Answer::Fine(1); 20];
    let (batches, _) = drive(0, 20, 0, &answers);
    let sizes: Vec<usize> = batches.iter().map(|b| b.outcomes.len()).collect();
    assert_eq!(sizes, vec![10, 10]);
}

#[test]
fn bad_status_does_not_stop_worker() {
    let (batches, _) = drive(1, 4, 0, &[Answer::Status, Answer::Fine(3), Answer::Status, Answer::Fine(4)]);
    assert_eq!(count(&batches), 4);
    let failures = batches[0].outcomes.iter().filter(|o| matches!(o, ProbeOutcome::Failure { .. })).count();
    assert_eq!(failures, 2);
}

#[test]
fn transport_failure_ends_worker() {
    let answers = [Answer::Fine(1), Answer::Fine(1), Answer::Refused, Answer::Fine(1), Answer::Fine(1)];
    let (batches, actions) = drive(0, 5, 0, &answers);
    assert_eq!(count(&batches), 3);
    assert_eq!(batches.len(), 1);
    assert!(matches!(&batches[0].outcomes[2], ProbeOutcome::Failure { message } if message == "connection refused"));
    assert_eq!(actions.iter().filter(|a| **a == ProbeAction::Request).count(), 3);
    assert_eq!(*actions.last().unwrap(), ProbeAction::Stop);
}

#[test]
fn transport_failure_after_a_full_batch() {
    let mut answers = vec![Answer::Fine(1); 10];
    answers.push(Answer::Refused);
    answers.extend(vec![Answer::Fine(1); 5]);
    let (batches, _) = drive(0, 16, 0, &answers);
    let sizes: Vec<usize> = batches.iter().map(|b| b.outcomes.len()).collect();
    assert_eq!(sizes, vec![10, 1]);
}

#[test]
fn zero_probes_sends_nothing() {
    let (batches, actions) = drive(0, 0, 7, &[]);
    assert!(batches.is_empty());
    assert_eq!(actions, vec![ProbeAction::AwaitBarrier, ProbeAction::Sleep { nanos: 7 }, ProbeAction::Stop]);
}

#[test]
fn unexpected_event_changes_nothing() {
    let mut task = ProbeTask::new(0, 2, 9);
    let step = task.step(ProbeEvent::SleepElapsed);
    assert!(step.flush.is_none());
    assert_eq!(step.action, ProbeAction::AwaitBarrier);
    let step = task.step(ProbeEvent::Success { secs: 0, subsec_nanos: 0 });
    assert!(step.flush.is_none());
    assert_eq!(step.action, ProbeAction::AwaitBarrier);
    assert_eq!(task.step(ProbeEvent::BarrierReleased).action, ProbeAction::Sleep { nanos: 9 });
}

#[test]
fn millis_round_down() {
    assert_eq!(latency_millis(1, 999_999_999), Some(1999));
    assert_eq!(latency_millis(0, 1_500_000), Some(1));
    assert_eq!(latency_millis(u64::MAX, 0), None);
}

#[test]
fn two_successes_then_refused() {
    let (batches, _) = drive(0, 3, 0, &[Answer::Fine(12), Answer::Fine(20), Answer::Refused]);
    let mut agg = Aggregator::new(1, 3);
    let mut error_lines = Vec::new();
    for b in batches {
        let report = agg.fold_batch(b);
        for f in report.failures {
            error_lines.push(format!("{} ERROR {}", report.task_number, f));
        }
    }
    assert_eq!(agg.recorded(), 2);
    assert_eq!(agg.failed(), 1);
    assert_eq!(agg.folded(), 3);
    assert_eq!(error_lines, vec!["0 ERROR connection refused".to_string()]);
    let s = agg.summary().unwrap();
    assert_eq!(s.minimum, 12);
    assert_eq!(s.maximum, 20);
    assert_eq!(s.mean, 16);
}

#[test]
fn four_workers_all_succeed() {
    let mut agg = Aggregator::new(4, 10);
    assert_eq!(agg.expected(), 40);
    let mut last_progress = None;
    for t in 0..4u32 {
        let answers: Vec<Answer> = (0..10).map(|k| Answer::Fine(1 + (k + t as u64) % 3)).collect();
        let (batches, _) = drive(t, 10, 0, &answers);
        for b in batches {
            let report = agg.fold_batch(b);
            assert!(report.failures.is_empty());
            if let Some(p) = report.progress {
                last_progress = Some(p);
            }
        }
    }
    assert_eq!(agg.recorded(), 40);
    assert_eq!(last_progress, Some(40));
    let s = agg.summary().unwrap();
    let h = agg.histogram();
    let p: Vec<u64> = [25.0, 50.0, 75.0, 95.0].iter().map(|q| h.percentile(*q).unwrap()).collect();
    assert!(s.minimum <= p[0] && p[0] <= p[1] && p[1] <= p[2] && p[2] <= p[3] && p[3] <= s.maximum);
}

#[test]
fn progress_at_each_hundred() {
    let mut agg = Aggregator::new(30, 10);
    let mut due = Vec::new();
    for t in 0..30u32 {
        let outcomes = (0..10).map(|_| ProbeOutcome::Latency { secs: 0, subsec_nanos: 2_000_000 }).collect();
        let report = agg.fold_batch(MeasurementBatch { task_number: t, outcomes });
        if let Some(p) = report.progress {
            due.push(p);
        }
    }
    assert_eq!(due, vec![100, 200, 300]);
}

#[test]
fn total_within_budget() {
    let mut agg = Aggregator::new(3, 4);
    let scripts: [&[Answer]; 3] = [
        &[Answer::Fine(1), Answer::Fine(1), Answer::Fine(1), Answer::Fine(1)],
        &[Answer::Fine(1), Answer::Refused],
        &[Answer::Status, Answer::Status, Answer::Fine(2), Answer::Fine(2)],
    ];
    for (t, s) in scripts.iter().enumerate() {
        let (batches, _) = drive(t as u32, 4, 0, s);
        for b in batches {
            agg.fold_batch(b);
        }
    }
    assert_eq!(agg.folded(), 10);
    assert!(agg.folded() <= agg.expected());
    assert_eq!(agg.recorded(), 7);
    assert_eq!(agg.failed(), 3);
}

#[test]
fn same_answers_give_same_counts() {
    let run = |lat: u64| {
        let answers = [Answer::Fine(lat), Answer::Status, Answer::Fine(lat + 1), Answer::Refused];
        let (batches, actions) = drive(0, 6, 0, &answers);
        let sizes: Vec<usize> = batches.iter().map(|b| b.outcomes.len()).collect();
        (sizes, actions)
    };
    assert_eq!(run(3), run(40));
}

#[test]
fn no_samples_is_reported() {
    let mut agg = Aggregator::new(1, 1);
    let report = agg.fold_batch(MeasurementBatch {
        task_number: 0,
        outcomes: vec![ProbeOutcome::Failure { message: "connection refused".to_string() }],
    });
    assert_eq!(report.failures, vec!["connection refused".to_string()]);
    assert!(matches!(agg.summary(), Err(AggregationError::NoData)));
    let agg = Aggregator::new(0, 10);
    assert!(matches!(agg.summary(), Err(AggregationError::NoData)));
}

#[test]
fn latency_beyond_histogram_is_counted_apart() {
    let mut agg = Aggregator::new(1, 2);
    let report = agg.fold_batch(MeasurementBatch {
        task_number: 0,
        outcomes: vec![
            ProbeOutcome::Latency { secs: 70_000_000, subsec_nanos: 0 },
            ProbeOutcome::Latency { secs: u64::MAX, subsec_nanos: 0 },
            ProbeOutcome::Latency { secs: 0, subsec_nanos: 3_000_000 },
        ],
    });
    assert_eq!(report.out_of_range, 2);
    assert_eq!(agg.recorded(), 1);
    assert_eq!(agg.folded(), 3);
}

#[test]
fn summary_minimum_not_above_maximum() {
    let mut agg = Aggregator::new(1, 4);
    agg.fold_batch(MeasurementBatch {
        task_number: 0,
        outcomes: vec![
            ProbeOutcome::Latency { secs: 5, subsec_nanos: 0 },
            ProbeOutcome::Latency { secs: 0, subsec_nanos: 7_000_000 },
            ProbeOutcome::Latency { secs: 0, subsec_nanos: 900_000_000 },
            ProbeOutcome::Failure { message: "status code not OK: 503".to_string() },
        ],
    });
    let s = agg.summary().unwrap();
    assert_eq!(s.minimum, 7);
    assert!(s.minimum <= s.maximum);
    assert!(s.maximum >= 5000);
}
