use omni_ingest::ingest::{plan_ingest, plan_line, IngestRun, LineOutcome};
use omni_ingest::record::ParseError;

const SAMPLE: &str = "1995 15 3 42 71 71 27 27 99 14 -99 2 1 1998 6.5 6.2 1.1 -0.3 1.0 -0.2 0.12 0.08 420 -410 -15 3 5.1 120000 1.8 900 -0.01 1.2 3.5 210 5 12 45 30 25 8 6 3 2 0.15 3.2";

const SAMPLE_INSERT: &str = "INSERT INTO weather_2024 VALUES (15, 3, 42, 71, 71, 27, 27, 99, 14, -99, 2, 1, 1998, 6.5, 6.2, 1.1, -0.3, 1.0, -0.2, 0.12, 0.08, 420, -410, -15, 3, 5.1, 120000, 1.8, 900, -0.01, 1.2, 3.5, 210, 5, 12, 45, 30, 25, 8, 6, 3, 2, 0.15, 3.2) ON CONFLICT (day, hour, minute) DO NOTHING";

fn statements(plan: &[LineOutcome]) -> Vec<String> {
    let mut out = Vec::new();
    for outcome in plan {
        if let LineOutcome::Write { statement, .. } = outcome {
            out.push(statement.clone());
        }
    }
    out
}

#[test]
fn sample_line_is_written_under_its_key() {
    match plan_line("weather_2024", SAMPLE) {
        LineOutcome::Write { statement, ack } => {
            assert_eq!(statement, SAMPLE_INSERT);
            assert_eq!(ack, "Added: [15, 3, 42]");
        }
        LineOutcome::Skip { error } => panic!("skipped: {:?}", error),
    }
}

#[test]
fn malformed_line_is_skipped_with_its_error() {
    match plan_line("t", "1995 15 3") {
        LineOutcome::Skip { error } => assert_eq!(error, ParseError::FieldCount { found: 2 }),
        LineOutcome::Write { .. } => panic!("written"),
    }
    match plan_line("t", "") {
        LineOutcome::Skip { error } => assert_eq!(error, ParseError::MissingYear),
        LineOutcome::Write { .. } => panic!("written"),
    }
}

#[test]
fn plan_has_one_outcome_for_each_line() {
    let content = format!("{}\nbroken line\n\n{}\r\n", SAMPLE, SAMPLE);
    let plan = plan_ingest("weather_2024", &content);
    assert_eq!(plan.len(), 4);
    assert!(matches!(plan[0], LineOutcome::Write { .. }));
    assert!(matches!(plan[1], LineOutcome::Skip { error: ParseError::FieldCount { found: 1 } }));
    assert!(matches!(plan[2], LineOutcome::Skip { error: ParseError::MissingYear }));
    assert!(matches!(plan[3], LineOutcome::Write { .. }));
    assert_eq!(statements(&plan), vec![SAMPLE_INSERT.to_string(), SAMPLE_INSERT.to_string()]);
}

#[test]
fn malformed_line_changes_nothing_for_the_other_lines() {
    let other = SAMPLE.replace("1995 15 3 42", "1995 16 4 43");
    let with = format!("{}\n1995 15 3\n{}\n", SAMPLE, other);
    let without = format!("{}\n{}\n", SAMPLE, other);
    assert_eq!(
        statements(&plan_ingest("t", &with)),
        statements(&plan_ingest("t", &without))
    );
    assert_eq!(statements(&plan_ingest("t", &with)).len(), 2);
}

#[test]
fn same_line_twice_gives_the_same_statement_twice() {
    let content = format!("{}\n{}\n", SAMPLE, SAMPLE);
    let all = statements(&plan_ingest("t", &content));
    assert_eq!(all.len(), 2);
    assert_eq!(all[0], all[1]);
}

#[test]
fn plan_of_empty_text_is_empty() {
    assert!(plan_ingest("t", "").is_empty());
}

#[test]
fn order_of_lines_is_the_order_of_statements() {
    let other = SAMPLE.replace("1995 15 3 42", "1995 16 4 43");
    let forward = statements(&plan_ingest("t", &format!("{}\n{}\n", SAMPLE, other)));
    let mut backward = statements(&plan_ingest("t", &format!("{}\n{}\n", other, SAMPLE)));
    backward.reverse();
    assert_eq!(forward, backward);
    assert_ne!(forward[0], forward[1]);
}

#[test]
fn tokens_of_a_record_hold_no_whitespace() {
    let line = format!("\t{} \r", SAMPLE.replace(' ', "\u{00A0} "));
    match plan_line("t", &line) {
        LineOutcome::Write { statement, .. } => assert_eq!(
            statement,
            SAMPLE_INSERT.replace("INSERT INTO weather_2024", "INSERT INTO t")
        ),
        LineOutcome::Skip { error } => panic!("skipped: {:?}", error),
    }
}

#[test]
fn run_takes_the_lines_in_order() {
    let content = format!("{}\nbroken\n{}\n", SAMPLE, SAMPLE);
    let mut run = IngestRun::new(plan_ingest("weather_2024", &content));
    assert_eq!(run.lines_done(), 0);
    assert!(matches!(run.current(), Some(LineOutcome::Write { .. })));
    run.advance(true);
    assert_eq!(run.lines_done(), 1);
    assert!(matches!(run.current(), Some(LineOutcome::Skip { .. })));
    run.advance(true);
    assert_eq!(run.lines_done(), 2);
    assert!(matches!(run.current(), Some(LineOutcome::Write { .. })));
    run.advance(true);
    assert_eq!(run.lines_done(), 3);
    assert!(run.current().is_none());
    assert!(!run.is_aborted());
    run.advance(false);
    assert_eq!(run.lines_done(), 3);
    assert!(!run.is_aborted());
}

#[test]
fn failed_write_ends_the_run() {
    let content = format!("{}\n{}\n", SAMPLE, SAMPLE);
    let mut run = IngestRun::new(plan_ingest("weather_2024", &content));
    run.advance(true);
    run.advance(false);
    assert!(run.is_aborted());
    assert_eq!(run.lines_done(), 1);
    assert!(run.current().is_none());
    run.advance(true);
    assert!(run.is_aborted());
    assert_eq!(run.lines_done(), 1);
}

#[test]
fn malformed_line_does_not_end_the_run() {
    let content = format!("broken\n\n{}\n", SAMPLE);
    let mut run = IngestRun::new(plan_ingest("weather_2024", &content));
    run.advance(false);
    run.advance(false);
    assert!(!run.is_aborted());
    assert_eq!(run.lines_done(), 2);
    assert!(matches!(run.current(), Some(LineOutcome::Write { .. })));
}

#[test]
fn run_of_an_empty_plan_is_over() {
    let run = IngestRun::new(plan_ingest("t", ""));
    assert!(run.current().is_none());
    assert!(!run.is_aborted());
    assert_eq!(run.lines_done(), 0);
}
