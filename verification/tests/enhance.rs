use cargo_doc_viewer::enhance::process_batch;
use cargo_doc_viewer::enhance::process_content;
use cargo_doc_viewer::enhance::tally_outcomes;
use cargo_doc_viewer::enhance::FileOutcome;
use cargo_doc_viewer::enhance::Mode;
use cargo_doc_viewer::enhance::Summary;

#[test]
fn summary_counts_start_empty() {
    let summary = Summary::new();
    assert_eq!(summary.modified, 0);
    assert_eq!(summary.skipped, 0);
}

#[test]
fn process_content_enhances_and_reverts() {
    let plain = "<html><head></head><body></body></html>".to_string();
    let enhanced = process_content(&plain, &Mode::Enhance).expect("should enhance");
    assert!(enhanced.contains("<!-- CDV: injected -->"));
    assert!(process_content(&enhanced, &Mode::Enhance).is_none());
    let reverted = process_content(&enhanced, &Mode::Revert).expect("should revert");
    assert_eq!(reverted, plain);
    assert!(process_content(&plain, &Mode::Revert).is_none());
}

fn outcome_of(read: &Option<String>, output: &Option<String>) -> FileOutcome {
    match (read, output) {
        (None, _) => FileOutcome::Failed,
        (Some(_), None) => FileOutcome::Unchanged,
        (Some(_), Some(_)) => FileOutcome::Rewritten,
    }
}

#[test]
fn one_unreadable_file_never_aborts_a_batch() {
    let mut reads: Vec<Option<String>> = Vec::new();
    for i in 0..9 {
        reads.push(Some(format!(
            "<html><head><title>{}</title></head><body></body></html>",
            i
        )));
    }
    reads.insert(4, None);
    let outputs = process_batch(&reads, &Mode::Enhance);
    assert_eq!(outputs.len(), 10);
    assert!(outputs[4].is_none());
    assert!(outputs[0].as_ref().unwrap().contains("cdv-style"));

    let outcomes: Vec<FileOutcome> = reads
        .iter()
        .zip(outputs.iter())
        .map(|(read, output)| outcome_of(read, output))
        .collect();
    let summary = tally_outcomes(&outcomes);
    assert_eq!(summary.modified + summary.skipped, 9);
    assert_eq!(summary.modified, 9);
    assert_eq!(summary.skipped, 0);
}

#[test]
fn batch_counts_unchanged_files_as_skipped() {
    let reads = vec![
        Some("<html><head></head><body></body></html>".to_string()),
        Some("no anchors at all".to_string()),
        None,
    ];
    let outputs = process_batch(&reads, &Mode::Enhance);
    assert!(outputs[1].is_none());
    assert!(outputs[2].is_none());

    let outcomes: Vec<FileOutcome> = reads
        .iter()
        .zip(outputs.iter())
        .map(|(read, output)| outcome_of(read, output))
        .collect();
    let summary = tally_outcomes(&outcomes);
    assert_eq!(summary.modified, 1);
    assert_eq!(summary.skipped, 1);
}

#[test]
fn write_failure_counts_in_neither_tally() {
    // a file that transformed but could not be written back lands in
    // neither counter, exactly like one that could not be read
    let outcomes = vec![
        FileOutcome::Rewritten,
        FileOutcome::Unchanged,
        FileOutcome::Failed,
        FileOutcome::Failed,
    ];
    let summary = tally_outcomes(&outcomes);
    assert_eq!(summary.modified, 1);
    assert_eq!(summary.skipped, 1);
    assert_eq!(summary.modified + summary.skipped, 2);
}
