use wc_r::counts::Counts;
use wc_r::mode::Mode;
use wc_r::orchestrate::{absorb, can_absorb, judge, merged, Orchestrator, Outcome, Step, Verdict};
use wc_r::scan::count_file;

fn strings(names: &[&str]) -> Vec<String> {
    names.iter().map(|name| name.to_string()).collect()
}

fn counts(lines: usize, words: usize, bytes: u64, chars: usize, max_line_len: usize) -> Counts {
    Counts { words, lines, bytes, chars, max_line_len }
}

fn everything() -> Mode {
    Mode { bytes: true, chars: true, words: true, lines: true, max_line_len: true, graphemes: false }
}

#[test]
fn counts_are_reported_and_failures_judged_by_kind() {
    assert_eq!(judge(true, &Outcome::Counted(counts(1, 1, 1, 1, 1))), Verdict::Report);
    assert_eq!(judge(false, &Outcome::Counted(counts(1, 1, 1, 1, 1))), Verdict::Report);
    assert_eq!(judge(false, &Outcome::Failed), Verdict::Skip);
    assert_eq!(judge(true, &Outcome::Failed), Verdict::Abort);
}

#[test]
fn a_worker_folds_counts_in_and_failures_out() {
    let sum = counts(1, 2, 3, 4, 5);
    assert_eq!(absorb(sum, &Outcome::Counted(counts(1, 1, 1, 1, 9))), counts(2, 3, 4, 5, 9));
    assert_eq!(absorb(sum, &Outcome::Failed), sum);
    assert!(can_absorb(&sum, &Outcome::Failed));
    assert!(can_absorb(&sum, &Outcome::Counted(sum)));
    assert!(!can_absorb(&sum, &Outcome::Counted(counts(usize::MAX, 0, 0, 0, 0))));
    assert_eq!(merged(sum, counts(10, 10, 10, 10, 0)), counts(11, 12, 13, 14, 5));
}

#[test]
fn two_files_total_the_same_in_parallel_as_in_turn() {
    let mode = everything();
    let one = count_file(&mode, b"alpha beta\ngamma\n", Some(17)).unwrap();
    let two = count_file(&mode, b"a much longer second line of text\n", Some(34)).unwrap();
    let (a, b) = (Outcome::Counted(one), Outcome::Counted(two));
    let in_turn = absorb(absorb(Counts::default(), &a), &b);
    let reversed = absorb(absorb(Counts::default(), &b), &a);
    let first_worker = absorb(Counts::default(), &a);
    let second_worker = absorb(Counts::default(), &b);
    let side_by_side = merged(merged(Counts::default(), first_worker), second_worker);
    let other_way = merged(merged(Counts::default(), second_worker), first_worker);
    assert_eq!(in_turn, counts(3, 10, 51, 51, 33));
    assert_eq!(reversed, in_turn);
    assert_eq!(side_by_side, in_turn);
    assert_eq!(other_way, in_turn);
}

#[test]
fn a_failed_file_adds_nothing_and_stops_nothing() {
    let shares = [
        vec![Outcome::Counted(counts(1, 1, 2, 2, 1)), Outcome::Failed],
        vec![Outcome::Failed, Outcome::Counted(counts(2, 4, 9, 9, 4))],
        vec![],
    ];
    let mut run_total = Counts::default();
    for share in &shares {
        let mut sum = Counts::default();
        for outcome in share {
            sum = absorb(sum, outcome);
        }
        run_total = merged(run_total, sum);
    }
    assert_eq!(run_total, counts(3, 5, 11, 11, 4));
}

#[test]
fn standard_input_twice_is_read_in_turn_around_the_files() {
    let mut work = Orchestrator::start(strings(&["-", "file.txt", "-"]));
    assert_eq!(work.step(), Step::Stdin);
    assert!(work.stdin_read(&Outcome::Counted(counts(1, 2, 3, 3, 2))));
    assert_eq!(work.step(), Step::Files(&strings(&["file.txt"])));
    assert!(work.files_read(&counts(10, 20, 30, 30, 7)));
    assert_eq!(work.step(), Step::Stdin);
    assert_eq!(work.total(), counts(11, 22, 33, 33, 7));
    assert!(work.stdin_read(&Outcome::Counted(counts(0, 0, 0, 0, 0))));
    assert_eq!(work.step(), Step::Finish(Some(counts(11, 22, 33, 33, 7))));
    assert_eq!(work.step(), Step::Finish(Some(counts(11, 22, 33, 33, 7))));
}

#[test]
fn each_occurrence_of_standard_input_is_a_step_of_its_own() {
    let mut work = Orchestrator::start(strings(&["-", " - ", "a", "b"]));
    assert_eq!(work.step(), Step::Stdin);
    work.stdin_read(&Outcome::Counted(counts(1, 0, 0, 0, 0)));
    assert_eq!(work.step(), Step::Stdin);
    work.stdin_read(&Outcome::Counted(counts(1, 0, 0, 0, 0)));
    assert_eq!(work.step(), Step::Files(&strings(&["a", "b"])));
    work.files_read(&counts(5, 0, 0, 0, 0));
    assert_eq!(work.step(), Step::Finish(Some(counts(7, 0, 0, 0, 0))));
}

#[test]
fn a_single_source_gets_no_total() {
    let mut work = Orchestrator::start(strings(&["only.txt"]));
    assert_eq!(work.step(), Step::Files(&strings(&["only.txt"])));
    work.files_read(&counts(1, 1, 1, 1, 1));
    assert_eq!(work.step(), Step::Finish(None));
    assert_eq!(work.total(), counts(1, 1, 1, 1, 1));
}

#[test]
fn without_sources_standard_input_is_read_once() {
    let mut work = Orchestrator::start(strings(&[]));
    assert_eq!(work.step(), Step::Stdin);
    work.stdin_read(&Outcome::Counted(counts(4, 4, 4, 4, 4)));
    assert_eq!(work.step(), Step::Finish(None));
}

#[test]
fn standard_input_that_fails_ends_everything() {
    let mut work = Orchestrator::start(strings(&["a", "-", "b"]));
    assert_eq!(work.step(), Step::Files(&strings(&["a"])));
    work.files_read(&counts(1, 1, 1, 1, 1));
    assert_eq!(work.step(), Step::Stdin);
    assert!(work.stdin_read(&Outcome::Failed));
    assert_eq!(work.step(), Step::Stop);
    assert_eq!(work.step(), Step::Stop);
    assert_eq!(work.total(), counts(1, 1, 1, 1, 1));
}

#[test]
fn what_does_not_fit_is_not_taken() {
    let mut work = Orchestrator::start(strings(&["-", "-", "a"]));
    let big = counts(usize::MAX, 0, 0, 0, 0);
    assert!(work.stdin_read(&Outcome::Counted(big)));
    assert!(!work.stdin_read(&Outcome::Counted(counts(1, 0, 0, 0, 0))));
    assert_eq!(work.step(), Step::Stdin);
    assert_eq!(work.total(), big);
    assert!(work.stdin_read(&Outcome::Counted(counts(0, 1, 1, 1, 1))));
    assert!(!work.files_read(&counts(1, 0, 0, 0, 0)));
    assert_eq!(work.step(), Step::Files(&strings(&["a"])));
    assert!(work.files_read(&counts(0, 8, 8, 8, 8)));
    assert_eq!(work.step(), Step::Finish(Some(counts(usize::MAX, 9, 9, 9, 8))));
}

#[test]
fn what_comes_out_of_turn_is_not_taken() {
    let mut work = Orchestrator::start(strings(&["a", "-"]));
    assert!(!work.stdin_read(&Outcome::Counted(counts(1, 1, 1, 1, 1))));
    assert!(!work.stdin_read(&Outcome::Failed));
    assert_eq!(work.step(), Step::Files(&strings(&["a"])));
    assert!(work.files_read(&counts(1, 1, 1, 1, 1)));
    assert!(!work.files_read(&counts(1, 1, 1, 1, 1)));
    assert_eq!(work.step(), Step::Stdin);
    assert!(work.stdin_read(&Outcome::Counted(counts(2, 2, 2, 2, 2))));
    assert!(!work.stdin_read(&Outcome::Counted(counts(2, 2, 2, 2, 2))));
    assert!(!work.files_read(&counts(1, 1, 1, 1, 1)));
    assert_eq!(work.step(), Step::Finish(Some(counts(3, 3, 3, 3, 2))));
    let mut failed = Orchestrator::start(strings(&["-", "-"]));
    assert!(failed.stdin_read(&Outcome::Failed));
    assert!(!failed.stdin_read(&Outcome::Counted(counts(1, 1, 1, 1, 1))));
    assert_eq!(failed.step(), Step::Stop);
}

#[test]
fn a_whole_run_over_sources_in_memory() {
    let mode = Mode { bytes: true, chars: false, words: true, lines: true, max_line_len: false, graphemes: false };
    let stdin: &[u8] = b"from the stream\n";
    let files: [(&str, &[u8]); 3] =
        [("a.txt", b"one\ntwo\n"), ("bad.txt", b"\xff\n"), ("b.txt", b"three four five")];
    let mut work = Orchestrator::start(strings(&["a.txt", "bad.txt", "-", "b.txt"]));
    let mut reports = Vec::new();
    loop {
        match work.step() {
            Step::Stdin => {
                let outcome = match count_file(&mode, stdin, None) {
                    Ok(c) => Outcome::Counted(c),
                    Err(_) => Outcome::Failed,
                };
                if let Outcome::Counted(c) = outcome {
                    reports.push(c.render(&mode, "-"));
                }
                assert!(work.stdin_read(&outcome));
            }
            Step::Files(names) => {
                let mut sum = Counts::default();
                for name in names {
                    let content = files.iter().find(|(n, _)| n == name).unwrap().1;
                    let outcome = match count_file(&mode, content, Some(content.len() as u64)) {
                        Ok(c) => Outcome::Counted(c),
                        Err(_) => Outcome::Failed,
                    };
                    match (judge(false, &outcome), outcome) {
                        (Verdict::Report, Outcome::Counted(c)) => reports.push(c.render(&mode, name)),
                        (Verdict::Skip, _) => reports.push(format!("failed {}", name)),
                        _ => unreachable!(),
                    }
                    sum = absorb(sum, &outcome);
                }
                assert!(work.files_read(&sum));
            }
            Step::Finish(total) => {
                if let Some(total) = total {
                    reports.push(total.render(&mode, "total"));
                }
                break;
            }
            Step::Stop => panic!("standard input did not fail"),
        }
    }
    assert_eq!(
        reports,
        vec![" 2 2 8 a.txt\n", "failed bad.txt", " 1 3 16 -\n", " 1 3 15 b.txt\n", " 4 8 39 total\n"]
    );
}
