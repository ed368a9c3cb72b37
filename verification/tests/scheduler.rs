use robofuzz::calibration::calibrate;
use robofuzz::report::result_line;
use robofuzz::schedule::{
    classify, host_admission_limit, outcome_of, path_admission_limit, Outcome, Scheduler, Verdict,
};
use robofuzz::signature::{signature_of, Baseline, Signature};
use robofuzz::split::split_lines;
use robofuzz::tasks::{build_tasks, total_requests};
use robofuzz::template::resolve_target;

fn words(list: &[&str]) -> Vec<String> {
    list.iter().map(|w| w.to_string()).collect()
}

fn sig(lines: usize, words: usize, chars: usize) -> Signature {
    Signature { lines, words, chars }
}

#[test]
fn cross_product_of_three_and_four_has_twelve_tasks() {
    let first = words(&["a", "b", "c"]);
    let second = words(&["1", "2", "3", "4"]);
    let tasks = build_tasks(&first, Some(&second));
    assert_eq!(tasks.len(), 12);
    assert_eq!(total_requests(3, Some(4)), 12);
}

#[test]
fn single_wordlist_has_one_task_per_entry() {
    let first = words(&["a", "b", "c"]);
    let tasks = build_tasks(&first, None);
    assert_eq!(tasks.len(), 3);
    assert_eq!(total_requests(3, None), 3);
    for (i, task) in tasks.iter().enumerate() {
        assert_eq!(task.position, i);
        assert_eq!(task.primary, first[i]);
        assert_eq!(task.secondary, None);
    }
}

#[test]
fn cross_product_runs_the_second_list_fastest() {
    let first = words(&["a", "b"]);
    let second = words(&["1", "2", "3"]);
    let tasks = build_tasks(&first, Some(&second));
    let pairs: Vec<(usize, String, Option<String>)> =
        tasks.into_iter().map(|t| (t.position, t.primary, t.secondary)).collect();
    let expected: Vec<(usize, String, Option<String>)> = vec![
        (0, "a".to_string(), Some("1".to_string())),
        (1, "a".to_string(), Some("2".to_string())),
        (2, "a".to_string(), Some("3".to_string())),
        (3, "b".to_string(), Some("1".to_string())),
        (4, "b".to_string(), Some("2".to_string())),
        (5, "b".to_string(), Some("3".to_string())),
    ];
    assert_eq!(pairs, expected);
}

#[test]
fn empty_wordlists_give_no_tasks() {
    assert_eq!(build_tasks(&Vec::new(), None).len(), 0);
    assert_eq!(build_tasks(&words(&["a", "b"]), Some(&Vec::new())).len(), 0);
    assert_eq!(build_tasks(&Vec::new(), Some(&words(&["1"]))).len(), 0);
    assert_eq!(total_requests(0, None), 0);
    assert_eq!(total_requests(5, Some(0)), 0);
}

#[test]
fn admission_limits_of_the_two_modes() {
    assert_eq!(path_admission_limit(25), 100);
    assert_eq!(path_admission_limit(0), 0);
    assert_eq!(path_admission_limit(1), 4);
    assert_eq!(host_admission_limit(25), 25);
    assert_eq!(host_admission_limit(0), 0);
}

#[test]
fn slots_in_use_never_exceed_the_limit() {
    let threads = 3;
    let limit = path_admission_limit(threads);
    let mut run = Scheduler::new(40, limit);
    let baseline = Baseline::new();
    let mut step = 0;
    while !run.is_finished() {
        // Take slots greedily, then let some requests finish.
        let mut taken = 0;
        while run.try_acquire().is_some() {
            taken += 1;
            assert!(run.in_flight() <= 4 * threads);
        }
        assert!(taken <= limit);
        assert!(run.in_flight() <= 4 * threads);
        let finishing = 1 + step % 5;
        let mut n = 0;
        while n < finishing && run.in_flight() > 0 {
            run.settle(&Outcome::Failed, &baseline);
            assert!(run.in_flight() <= 4 * threads);
            n += 1;
        }
        step += 1;
    }
    assert_eq!(run.processed(), 40);
    assert_eq!(run.in_flight(), 0);
    assert_eq!(run.try_acquire(), None);
}

#[test]
fn a_full_gate_gives_no_slot() {
    let mut run = Scheduler::new(10, 2);
    assert_eq!(run.limit(), 2);
    assert_eq!(run.total(), 10);
    assert_eq!(run.try_acquire(), Some(0));
    assert_eq!(run.try_acquire(), Some(1));
    assert_eq!(run.try_acquire(), None);
    assert_eq!(run.in_flight(), 2);
    run.settle(&Outcome::Failed, &Baseline::new());
    assert_eq!(run.in_flight(), 1);
    assert_eq!(run.try_acquire(), Some(2));
    assert_eq!(run.try_acquire(), None);
}

#[test]
fn a_gate_without_slots_lets_nothing_through() {
    let mut run = Scheduler::new(3, 0);
    assert_eq!(run.try_acquire(), None);
    assert!(!run.is_finished());
    assert_eq!(run.processed(), 0);
}

#[test]
fn a_run_without_tasks_is_finished_at_once() {
    let mut run = Scheduler::new(0, 4);
    assert!(run.is_finished());
    assert_eq!(run.try_acquire(), None);
}

#[test]
fn failures_count_as_processed_and_leave_no_line() {
    let mut run = Scheduler::new(2, 4);
    let mut baseline = Baseline::new();
    baseline.insert(sig(5, 20, 300));
    run.try_acquire();
    run.try_acquire();
    assert_eq!(run.settle(&Outcome::Failed, &baseline), Verdict::Dropped);
    assert_eq!(run.settle(&Outcome::Failed, &baseline), Verdict::Dropped);
    assert_eq!(run.processed(), 2);
    assert_eq!(run.filtered(), 0);
    assert_eq!(run.reported(), 0);
    assert!(run.is_finished());
}

#[test]
fn an_outcome_needs_status_and_body() {
    match outcome_of(Some(200), Some("a b\nc\n")) {
        Outcome::Answered { status, signature } => {
            assert_eq!(status, 200);
            assert_eq!(signature, sig(2, 3, 6));
        }
        Outcome::Failed => panic!("a request with status and body was answered"),
    }
    match outcome_of(Some(404), Some("")) {
        Outcome::Answered { status, signature } => {
            assert_eq!(status, 404);
            assert_eq!(signature, sig(0, 0, 0));
        }
        Outcome::Failed => panic!("an empty body is a body"),
    }
    assert!(matches!(outcome_of(None, Some("body")), Outcome::Failed));
    assert!(matches!(outcome_of(Some(200), None), Outcome::Failed));
    assert!(matches!(outcome_of(None, None), Outcome::Failed));
}

#[test]
fn an_unreadable_body_leaves_no_line() {
    let mut run = Scheduler::new(1, 1);
    run.try_acquire();
    let outcome = outcome_of(Some(200), None);
    assert_eq!(run.settle(&outcome, &Baseline::new()), Verdict::Dropped);
    assert_eq!(run.processed(), 1);
    assert_eq!(run.reported(), 0);
}

#[test]
fn verdicts_follow_the_baseline() {
    let mut baseline = Baseline::new();
    baseline.insert(sig(5, 20, 300));
    let noise = Outcome::Answered { status: 404, signature: sig(5, 20, 301) };
    let find = Outcome::Answered { status: 200, signature: sig(40, 400, 4000) };
    assert_eq!(classify(&noise, &baseline), Verdict::Filtered);
    assert_eq!(classify(&find, &baseline), Verdict::Reported);
    assert_eq!(classify(&Outcome::Failed, &baseline), Verdict::Dropped);
    // Without a baseline nothing is filtered.
    assert_eq!(classify(&noise, &Baseline::new()), Verdict::Reported);
}

fn generic_page() -> String {
    // 5 lines, 20 words, 300 characters.
    "x x x x\n".repeat(4) + "x x x " + &"y".repeat(261) + "\n"
}

fn distinct_page() -> String {
    // 40 lines, 400 words, 4000 characters.
    ("w ".repeat(9) + &"z".repeat(81) + "\n").repeat(40)
}

#[test]
fn one_discovery_among_generic_pages() {
    let template = "http://svc/FUZZ";
    assert_eq!(signature_of(&generic_page()), sig(5, 20, 300));
    assert_eq!(signature_of(&distinct_page()), sig(40, 400, 4000));
    let wordlist = split_lines("a\nb\nc\n");
    assert_eq!(wordlist, vec!["a", "b", "c"]);

    // Every probe is answered with the generic page.
    let baseline = calibrate(&vec![Some(generic_page()); 9]);
    assert_eq!(baseline.len(), 1);
    assert!(baseline.contains(&sig(5, 20, 300)));

    let tasks = build_tasks(&wordlist, None);
    let mut run = Scheduler::new(tasks.len(), path_admission_limit(1));
    let mut lines: Vec<String> = Vec::new();
    while !run.is_finished() {
        let position = run.try_acquire().expect("a slot is free");
        let task = &tasks[position];
        let url = resolve_target(template, &task.primary, task.secondary.as_deref());
        let (status, body) = if url == "http://svc/b" {
            (200, distinct_page())
        } else {
            (404, generic_page())
        };
        let signature = signature_of(&body);
        let outcome = Outcome::Answered { status, signature };
        if run.settle(&outcome, &baseline) == Verdict::Reported {
            lines.push(result_line(position, status, &signature, &task.primary));
        }
    }
    assert_eq!(lines.len(), 1);
    assert_eq!(
        lines[0],
        format!(
            "{: <10} {: <10} {: <10} {: <10} {: <12} {: <50}",
            "000002", "200", 40, 400, 4000, "b"
        )
    );
    assert_eq!(run.filtered(), 2);
    assert_eq!(run.processed(), 3);
    assert_eq!(run.reported(), 1);
}
