use robofuzz::calibration::{calibrate, calibration_probes};
use robofuzz::signature::{
    agreement_count, is_noise, is_structural_match, signature_of, Baseline, Signature,
};

fn sig(lines: usize, words: usize, chars: usize) -> Signature {
    Signature { lines, words, chars }
}

fn baseline_of(entries: &[Signature]) -> Baseline {
    let mut baseline = Baseline::new();
    for entry in entries {
        baseline.insert(*entry);
    }
    baseline
}

#[test]
fn two_of_three_components_make_noise() {
    let baseline = baseline_of(&[sig(10, 50, 500)]);
    assert!(is_noise(&sig(10, 50, 999), &baseline));
}

#[test]
fn one_of_three_components_is_not_noise() {
    let baseline = baseline_of(&[sig(10, 50, 500)]);
    assert!(!is_noise(&sig(10, 60, 999), &baseline));
}

#[test]
fn empty_baseline_flags_nothing() {
    let baseline = Baseline::new();
    assert!(baseline.is_empty());
    assert_eq!(baseline.len(), 0);
    for candidate in [sig(0, 0, 0), sig(10, 50, 500), sig(usize::MAX, 1, 2)] {
        assert!(!is_noise(&candidate, &baseline));
    }
}

#[test]
fn matching_does_not_depend_on_the_side() {
    let samples = [
        sig(10, 50, 500),
        sig(10, 50, 999),
        sig(10, 60, 999),
        sig(11, 60, 999),
        sig(0, 0, 0),
        sig(10, 0, 500),
    ];
    for a in samples {
        for b in samples {
            assert_eq!(is_structural_match(&a, &b), is_structural_match(&b, &a));
            assert_eq!(agreement_count(&a, &b), agreement_count(&b, &a));
            assert_eq!(is_noise(&a, &baseline_of(&[b])), is_noise(&b, &baseline_of(&[a])));
        }
    }
}

#[test]
fn agreement_counts_each_component() {
    let a = sig(10, 50, 500);
    assert_eq!(agreement_count(&a, &sig(10, 50, 500)), 3);
    assert_eq!(agreement_count(&a, &sig(10, 50, 1)), 2);
    assert_eq!(agreement_count(&a, &sig(10, 1, 500)), 2);
    assert_eq!(agreement_count(&a, &sig(1, 50, 500)), 2);
    assert_eq!(agreement_count(&a, &sig(10, 1, 1)), 1);
    assert_eq!(agreement_count(&a, &sig(1, 50, 1)), 1);
    assert_eq!(agreement_count(&a, &sig(1, 1, 500)), 1);
    assert_eq!(agreement_count(&a, &sig(1, 1, 1)), 0);
    assert!(is_structural_match(&a, &sig(1, 50, 500)));
    assert!(!is_structural_match(&a, &sig(1, 1, 500)));
}

#[test]
fn components_are_compared_by_position() {
    // The same numbers in other positions do not count.
    let baseline = baseline_of(&[sig(1, 2, 3)]);
    assert!(!is_noise(&sig(2, 1, 3), &baseline));
    assert!(!is_noise(&sig(3, 1, 2), &baseline));
}

#[test]
fn any_entry_of_the_baseline_can_flag() {
    let baseline = baseline_of(&[sig(1, 2, 3), sig(10, 50, 500), sig(7, 7, 7)]);
    assert!(is_noise(&sig(9, 50, 500), &baseline));
    assert!(is_noise(&sig(7, 7, 0), &baseline));
    assert!(!is_noise(&sig(1, 50, 7), &baseline));
}

#[test]
fn baseline_holds_each_signature_once() {
    let mut baseline = Baseline::new();
    assert!(baseline.insert(sig(5, 20, 300)));
    assert!(!baseline.insert(sig(5, 20, 300)));
    assert!(baseline.insert(sig(5, 20, 301)));
    assert_eq!(baseline.len(), 2);
    assert!(!baseline.is_empty());
    assert!(baseline.contains(&sig(5, 20, 300)));
    assert!(baseline.contains(&sig(5, 20, 301)));
    assert!(!baseline.contains(&sig(5, 21, 300)));
}

#[test]
fn recording_a_body_adds_its_signature() {
    let mut baseline = Baseline::new();
    baseline.record("not found\nat all\n");
    assert_eq!(baseline.len(), 1);
    assert!(baseline.contains(&sig(2, 4, 17)));
}

#[test]
fn signature_counts_lines_words_and_characters() {
    assert_eq!(signature_of(""), sig(0, 0, 0));
    assert_eq!(signature_of("hello world"), sig(1, 2, 11));
    assert_eq!(signature_of("a b\nc\n"), sig(2, 3, 6));
    assert_eq!(signature_of("\n\n"), sig(2, 0, 2));
    // Characters, not bytes.
    assert_eq!(signature_of("żółć é"), sig(1, 2, 6));
}

#[test]
fn calibration_sends_the_nine_fixed_probes() {
    let probes = calibration_probes();
    assert_eq!(
        probes,
        vec![
            "thispathdoesnotexist",
            "this/path/does/not/exist",
            "this path does not exist",
            "thisfiledoesnotexist.txt",
            "thisfiledoesnotexist.php",
            "thisfiledoesnotexist.xml",
            "http%3A%2F%2Fwww",
            "########",
            "%20",
        ]
    );
}

#[test]
fn calibration_skips_failed_probes_and_collapses_repeats() {
    let page = String::from("<html>\nnot found\n</html>\n");
    let other = String::from("gone");
    let bodies = vec![
        Some(page.clone()),
        None,
        Some(page.clone()),
        Some(other),
        None,
        Some(page),
    ];
    let baseline = calibrate(&bodies);
    assert_eq!(baseline.len(), 2);
    assert!(baseline.contains(&sig(3, 4, 25)));
    assert!(baseline.contains(&sig(1, 1, 4)));
}

#[test]
fn calibration_without_answers_gives_an_empty_baseline() {
    let baseline = calibrate(&vec![None, None, None]);
    assert!(baseline.is_empty());
    assert!(!is_noise(&sig(1, 1, 4), &baseline));
    assert!(calibrate(&Vec::new()).is_empty());
}
