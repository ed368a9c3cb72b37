use crate::signature::{fingerprint, Baseline, Signature};
use crate::split::texts;
use vstd::prelude::*;
use vstd::string::StringExecFns;

verus! {

/// The payloads that a site is asked for before fuzzing begins. None of them
/// should exist there: plain nonsense, nonsense shaped like a path, nonsense
/// with spaces, three file extensions, an encoded URL fragment, a run of
/// hashes and an encoded space.
pub open spec fn probe_texts() -> Seq<Seq<char>> {
    seq![
        "thispathdoesnotexist"@,
        "this/path/does/not/exist"@,
        "this path does not exist"@,
        "thisfiledoesnotexist.txt"@,
        "thisfiledoesnotexist.php"@,
        "thisfiledoesnotexist.xml"@,
        "http%3A%2F%2Fwww"@,
        "########"@,
        "%20"@,
    ]
}

/// The calibration payloads, in the order in which they are sent.
pub fn calibration_probes() -> (probes: Vec<String>)
    ensures
        texts(probes@) == probe_texts(),
{
    let mut probes: Vec<String> = Vec::new();
    probes.push(String::from_str("thispathdoesnotexist"));
    probes.push(String::from_str("this/path/does/not/exist"));
    probes.push(String::from_str("this path does not exist"));
    probes.push(String::from_str("thisfiledoesnotexist.txt"));
    probes.push(String::from_str("thisfiledoesnotexist.php"));
    probes.push(String::from_str("thisfiledoesnotexist.xml"));
    probes.push(String::from_str("http%3A%2F%2Fwww"));
    probes.push(String::from_str("########"));
    probes.push(String::from_str("%20"));
    assert(texts(probes@) =~= probe_texts());
    probes
}

/// The signatures of the probes that were answered. `None` stands for a probe
/// whose request failed in transport; it contributes nothing.
pub open spec fn calibrated(bodies: Seq<Option<String>>) -> Set<Signature> {
    Set::new(
        |sig: Signature|
            exists|i: int|
                0 <= i < bodies.len() && bodies[i] is Some && sig == fingerprint(
                    (#[trigger] bodies[i])->0@,
                ),
    )
}

/// Builds the baseline from what the probes brought back, one entry per
/// probe. Every answered probe is measured, whatever its status; a failed one
/// is passed over.
pub fn calibrate(bodies: &Vec<Option<String>>) -> (baseline: Baseline)
    ensures
        baseline.wf(),
        baseline@ == calibrated(bodies@),
{
    let mut baseline = Baseline::new();
    let mut i: usize = 0;
    assert(calibrated(bodies@.take(0)) =~= Set::<Signature>::empty());
    while i < bodies.len()
        invariant
            i <= bodies.len(),
            baseline.wf(),
            baseline@ == calibrated(bodies@.take(i as int)),
        decreases bodies.len() - i,
    {
        let ghost before = bodies@.take(i as int);
        let ghost after = bodies@.take(i + 1);
        proof {
            assert(after == before.push(bodies@[i as int]));
            assert forall|sig: Signature| calibrated(before).contains(sig) implies calibrated(
                after,
            ).contains(sig) by {
                let j = choose|j: int|
                    0 <= j < before.len() && before[j] is Some && sig == fingerprint(
                        (#[trigger] before[j])->0@,
                    );
                assert(after[j] == before[j]);
            }
            assert forall|sig: Signature| calibrated(after).contains(sig) implies calibrated(
                before,
            ).contains(sig) || (bodies@[i as int] is Some && sig == fingerprint(
                bodies@[i as int]->0@,
            )) by {
                let j = choose|j: int|
                    0 <= j < after.len() && after[j] is Some && sig == fingerprint(
                        (#[trigger] after[j])->0@,
                    );
                if j < i {
                    assert(before[j] == after[j]);
                }
            }
        }
        match &bodies[i] {
            Some(body) => {
                baseline.record(body.as_str());
                proof {
                    assert(after[i as int] == bodies@[i as int]);
                    assert(calibrated(after).contains(fingerprint(body@)));
                    assert(baseline@ =~= calibrated(after));
                }
            },
            None => {
                assert(baseline@ =~= calibrated(after));
            },
        }
        i += 1;
    }
    assert(bodies@.take(bodies.len() as int) == bodies@);
    baseline
}

} // verus!
