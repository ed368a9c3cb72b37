use crate::split::{count_lines, count_words, line_count, word_count};
use crate::text::chars_of;
use vstd::prelude::*;

verus! {

/// The fingerprint of a response body: how many lines, words and characters
/// it has.
#[derive(Clone, Copy, Debug, PartialEq, Eq, Structural)]
pub struct Signature {
    pub lines: usize,
    pub words: usize,
    pub chars: usize,
}

/// The fingerprint of a body.
pub open spec fn fingerprint(body: Seq<char>) -> Signature {
    Signature {
        lines: line_count(body) as usize,
        words: word_count(body) as usize,
        chars: body.len() as usize,
    }
}

/// In how many of their three components two signatures agree.
pub open spec fn agreement(a: Signature, b: Signature) -> nat {
    let lines: nat = if a.lines == b.lines { 1 } else { 0 };
    let words: nat = if a.words == b.words { 1 } else { 0 };
    let chars: nat = if a.chars == b.chars { 1 } else { 0 };
    lines + words + chars
}

/// Two signatures match structurally when at least two of their three
/// components agree.
pub open spec fn structural_match(a: Signature, b: Signature) -> bool {
    agreement(a, b) >= 2
}

/// A candidate is noise when some signature of the baseline matches it
/// structurally.
pub open spec fn noise(candidate: Signature, baseline: Set<Signature>) -> bool {
    exists|known: Signature| #[trigger] baseline.contains(known) && structural_match(known, candidate)
}

/// Measures a response body.
pub fn signature_of(body: &str) -> (sig: Signature)
    ensures
        sig == fingerprint(body@),
        sig.lines == line_count(body@),
        sig.words == word_count(body@),
        sig.chars == body@.len(),
{
    let chars = chars_of(body);
    Signature { lines: count_lines(&chars), words: count_words(&chars), chars: chars.len() }
}

/// Counts the components in which `a` and `b` agree.
pub fn agreement_count(a: &Signature, b: &Signature) -> (count: usize)
    ensures
        count == agreement(*a, *b),
        count <= 3,
{
    let mut count: usize = 0;
    if a.lines == b.lines {
        count += 1;
    }
    if a.words == b.words {
        count += 1;
    }
    if a.chars == b.chars {
        count += 1;
    }
    count
}

/// Whether `a` and `b` match structurally.
pub fn is_structural_match(a: &Signature, b: &Signature) -> (matched: bool)
    ensures
        matched == structural_match(*a, *b),
{
    agreement_count(a, b) >= 2
}

/// The signatures collected while calibrating: a set, so that a signature
/// seen twice is held once.
#[derive(Debug)]
pub struct Baseline {
    entries: Vec<Signature>,
}

impl Baseline {
    /// The signatures held.
    pub closed spec fn view(&self) -> Set<Signature> {
        self.entries@.to_set()
    }

    /// No signature is held twice.
    pub closed spec fn wf(&self) -> bool {
        self.entries@.no_duplicates()
    }

    /// A baseline that holds nothing.
    pub fn new() -> (baseline: Baseline)
        ensures
            baseline.wf(),
            baseline@ == Set::<Signature>::empty(),
    {
        let baseline = Baseline { entries: Vec::new() };
        assert(baseline.entries@.to_set() =~= Set::<Signature>::empty());
        baseline
    }

    /// Whether `sig` is held.
    pub fn contains(&self, sig: &Signature) -> (held: bool)
        ensures
            held == self@.contains(*sig),
    {
        let mut i: usize = 0;
        while i < self.entries.len()
            invariant
                i <= self.entries.len(),
                forall|j: int| 0 <= j < i ==> self.entries@[j] != *sig,
            decreases self.entries.len() - i,
        {
            if self.entries[i] == *sig {
                assert(self.entries@.contains(*sig));
                return true;
            }
            i += 1;
        }
        assert(!self.entries@.contains(*sig));
        false
    }

    /// Adds `sig`; says whether it was new.
    pub fn insert(&mut self, sig: Signature) -> (fresh: bool)
        requires
            old(self).wf(),
        ensures
            final(self).wf(),
            final(self)@ == old(self)@.insert(sig),
            fresh == !old(self)@.contains(sig),
    {
        if self.contains(&sig) {
            assert(self@.insert(sig) =~= self@);
            false
        } else {
            let ghost before = self.entries@;
            self.entries.push(sig);
            proof {
                assert(self.entries@ == before.push(sig));
                assert(self.entries@.no_duplicates());
                assert(self.entries@.to_set() =~= before.to_set().insert(sig)) by {
                    assert forall|s: Signature|
                        self.entries@.to_set().contains(s) == before.to_set().insert(sig).contains(
                            s,
                        ) by {
                        if before.to_set().insert(sig).contains(s) {
                            if s == sig {
                                assert(self.entries@[before.len() as int] == s);
                            } else {
                                let j = choose|j: int| 0 <= j < before.len() && before[j] == s;
                                assert(self.entries@[j] == s);
                            }
                        }
                    }
                }
            }
            true
        }
    }

    /// How many signatures are held.
    pub fn len(&self) -> (count: usize)
        requires
            self.wf(),
        ensures
            count == self@.len(),
    {
        proof {
            self.entries@.unique_seq_to_set();
        }
        self.entries.len()
    }

    /// Whether nothing is held.
    pub fn is_empty(&self) -> (empty: bool)
        ensures
            empty == (self@ == Set::<Signature>::empty()),
    {
        let empty = self.entries.len() == 0;
        proof {
            if empty {
                assert(self.entries@.to_set() =~= Set::<Signature>::empty());
            } else {
                assert(self.entries@.to_set().contains(self.entries@[0]));
            }
        }
        empty
    }

    /// Measures a response body and adds its signature.
    pub fn record(&mut self, body: &str)
        requires
            old(self).wf(),
        ensures
            final(self).wf(),
            final(self)@ == old(self)@.insert(fingerprint(body@)),
    {
        let sig = signature_of(body);
        self.insert(sig);
    }
}

/// Whether `candidate` looks like one of the responses of the baseline. The
/// baseline is only read, and an empty one flags nothing.
pub fn is_noise(candidate: &Signature, baseline: &Baseline) -> (flagged: bool)
    ensures
        flagged == noise(*candidate, baseline@),
        baseline@ == Set::<Signature>::empty() ==> !flagged,
{
    let mut i: usize = 0;
    while i < baseline.entries.len()
        invariant
            i <= baseline.entries.len(),
            forall|j: int| 0 <= j < i ==> !structural_match(baseline.entries@[j], *candidate),
        decreases baseline.entries.len() - i,
    {
        if is_structural_match(&baseline.entries[i], candidate) {
            assert(baseline@.contains(baseline.entries@[i as int]));
            return true;
        }
        i += 1;
    }
    proof {
        if noise(*candidate, baseline@) {
            let known = choose|known: Signature| #[trigger]
                baseline@.contains(known) && structural_match(known, *candidate);
            let j = choose|j: int| 0 <= j < baseline.entries@.len() && baseline.entries@[j] == known;
            assert(false);
        }
    }
    false
}

/// Structural matching does not depend on which of the two signatures is the
/// known one and which the candidate: the decision for a candidate against a
/// baseline of one signature stays the same when the two change places.
pub proof fn lemma_match_symmetric(a: Signature, b: Signature)
    ensures
        agreement(a, b) == agreement(b, a),
        structural_match(a, b) == structural_match(b, a),
        noise(a, set![b]) == noise(b, set![a]),
{
    assert(noise(a, set![b]) == structural_match(b, a)) by {
        if structural_match(b, a) {
            assert(set![b].contains(b));
        }
    }
    assert(noise(b, set![a]) == structural_match(a, b)) by {
        if structural_match(a, b) {
            assert(set![a].contains(a));
        }
    }
}

/// Against an empty baseline no signature is noise.
pub proof fn lemma_empty_baseline_flags_nothing(candidate: Signature)
    ensures
        !noise(candidate, Set::<Signature>::empty()),
{
}

/// A signature that the baseline holds is noise against it.
pub proof fn lemma_known_signature_is_noise(candidate: Signature, baseline: Set<Signature>)
    requires
        baseline.contains(candidate),
    ensures
        agreement(candidate, candidate) == 3,
        noise(candidate, baseline),
{
}

} // verus!
