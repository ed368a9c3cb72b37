use crate::split::{
    lemma_texts_push, lemma_words_ignore_kind_of_space, same_but_for_spaces, slice_chars,
    split_words, texts, words_of,
};
use crate::text::{chars_of, string_of};
use vstd::prelude::*;

verus! {

/// A list with every text at its first place only.
pub open spec fn deduped(list: Seq<Seq<char>>) -> Seq<Seq<char>>
    decreases list.len(),
{
    if list.len() == 0 {
        Seq::empty()
    } else if list.drop_last().contains(list.last()) {
        deduped(list.drop_last())
    } else {
        deduped(list.drop_last()).push(list.last())
    }
}

/// Removing repetitions loses no text, adds none, and leaves none twice.
pub proof fn lemma_deduped(list: Seq<Seq<char>>)
    ensures
        deduped(list).no_duplicates(),
        forall|x: Seq<char>| deduped(list).contains(x) <==> list.contains(x),
        deduped(list).len() <= list.len(),
    decreases list.len(),
{
    if list.len() > 0 {
        let front = list.drop_last();
        let last = list.last();
        lemma_deduped(front);
        assert forall|x: Seq<char>| deduped(list).contains(x) <==> list.contains(x) by {
            if list.contains(x) {
                let j = choose|j: int| 0 <= j < list.len() && list[j] == x;
                if j < front.len() {
                    assert(front[j] == x);
                    assert(front.contains(x));
                }
            }
            if front.contains(x) {
                let j = choose|j: int| 0 <= j < front.len() && front[j] == x;
                assert(list[j] == x);
            }
            if x == last {
                assert(list[list.len() - 1] == x);
            }
            if !front.contains(last) {
                let grown = deduped(front).push(last);
                if deduped(front).contains(x) {
                    let j = choose|j: int| 0 <= j < deduped(front).len() && deduped(front)[j] == x;
                    assert(grown[j] == x);
                }
                assert(grown[grown.len() - 1] == last);
            }
        }
    }
}

/// Whether `item` stands in `list`.
pub fn holds(list: &Vec<String>, item: &String) -> (found: bool)
    ensures
        found == texts(list@).contains(item@),
{
    let mut i: usize = 0;
    while i < list.len()
        invariant
            i <= list.len(),
            forall|j: int| 0 <= j < i ==> texts(list@)[j] != item@,
        decreases list.len() - i,
    {
        if list[i] == *item {
            assert(texts(list@)[i as int] == item@);
            return true;
        }
        i += 1;
    }
    false
}

/// The texts of `list`, each at its first place only.
pub fn unique(list: &Vec<String>) -> (out: Vec<String>)
    ensures
        texts(out@) == deduped(texts(list@)),
        texts(out@).no_duplicates(),
{
    let mut out: Vec<String> = Vec::new();
    let ghost all = texts(list@);
    let mut i: usize = 0;
    assert(texts(out@) =~= deduped(all.take(0)));
    while i < list.len()
        invariant
            i <= list.len(),
            all == texts(list@),
            texts(out@) == deduped(all.take(i as int)),
        decreases list.len() - i,
    {
        let ghost before = out@;
        proof {
            lemma_deduped(all.take(i as int));
            assert(all.take(i + 1).drop_last() == all.take(i as int));
            assert(all.take(i + 1).last() == list@[i as int]@);
        }
        if !holds(&out, &list[i]) {
            out.push(list[i].clone());
            assert(texts(out@) =~= texts(before).push(list@[i as int]@));
        }
        i += 1;
    }
    proof {
        assert(all.take(list.len() as int) == all);
        lemma_deduped(all);
    }
    out
}

/// A text without the slashes that it begins with.
pub open spec fn trimmed(text: Seq<char>) -> Seq<char>
    decreases text.len(),
{
    if text.len() > 0 && text[0] == '/' {
        trimmed(text.skip(1))
    } else {
        text
    }
}

/// Each text of a list without its leading slashes.
pub open spec fn trimmed_all(list: Seq<Seq<char>>) -> Seq<Seq<char>> {
    Seq::new(list.len(), |i: int| trimmed(list[i]))
}

/// Takes the leading slashes off a text.
pub fn trim_leading_slashes(text: &str) -> (out: String)
    ensures
        out@ == trimmed(text@),
{
    let chars = chars_of(text);
    let mut i: usize = 0;
    assert(chars@.skip(0) == chars@);
    while i < chars.len() && chars[i] == '/'
        invariant
            i <= chars.len(),
            trimmed(chars@.skip(i as int)) == trimmed(chars@),
        decreases chars.len() - i,
    {
        assert(chars@.skip(i as int).skip(1) == chars@.skip(i + 1));
        i += 1;
    }
    let rest = slice_chars(&chars, i, chars.len());
    assert(chars@.skip(i as int) == chars@.subrange(i as int, chars.len() as int));
    string_of(&rest)
}

/// The wordlist of a run that also tries what a sitemap named: the sitemap's
/// paths without their leading slashes, then the entries of the wordlist,
/// each text once.
pub fn augment_wordlist(paths: &Vec<String>, wordlist: &Vec<String>) -> (out: Vec<String>)
    ensures
        texts(out@) == deduped(trimmed_all(texts(paths@)) + texts(wordlist@)),
        texts(out@).no_duplicates(),
{
    let mut all: Vec<String> = Vec::new();
    let mut i: usize = 0;
    while i < paths.len()
        invariant
            i <= paths.len(),
            texts(all@) == trimmed_all(texts(paths@)).take(i as int),
        decreases paths.len() - i,
    {
        let ghost before = all@;
        let path = trim_leading_slashes(paths[i].as_str());
        proof {
            lemma_texts_push(before, path);
            assert(trimmed_all(texts(paths@))[i as int] == path@);
            assert(trimmed_all(texts(paths@)).take(i as int).push(path@) =~= trimmed_all(
                texts(paths@),
            ).take(i + 1));
        }
        all.push(path);
        i += 1;
    }
    let ghost front = trimmed_all(texts(paths@));
    assert(front.take(paths.len() as int) == front);
    let mut j: usize = 0;
    assert(texts(all@) =~= front + texts(wordlist@).take(0));
    while j < wordlist.len()
        invariant
            j <= wordlist.len(),
            front == trimmed_all(texts(paths@)),
            texts(all@) == front + texts(wordlist@).take(j as int),
        decreases wordlist.len() - j,
    {
        let ghost before = all@;
        let word = wordlist[j].clone();
        proof {
            lemma_texts_push(before, word);
            assert(texts(wordlist@)[j as int] == word@);
            assert((front + texts(wordlist@).take(j as int)).push(word@) =~= front + texts(
                wordlist@,
            ).take(j + 1));
        }
        all.push(word);
        j += 1;
    }
    assert(texts(wordlist@).take(wordlist.len() as int) == texts(wordlist@));
    unique(&all)
}

/// The lower-case form of a text, as `str::to_lowercase` gives it.
pub uninterp spec fn lowercase_of(text: Seq<char>) -> Seq<char>;

/// Each text of a list in lower case.
pub open spec fn lowered_all(list: Seq<Seq<char>>) -> Seq<Seq<char>> {
    Seq::new(list.len(), |i: int| lowercase_of(list[i]))
}

/// Puts a text in lower case. Trusted: the result of `str::to_lowercase`
/// depends on the text alone; nothing else is claimed of it.
#[verifier::external_body]
pub(crate) fn to_lowercase(text: &str) -> (lowered: String)
    ensures
        lowered@ == lowercase_of(text@),
{
    text.to_lowercase()
}

/// The words of a text, in lower case, each once, in the order in which they
/// first occur.
pub fn create_wordlist(text: &str) -> (out: Vec<String>)
    ensures
        texts(out@) == deduped(lowered_all(words_of(text@))),
        texts(out@).no_duplicates(),
{
    let words = split_words(text);
    let mut lowered: Vec<String> = Vec::new();
    let mut i: usize = 0;
    while i < words.len()
        invariant
            i <= words.len(),
            texts(lowered@) == lowered_all(texts(words@)).take(i as int),
        decreases words.len() - i,
    {
        let ghost before = lowered@;
        let word = to_lowercase(words[i].as_str());
        proof {
            lemma_texts_push(before, word);
            assert(lowered_all(texts(words@))[i as int] == word@);
            assert(lowered_all(texts(words@)).take(i as int).push(word@) =~= lowered_all(
                texts(words@),
            ).take(i + 1));
        }
        lowered.push(word);
        i += 1;
    }
    assert(lowered_all(texts(words@)).take(words.len() as int) == lowered_all(texts(words@)));
    unique(&lowered)
}

/// The wordlist of a text does not depend on the kind of white space between
/// its words.
pub proof fn lemma_wordlist_ignores_kind_of_space(a: Seq<char>, b: Seq<char>)
    requires
        same_but_for_spaces(a, b),
    ensures
        deduped(lowered_all(words_of(a))) == deduped(lowered_all(words_of(b))),
{
    lemma_words_ignore_kind_of_space(a, b);
}

} // verus!
