use crate::text::{chars_of, string_of};
use vstd::prelude::*;

verus! {

/// White space as Unicode defines it (the property White_Space).
pub open spec fn is_space(c: char) -> bool {
    let n = c as u32;
    ||| 0x09 <= n <= 0x0D
    ||| n == 0x20
    ||| n == 0x85
    ||| n == 0xA0
    ||| n == 0x1680
    ||| 0x2000 <= n <= 0x200A
    ||| n == 0x2028
    ||| n == 0x2029
    ||| n == 0x202F
    ||| n == 0x205F
    ||| n == 0x3000
}

/// Whether `c` is white space.
pub fn is_space_char(c: char) -> (space: bool)
    ensures
        space == is_space(c),
{
    let n: u32 = c as u32;
    (0x09 <= n && n <= 0x0D) || n == 0x20 || n == 0x85 || n == 0xA0 || n == 0x1680 || (0x2000 <= n
        && n <= 0x200A) || n == 0x2028 || n == 0x2029 || n == 0x202F || n == 0x205F || n == 0x3000
}

/// How many characters stand before the first line feed of `s`; the length of
/// `s` where it has none.
pub open spec fn line_end(s: Seq<char>) -> int
    decreases s.len(),
{
    if s.len() == 0 || s[0] == '\n' {
        0
    } else {
        1 + line_end(s.skip(1))
    }
}

/// A line without the carriage return that closed it, if one did.
pub open spec fn without_return(line: Seq<char>) -> Seq<char> {
    if line.len() > 0 && line.last() == '\r' {
        line.drop_last()
    } else {
        line
    }
}

/// The lines of `s`. A line ends at a line feed, or at a carriage return and
/// a line feed; neither belongs to it. The last line needs no ending, and an
/// ending at the very end opens no further line.
pub open spec fn lines_of(s: Seq<char>) -> Seq<Seq<char>>
    decreases s.len(),
{
    if s.len() == 0 {
        Seq::empty()
    } else {
        let k = line_end(s);
        if 0 <= k < s.len() {
            seq![without_return(s.take(k))] + lines_of(s.skip(k + 1))
        } else {
            seq![s]
        }
    }
}

/// How many lines `s` has.
pub open spec fn line_count(s: Seq<char>) -> nat {
    lines_of(s).len()
}

/// How many characters stand before the first white space of `s`; the length
/// of `s` where it has none.
pub open spec fn word_end(s: Seq<char>) -> int
    decreases s.len(),
{
    if s.len() == 0 || is_space(s[0]) {
        0
    } else {
        1 + word_end(s.skip(1))
    }
}

/// The words of `s`: its longest runs of characters that are not white space,
/// from left to right.
pub open spec fn words_of(s: Seq<char>) -> Seq<Seq<char>>
    decreases s.len(),
{
    if s.len() == 0 {
        Seq::empty()
    } else if is_space(s[0]) {
        words_of(s.skip(1))
    } else {
        let k = word_end(s);
        if 0 < k <= s.len() {
            seq![s.take(k)] + words_of(s.skip(k))
        } else {
            Seq::empty()
        }
    }
}

/// How many words `s` has.
pub open spec fn word_count(s: Seq<char>) -> nat {
    words_of(s).len()
}

/// A line feed at `k` that no line feed precedes is where the first line ends.
pub proof fn lemma_line_end(s: Seq<char>, k: int)
    requires
        0 <= k <= s.len(),
        forall|j: int| 0 <= j < k ==> s[j] != '\n',
        k < s.len() ==> s[k] == '\n',
    ensures
        line_end(s) == k,
    decreases k,
{
    if k > 0 {
        let rest = s.skip(1);
        assert forall|j: int| 0 <= j < k - 1 implies rest[j] != '\n' by {
            assert(rest[j] == s[j + 1]);
        }
        lemma_line_end(rest, k - 1);
    }
}

/// White space at `k` that no white space precedes is where the first word
/// ends.
pub proof fn lemma_word_end(s: Seq<char>, k: int)
    requires
        0 <= k <= s.len(),
        forall|j: int| 0 <= j < k ==> !is_space(s[j]),
        k < s.len() ==> is_space(s[k]),
    ensures
        word_end(s) == k,
    decreases k,
{
    if k > 0 {
        let rest = s.skip(1);
        assert forall|j: int| 0 <= j < k - 1 implies !is_space(rest[j]) by {
            assert(rest[j] == s[j + 1]);
        }
        lemma_word_end(rest, k - 1);
    }
}

/// What each string of a list holds, in the list's order.
pub open spec fn texts(list: Seq<String>) -> Seq<Seq<char>> {
    Seq::new(list.len(), |i: int| list[i]@)
}

/// A string added at the end of a list adds its text at the end of the texts.
pub proof fn lemma_texts_push(list: Seq<String>, item: String)
    ensures
        texts(list.push(item)) == texts(list).push(item@),
{
    assert(texts(list.push(item)) =~= texts(list).push(item@));
}

/// The characters of `text` from `from` up to, not including, `to`.
pub fn slice_chars(text: &Vec<char>, from: usize, to: usize) -> (out: Vec<char>)
    requires
        from <= to <= text.len(),
    ensures
        out@ == text@.subrange(from as int, to as int),
{
    let mut out: Vec<char> = Vec::new();
    let mut i: usize = from;
    while i < to
        invariant
            from <= i <= to,
            to <= text.len(),
            out@ == text@.subrange(from as int, i as int),
        decreases to - i,
    {
        out.push(text[i]);
        assert(text@.subrange(from as int, i as int).push(text@[i as int]) == text@.subrange(
            from as int,
            i + 1,
        ));
        i += 1;
    }
    out
}

/// The lines of `text`, in order.
pub fn split_lines(text: &str) -> (out: Vec<String>)
    ensures
        texts(out@) == lines_of(text@),
{
    let chars = chars_of(text);
    let n = chars.len();
    let mut out: Vec<String> = Vec::new();
    let mut start: usize = 0;
    let mut i: usize = 0;
    assert(chars@.skip(0) == chars@);
    assert(texts(out@) + lines_of(chars@) == lines_of(chars@));
    while i < n
        invariant
            n == chars.len(),
            start <= i <= n,
            forall|j: int| start <= j < i ==> chars@[j] != '\n',
            texts(out@) + lines_of(chars@.skip(start as int)) == lines_of(chars@),
        decreases n - i,
    {
        if chars[i] == '\n' {
            let ghost rest = chars@.skip(start as int);
            let ghost before = out@;
            proof {
                lemma_line_end(rest, i - start);
                assert(rest.take(i - start) == chars@.subrange(start as int, i as int));
                assert(rest.skip(i - start + 1) == chars@.skip(i + 1));
            }
            let mut end: usize = i;
            if end > start && chars[end - 1] == '\r' {
                end = end - 1;
            }
            let line = slice_chars(&chars, start, end);
            assert(line@ == without_return(chars@.subrange(start as int, i as int)));
            out.push(string_of(&line));
            assert(texts(out@) == texts(before).push(line@));
            assert(texts(before).push(line@) + lines_of(chars@.skip(i + 1)) == texts(before) + (
            seq![line@] + lines_of(chars@.skip(i + 1))));
            start = i + 1;
        }
        i += 1;
    }
    if start < n {
        let ghost rest = chars@.skip(start as int);
        let ghost before = out@;
        proof {
            lemma_line_end(rest, n - start);
            assert(rest == chars@.subrange(start as int, n as int));
        }
        let line = slice_chars(&chars, start, n);
        out.push(string_of(&line));
        assert(texts(out@) == texts(before).push(line@));
        assert(texts(before).push(line@) == texts(before) + seq![line@]);
    } else {
        assert(chars@.skip(start as int).len() == 0);
        assert(texts(out@) + Seq::<Seq<char>>::empty() == texts(out@));
    }
    out
}

/// Counts the lines of `text`.
pub fn count_lines(text: &Vec<char>) -> (count: usize)
    ensures
        count == line_count(text@),
{
    let n = text.len();
    let mut count: usize = 0;
    let mut start: usize = 0;
    let mut i: usize = 0;
    assert(text@.skip(0) == text@);
    while i < n
        invariant
            n == text.len(),
            start <= i <= n,
            count <= start,
            forall|j: int| start <= j < i ==> text@[j] != '\n',
            count + line_count(text@.skip(start as int)) == line_count(text@),
        decreases n - i,
    {
        if text[i] == '\n' {
            let ghost rest = text@.skip(start as int);
            proof {
                lemma_line_end(rest, i - start);
                assert(rest.skip(i - start + 1) == text@.skip(i + 1));
            }
            count += 1;
            start = i + 1;
        }
        i += 1;
    }
    if start < n {
        proof {
            lemma_line_end(text@.skip(start as int), n - start);
        }
        count += 1;
    } else {
        assert(text@.skip(start as int).len() == 0);
    }
    count
}

/// Where the word that begins at `from` ends.
fn scan_word(text: &Vec<char>, from: usize) -> (to: usize)
    requires
        from < text.len(),
        !is_space(text@[from as int]),
    ensures
        from < to <= text.len(),
        to - from == word_end(text@.skip(from as int)),
{
    let mut to: usize = from + 1;
    while to < text.len() && !is_space_char(text[to])
        invariant
            from < to <= text.len(),
            forall|j: int| from <= j < to ==> !is_space(text@[j]),
        decreases text.len() - to,
    {
        to += 1;
    }
    proof {
        lemma_word_end(text@.skip(from as int), to - from);
    }
    to
}

/// The words of `text`, in order.
pub fn split_words(text: &str) -> (out: Vec<String>)
    ensures
        texts(out@) == words_of(text@),
{
    let chars = chars_of(text);
    let n = chars.len();
    let mut out: Vec<String> = Vec::new();
    let mut i: usize = 0;
    assert(chars@.skip(0) == chars@);
    assert(texts(out@) + words_of(chars@) == words_of(chars@));
    while i < n
        invariant
            n == chars.len(),
            i <= n,
            texts(out@) + words_of(chars@.skip(i as int)) == words_of(chars@),
        decreases n - i,
    {
        let ghost rest = chars@.skip(i as int);
        let ghost before = out@;
        if is_space_char(chars[i]) {
            assert(rest.skip(1) == chars@.skip(i + 1));
            i += 1;
        } else {
            let to = scan_word(&chars, i);
            let word = slice_chars(&chars, i, to);
            proof {
                assert(rest.take(to - i) == chars@.subrange(i as int, to as int));
                assert(rest.skip(to - i) == chars@.skip(to as int));
            }
            out.push(string_of(&word));
            assert(texts(out@) == texts(before).push(word@));
            assert(texts(before).push(word@) + words_of(chars@.skip(to as int)) == texts(before)
                + (seq![word@] + words_of(chars@.skip(to as int))));
            i = to;
        }
    }
    assert(chars@.skip(n as int).len() == 0);
    assert(texts(out@) + Seq::<Seq<char>>::empty() == texts(out@));
    out
}

/// Counts the words of `text`.
pub fn count_words(text: &Vec<char>) -> (count: usize)
    ensures
        count == word_count(text@),
{
    let n = text.len();
    let mut count: usize = 0;
    let mut i: usize = 0;
    assert(text@.skip(0) == text@);
    while i < n
        invariant
            n == text.len(),
            i <= n,
            count <= i,
            count + word_count(text@.skip(i as int)) == word_count(text@),
        decreases n - i,
    {
        let ghost rest = text@.skip(i as int);
        if is_space_char(text[i]) {
            assert(rest.skip(1) == text@.skip(i + 1));
            i += 1;
        } else {
            let to = scan_word(text, i);
            assert(rest.skip(to - i) == text@.skip(to as int));
            count += 1;
            i = to;
        }
    }
    assert(text@.skip(n as int).len() == 0);
    count
}

/// Where the first word of a text ends: within the text, behind characters
/// that are no white space, and before white space or the end.
pub proof fn lemma_word_end_is_end(s: Seq<char>)
    ensures
        0 <= word_end(s) <= s.len(),
        forall|j: int| 0 <= j < word_end(s) ==> !is_space(#[trigger] s[j]),
        word_end(s) < s.len() ==> is_space(s[word_end(s)]),
    decreases s.len(),
{
    if s.len() > 0 && !is_space(s[0]) {
        let rest = s.skip(1);
        lemma_word_end_is_end(rest);
        assert forall|j: int| 0 <= j < word_end(s) implies !is_space(#[trigger] s[j]) by {
            if j > 0 {
                assert(s[j] == rest[j - 1]);
            }
        }
        if word_end(s) < s.len() {
            assert(s[word_end(s)] == rest[word_end(rest)]);
        }
    }
}

/// Two texts differ at most in which white space stands where: they are
/// equally long, and at each place both have white space or both have the
/// same character.
pub open spec fn same_but_for_spaces(a: Seq<char>, b: Seq<char>) -> bool {
    &&& a.len() == b.len()
    &&& forall|i: int|
        0 <= i < a.len() ==> (is_space(#[trigger] a[i]) && is_space(b[i])) || a[i] == b[i]
}

/// The words of a text do not depend on the kind of white space between
/// them.
pub proof fn lemma_words_ignore_kind_of_space(a: Seq<char>, b: Seq<char>)
    requires
        same_but_for_spaces(a, b),
    ensures
        words_of(a) == words_of(b),
    decreases a.len(),
{
    if a.len() > 0 {
        assert(is_space(a[0]) == is_space(b[0]));
        if is_space(a[0]) {
            let rest_a = a.skip(1);
            let rest_b = b.skip(1);
            assert forall|i: int| 0 <= i < rest_a.len() implies (is_space(#[trigger] rest_a[i])
                && is_space(rest_b[i])) || rest_a[i] == rest_b[i] by {
                assert(rest_a[i] == a[i + 1] && rest_b[i] == b[i + 1]);
            }
            lemma_words_ignore_kind_of_space(rest_a, rest_b);
        } else {
            let k = word_end(a);
            lemma_word_end_is_end(a);
            assert forall|j: int| 0 <= j < k implies !is_space(b[j]) by {
                assert(!is_space(a[j]));
            }
            if k < a.len() {
                assert(is_space(a[k]));
            }
            lemma_word_end(b, k);
            assert(a.take(k) =~= b.take(k)) by {
                assert forall|j: int| 0 <= j < k implies a.take(k)[j] == b.take(k)[j] by {
                    assert(!is_space(a[j]));
                }
            }
            let rest_a = a.skip(k);
            let rest_b = b.skip(k);
            assert forall|i: int| 0 <= i < rest_a.len() implies (is_space(#[trigger] rest_a[i])
                && is_space(rest_b[i])) || rest_a[i] == rest_b[i] by {
                assert(rest_a[i] == a[i + k] && rest_b[i] == b[i + k]);
            }
            lemma_words_ignore_kind_of_space(rest_a, rest_b);
        }
    }
}

} // verus!
