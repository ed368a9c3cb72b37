use vstd::prelude::*;
use vstd::std_specs::iter::IteratorSpec;

verus! {

/// The characters of `s`, in order.
pub fn chars_of(s: &str) -> (out: Vec<char>)
    ensures
        out@ == s@,
{
    let mut out: Vec<char> = Vec::new();
    let mut it = s.chars();
    proof {
        broadcast use vstd::string::axiom_spec_iter;
    }
    assert(it.remaining() == s@);
    loop
        invariant
            it.obeys_prophetic_iter_laws(),
            out@ + it.remaining() == s@,
            it.decrease() is Some,
        decreases it.decrease()->0,
    {
        let ghost before = it;
        let next = it.next();
        proof {
            broadcast use vstd::string::next_postcondition;
        }
        match next {
            Some(c) => {
                assert(before.remaining() == seq![c] + it.remaining());
                assert(out@.push(c) + it.remaining() == out@ + before.remaining());
                out.push(c);
            },
            None => {
                assert(out@ + it.remaining() == out@);
                return out;
            },
        }
    }
}

/// Appends one character to a string. Trusted: `String::push` adds exactly the
/// given character at the end and leaves what was there untouched.
#[verifier::external_body]
fn push_char(s: &mut String, c: char)
    ensures
        final(s)@ == old(s)@.push(c),
{
    s.push(c);
}

/// The string made of the characters of `chars`, in order.
pub fn string_of(chars: &Vec<char>) -> (out: String)
    ensures
        out@ == chars@,
{
    let mut out = String::new();
    let mut i: usize = 0;
    while i < chars.len()
        invariant
            i <= chars.len(),
            out@ == chars@.take(i as int),
        decreases chars.len() - i,
    {
        push_char(&mut out, chars[i]);
        assert(chars@.take(i as int).push(chars@[i as int]) == chars@.take(i + 1));
        i += 1;
    }
    assert(chars@.take(chars.len() as int) == chars@);
    out
}

/// `token` stands in `text` at position `at`.
pub open spec fn occurs_at(text: Seq<char>, token: Seq<char>, at: int) -> bool {
    &&& 0 <= at
    &&& at + token.len() <= text.len()
    &&& text.subrange(at, at + token.len()) == token
}

/// `token` stands somewhere in `text`.
pub open spec fn occurs_in(text: Seq<char>, token: Seq<char>) -> bool {
    exists|at: int| occurs_at(text, token, at)
}

/// `text` with every occurrence of `token` replaced by `with`, scanning from
/// the left; occurrences do not overlap, and what was put in is not scanned
/// again. With an empty token the text is left as it is.
pub open spec fn replaced(text: Seq<char>, token: Seq<char>, with: Seq<char>) -> Seq<char>
    decreases text.len(),
{
    if token.len() == 0 || text.len() == 0 {
        text
    } else if occurs_at(text, token, 0) {
        with + replaced(text.skip(token.len() as int), token, with)
    } else {
        seq![text[0]] + replaced(text.skip(1), token, with)
    }
}

/// Whether `token` stands in `text` at position `at`.
pub fn occurs_at_position(text: &Vec<char>, token: &Vec<char>, at: usize) -> (found: bool)
    ensures
        found == occurs_at(text@, token@, at as int),
{
    if token.len() > text.len() || at > text.len() - token.len() {
        return false;
    }
    let mut j: usize = 0;
    while j < token.len()
        invariant
            j <= token.len(),
            at + token.len() <= text.len(),
            text@.subrange(at as int, at + j) == token@.take(j as int),
        decreases token.len() - j,
    {
        if text[at + j] != token[j] {
            proof {
                if occurs_at(text@, token@, at as int) {
                    assert(text@.subrange(at as int, at + token.len())[j as int] == token@[j as int]);
                }
            }
            return false;
        }
        assert(text@.subrange(at as int, at + j + 1) == text@.subrange(at as int, at + j).push(
            text@[at + j],
        ));
        assert(token@.take(j + 1) == token@.take(j as int).push(token@[j as int]));
        j += 1;
    }
    assert(token@.take(token.len() as int) == token@);
    true
}

/// Replaces every occurrence of `token` in `text` by `with`.
pub fn replace_chars(text: &Vec<char>, token: &Vec<char>, with: &Vec<char>) -> (out: Vec<char>)
    ensures
        out@ == replaced(text@, token@, with@),
{
    let mut out: Vec<char> = Vec::new();
    if token.len() == 0 {
        let mut k: usize = 0;
        while k < text.len()
            invariant
                k <= text.len(),
                out@ == text@.take(k as int),
            decreases text.len() - k,
        {
            out.push(text[k]);
            assert(text@.take(k as int).push(text@[k as int]) == text@.take(k + 1));
            k += 1;
        }
        assert(text@.take(text.len() as int) == text@);
        return out;
    }
    let mut i: usize = 0;
    assert(text@.skip(0) == text@);
    while i < text.len()
        invariant
            i <= text.len(),
            token.len() > 0,
            out@ + replaced(text@.skip(i as int), token@, with@) == replaced(
                text@,
                token@,
                with@,
            ),
        decreases text.len() - i,
    {
        let ghost rest = text@.skip(i as int);
        let ghost before = out@;
        if occurs_at_position(text, token, i) {
            assert(rest.subrange(0, token.len() as int) == text@.subrange(
                i as int,
                i + token.len(),
            ));
            assert(occurs_at(rest, token@, 0));
            assert(rest.skip(token.len() as int) == text@.skip(i + token.len()));
            let mut k: usize = 0;
            while k < with.len()
                invariant
                    k <= with.len(),
                    out@ == before + with@.take(k as int),
                decreases with.len() - k,
            {
                out.push(with[k]);
                assert(with@.take(k as int).push(with@[k as int]) == with@.take(k + 1));
                k += 1;
            }
            assert(with@.take(with.len() as int) == with@);
            assert((before + with@) + replaced(text@.skip(i + token.len()), token@, with@)
                == before + (with@ + replaced(text@.skip(i + token.len()), token@, with@)));
            i += token.len();
        } else {
            assert(!occurs_at(rest, token@, 0)) by {
                if occurs_at(rest, token@, 0) {
                    assert(rest.subrange(0, token.len() as int) == text@.subrange(
                        i as int,
                        i + token.len(),
                    ));
                }
            }
            assert(rest.skip(1) == text@.skip(i + 1));
            assert(rest[0] == text@[i as int]);
            out.push(text[i]);
            assert(before.push(text@[i as int]) + replaced(text@.skip(i + 1), token@, with@)
                == before + (seq![text@[i as int]] + replaced(
                text@.skip(i + 1),
                token@,
                with@,
            )));
            i += 1;
        }
    }
    assert(text@.skip(text.len() as int).len() == 0);
    assert(out@ + Seq::<char>::empty() == out@);
    out
}

/// Replaces every occurrence of `token` in `text` by `with`, as text: nothing
/// is escaped or encoded on the way.
pub fn replace_all(text: &str, token: &str, with: &str) -> (out: String)
    ensures
        out@ == replaced(text@, token@, with@),
{
    let text_chars = chars_of(text);
    let token_chars = chars_of(token);
    let with_chars = chars_of(with);
    let out_chars = replace_chars(&text_chars, &token_chars, &with_chars);
    string_of(&out_chars)
}

/// `at` is the first place at which `token` stands in `text`.
pub open spec fn first_occurs_at(text: Seq<char>, token: Seq<char>, at: int) -> bool {
    &&& occurs_at(text, token, at)
    &&& forall|before: int| 0 <= before < at ==> !occurs_at(text, token, before)
}

/// The first place at which `token` stands in `text`, where it stands in it
/// at all.
pub open spec fn first_place(text: Seq<char>, token: Seq<char>) -> int {
    choose|at: int| first_occurs_at(text, token, at)
}

/// A token has one first place only.
pub proof fn lemma_first_place(text: Seq<char>, token: Seq<char>, at: int)
    requires
        first_occurs_at(text, token, at),
    ensures
        first_place(text, token) == at,
{
    let chosen = first_place(text, token);
    assert(first_occurs_at(text, token, chosen));
    if chosen < at {
        assert(!occurs_at(text, token, chosen));
    }
    if at < chosen {
        assert(!occurs_at(text, token, at));
    }
}

/// The first place at which `token` stands in `text`, or nothing where it
/// does not stand in it.
pub fn find_chars(text: &Vec<char>, token: &Vec<char>) -> (place: Option<usize>)
    ensures
        place is Some <==> occurs_in(text@, token@),
        place is Some ==> first_occurs_at(text@, token@, place->0 as int),
        place is Some ==> place->0 == first_place(text@, token@),
{
    if token.len() > text.len() {
        assert(forall|at: int| !occurs_at(text@, token@, at));
        return None;
    }
    let last: usize = text.len() - token.len();
    let mut i: usize = 0;
    loop
        invariant
            i <= last,
            last == text.len() - token.len(),
            forall|at: int| 0 <= at < i ==> !occurs_at(text@, token@, at),
        decreases last - i,
    {
        if occurs_at_position(text, token, i) {
            proof {
                lemma_first_place(text@, token@, i as int);
            }
            return Some(i);
        }
        if i == last {
            assert(forall|at: int| !occurs_at(text@, token@, at));
            return None;
        }
        i += 1;
    }
}

/// Whether `token` stands somewhere in `text`.
pub fn contains_chars(text: &Vec<char>, token: &Vec<char>) -> (found: bool)
    ensures
        found == occurs_in(text@, token@),
{
    find_chars(text, token).is_some()
}

/// Whether `token` stands somewhere in `text`.
pub fn contains_token(text: &str, token: &str) -> (found: bool)
    ensures
        found == occurs_in(text@, token@),
{
    let text_chars = chars_of(text);
    let token_chars = chars_of(token);
    contains_chars(&text_chars, &token_chars)
}

/// Whether `text` begins with `token`.
pub fn starts_with_token(text: &str, token: &str) -> (found: bool)
    ensures
        found == occurs_at(text@, token@, 0),
{
    let text_chars = chars_of(text);
    let token_chars = chars_of(token);
    occurs_at_position(&text_chars, &token_chars, 0)
}

/// A text in which the token does not occur is left as it is, whatever would
/// be put in.
pub proof fn lemma_replaced_without_token(text: Seq<char>, token: Seq<char>, with: Seq<char>)
    requires
        !occurs_in(text, token),
    ensures
        replaced(text, token, with) == text,
    decreases text.len(),
{
    if token.len() > 0 && text.len() > 0 {
        assert(!occurs_at(text, token, 0));
        let rest = text.skip(1);
        assert forall|at: int| !occurs_at(rest, token, at) by {
            if occurs_at(rest, token, at) {
                assert(rest.subrange(at, at + token.len()) == text.subrange(
                    at + 1,
                    at + 1 + token.len(),
                ));
                assert(occurs_at(text, token, at + 1));
            }
        }
        lemma_replaced_without_token(rest, token, with);
        assert(seq![text[0]] + rest == text);
    }
}

} // verus!
