use crate::split::slice_chars;
use crate::text::{
    chars_of, contains_token, find_chars, first_place, occurs_at, occurs_at_position, occurs_in,
    replace_all, replaced, string_of,
};
use vstd::prelude::*;

verus! {

/// The token that marks where the primary payload goes.
pub open spec fn primary_token() -> Seq<char> {
    "FUZZ"@
}

/// The token that marks where the secondary payload goes.
pub open spec fn secondary_token() -> Seq<char> {
    "FUZ2Z"@
}

/// The sentinel subdomain label of a virtual-host template, with its dot.
pub open spec fn host_token() -> Seq<char> {
    "fuzz."@
}

/// What a secondary payload contributes: its text, or nothing where there is
/// none.
pub open spec fn secondary_text(secondary: Option<&str>) -> Seq<char> {
    match secondary {
        Some(s) => s@,
        None => Seq::empty(),
    }
}

/// The request URL of a payload pair: the primary payload in place of every
/// primary token, then the secondary payload (or nothing) in place of every
/// secondary token of what results.
pub open spec fn resolved(template: Seq<char>, primary: Seq<char>, secondary: Seq<char>) -> Seq<
    char,
> {
    replaced(replaced(template, primary_token(), primary), secondary_token(), secondary)
}

/// What stands between the scheme of a URL and its host.
pub open spec fn scheme_mark() -> Seq<char> {
    "://"@
}

/// Where the host of a template begins: right behind the first scheme mark,
/// or at the very beginning of a template that has none.
pub open spec fn host_start(template: Seq<char>) -> int {
    if occurs_in(template, scheme_mark()) {
        first_place(template, scheme_mark()) + scheme_mark().len()
    } else {
        0
    }
}

/// The request URL of a candidate subdomain: the label, followed by a dot, in
/// place of the sentinel label with which the host begins. Nothing else is
/// touched, even where it reads like the sentinel label; a template whose
/// host does not begin with the sentinel label stays as it is.
pub open spec fn resolved_host(template: Seq<char>, label: Seq<char>) -> Seq<char> {
    let start = host_start(template);
    if occurs_at(template, host_token(), start) {
        template.take(start) + label.push('.') + template.skip(start + host_token().len())
    } else {
        template
    }
}

/// Whether a URL template holds the primary token, without which nothing can
/// be substituted.
pub fn has_placeholder(template: &str) -> (found: bool)
    ensures
        found == occurs_in(template@, primary_token()),
{
    contains_token(template, "FUZZ")
}

/// The concrete request URL for a payload pair. Payloads go in verbatim:
/// reserved characters are not encoded.
pub fn resolve_target(template: &str, primary: &str, secondary: Option<&str>) -> (url: String)
    ensures
        url@ == resolved(template@, primary@, secondary_text(secondary)),
{
    let first = replace_all(template, "FUZZ", primary);
    match secondary {
        Some(s) => replace_all(first.as_str(), "FUZ2Z", s),
        None => {
            proof {
                reveal_strlit("");
                assert(""@ =~= Seq::<char>::empty());
            }
            replace_all(first.as_str(), "FUZ2Z", "")
        },
    }
}

/// The request URL of a calibration probe: only the primary token is
/// substituted, a secondary token stays as it is.
pub fn calibration_target(template: &str, probe: &str) -> (url: String)
    ensures
        url@ == replaced(template@, primary_token(), probe@),
{
    replace_all(template, "FUZZ", probe)
}

/// The request URL for a candidate subdomain label.
pub fn resolve_host(template: &str, label: &str) -> (url: String)
    ensures
        url@ == resolved_host(template@, label@),
{
    let text = chars_of(template);
    let mark = chars_of("://");
    let token = chars_of("fuzz.");
    let start: usize = match find_chars(&text, &mark) {
        Some(at) => at + mark.len(),
        None => 0,
    };
    assert(start == host_start(template@));
    if !occurs_at_position(&text, &token, start) {
        return string_of(&text);
    }
    let mut out = slice_chars(&text, 0, start);
    let name = chars_of(label);
    let mut i: usize = 0;
    let ghost head = out@;
    assert(head + name@.take(0) == head);
    while i < name.len()
        invariant
            i <= name.len(),
            out@ == head + name@.take(i as int),
        decreases name.len() - i,
    {
        out.push(name[i]);
        assert((head + name@.take(i as int)).push(name@[i as int]) == head + name@.take(i + 1));
        i += 1;
    }
    assert(name@.take(name.len() as int) == name@);
    out.push('.');
    let tail = slice_chars(&text, start + token.len(), text.len());
    let ghost front = out@;
    let mut j: usize = 0;
    assert(front + tail@.take(0) == front);
    while j < tail.len()
        invariant
            j <= tail.len(),
            out@ == front + tail@.take(j as int),
        decreases tail.len() - j,
    {
        out.push(tail[j]);
        assert((front + tail@.take(j as int)).push(tail@[j as int]) == front + tail@.take(j + 1));
        j += 1;
    }
    proof {
        assert(tail@.take(tail.len() as int) == tail@);
        assert(head == template@.take(start as int));
        assert(tail@ == template@.skip(start + token.len()));
        assert(front == head + label@.push('.')) by {
            assert((head + label@).push('.') == head + label@.push('.'));
        }
    }
    string_of(&out)
}

/// Where a site's crawler rules are fetched from.
pub fn robots_target(template: &str) -> (url: String)
    ensures
        url@ == replaced(template@, primary_token(), "robots.txt"@),
{
    replace_all(template, "FUZZ", "robots.txt")
}

/// Where a site's sitemap is fetched from.
pub fn sitemap_target(template: &str) -> (url: String)
    ensures
        url@ == replaced(template@, primary_token(), "sitemap.xml"@),
{
    replace_all(template, "FUZZ", "sitemap.xml")
}

} // verus!
