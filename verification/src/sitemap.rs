use crate::address::{parse_url, parsed_url, UrlParts, UrlText};
use crate::split::{lemma_texts_push, texts};
use vstd::prelude::*;
use vstd::string::StringExecFns;

verus! {

/// The pattern of a sitemap entry: what stands between an opening and the
/// next closing `loc` tag on one line, in any letter case of the tags.
pub open spec fn loc_pattern() -> Seq<char> {
    "(?i)<loc>(.*?)</loc>"@
}

/// What the first group of a pattern captured in each of its successive
/// matches in a text, in order; `None` in a match in which the group took no
/// part. Nothing at all where the pattern is not a regular expression.
pub uninterp spec fn first_groups(pattern: Seq<char>, text: Seq<char>) -> Option<
    Seq<Option<Seq<char>>>,
>;

/// Captured groups as plain values.
pub open spec fn groups_of(found: Option<Vec<Option<String>>>) -> Option<Seq<Option<Seq<char>>>> {
    match found {
        Some(groups) => Some(
            Seq::new(
                groups@.len(),
                |i: int|
                    match groups@[i] {
                        Some(s) => Some(s@),
                        None => None,
                    },
            ),
        ),
        None => None,
    }
}

/// Runs a pattern over a text. Trusted: `regex::Regex::new` accepts or
/// refuses the pattern, `captures_iter` yields the successive matches that
/// do not overlap, and `get(1)` gives the first group of each; all of it
/// depends on pattern and text alone. Nothing is claimed of what is matched.
#[verifier::external_body]
fn capture_first_groups(pattern: &str, text: &str) -> (found: Option<Vec<Option<String>>>)
    ensures
        groups_of(found) == first_groups(pattern@, text@),
{
    match regex::Regex::new(pattern) {
        Ok(re) => Some(
            re.captures_iter(text).map(|caps| caps.get(1).map(|m| m.as_str().to_string())).collect(),
        ),
        Err(_) => None,
    }
}

/// What a sitemap entry contributes to a wordlist: the path of its URL, and
/// behind a question mark its query where it has one.
pub open spec fn path_and_query(parts: UrlText) -> Seq<char> {
    match parts.query {
        Some(q) => parts.path + seq!['?'] + q,
        None => parts.path,
    }
}

/// Whether one of `urls` has the base `base`.
pub open spec fn has_base(urls: Seq<UrlText>, base: Seq<char>) -> bool {
    exists|i: int| 0 <= i < urls.len() && (#[trigger] urls[i]).base == base
}

/// The contributions of a list of URLs, in order, where of several URLs with
/// one base only the first contributes.
pub open spec fn distinct_paths(urls: Seq<UrlText>) -> Seq<Seq<char>>
    decreases urls.len(),
{
    if urls.len() == 0 {
        Seq::empty()
    } else if has_base(urls.drop_last(), urls.last().base) {
        distinct_paths(urls.drop_last())
    } else {
        distinct_paths(urls.drop_last()).push(path_and_query(urls.last()))
    }
}

/// The captured texts that are URLs, parsed, in order.
pub open spec fn located(groups: Seq<Option<Seq<char>>>) -> Seq<UrlText>
    decreases groups.len(),
{
    if groups.len() == 0 {
        Seq::empty()
    } else {
        let front = located(groups.drop_last());
        match groups.last() {
            Some(text) => match parsed_url(text) {
                Some(parts) => front.push(parts),
                None => front,
            },
            None => front,
        }
    }
}

/// The paths that a sitemap document names.
pub open spec fn sitemap_paths(document: Seq<char>) -> Seq<Seq<char>> {
    match first_groups(loc_pattern(), document) {
        Some(groups) => distinct_paths(located(groups)),
        None => Seq::empty(),
    }
}

/// What each of a list of parsed URLs is, in the list's order.
pub open spec fn url_texts(urls: Seq<UrlParts>) -> Seq<UrlText> {
    Seq::new(urls.len(), |i: int| urls[i]@)
}

/// Path and query of a parsed URL.
pub fn path_with_query(parts: &UrlParts) -> (out: String)
    ensures
        out@ == path_and_query(parts@),
{
    let mut out = parts.path.clone();
    match &parts.query {
        Some(q) => {
            proof {
                reveal_strlit("?");
                assert("?"@ =~= seq!['?']);
            }
            out.append("?");
            out.append(q.as_str());
        },
        None => {},
    }
    out
}

/// Whether one of the first `upto` of `urls` has the base of `urls[upto]`.
fn base_seen(urls: &Vec<UrlParts>, upto: usize) -> (seen: bool)
    requires
        upto < urls.len(),
    ensures
        seen == has_base(url_texts(urls@).take(upto as int), urls@[upto as int]@.base),
{
    let ghost front = url_texts(urls@).take(upto as int);
    let mut j: usize = 0;
    while j < upto
        invariant
            j <= upto,
            upto < urls.len(),
            front == url_texts(urls@).take(upto as int),
            forall|k: int| 0 <= k < j ==> (#[trigger] front[k]).base != urls@[upto as int]@.base,
        decreases upto - j,
    {
        if urls[j].base == urls[upto].base {
            assert(front[j as int].base == urls@[upto as int]@.base);
            return true;
        }
        j += 1;
    }
    false
}

/// The contributions of parsed sitemap entries: one per base, the first
/// entry of each base, in the order of the entries.
pub fn collect_paths(urls: &Vec<UrlParts>) -> (out: Vec<String>)
    ensures
        texts(out@) == distinct_paths(url_texts(urls@)),
{
    let mut out: Vec<String> = Vec::new();
    let ghost all = url_texts(urls@);
    let mut i: usize = 0;
    assert(texts(out@) =~= distinct_paths(all.take(0)));
    while i < urls.len()
        invariant
            i <= urls.len(),
            all == url_texts(urls@),
            texts(out@) == distinct_paths(all.take(i as int)),
        decreases urls.len() - i,
    {
        proof {
            assert(all.take(i + 1).drop_last() == all.take(i as int));
            assert(all.take(i + 1).last() == urls@[i as int]@);
        }
        if !base_seen(urls, i) {
            let path = path_with_query(&urls[i]);
            proof {
                lemma_texts_push(out@, path);
            }
            out.push(path);
        }
        i += 1;
    }
    assert(all.take(urls.len() as int) == all);
    out
}

/// The paths that a sitemap document names: of every `loc` entry that holds
/// a URL the path and query, one per base URL, the first of each.
pub fn extract_paths(document: &str) -> (out: Vec<String>)
    ensures
        texts(out@) == sitemap_paths(document@),
{
    match capture_first_groups("(?i)<loc>(.*?)</loc>", document) {
        Some(groups) => {
            let ghost found = groups_of(Some(groups))->0;
            let mut urls: Vec<UrlParts> = Vec::new();
            let mut i: usize = 0;
            assert(url_texts(urls@) =~= located(found.take(0)));
            while i < groups.len()
                invariant
                    i <= groups.len(),
                    found == groups_of(Some(groups))->0,
                    url_texts(urls@) == located(found.take(i as int)),
                decreases groups.len() - i,
            {
                proof {
                    assert(found.take(i + 1).drop_last() == found.take(i as int));
                    assert(found.take(i + 1).last() == found[i as int]);
                }
                match &groups[i] {
                    Some(text) => match parse_url(text.as_str()) {
                        Some(parts) => {
                            assert(url_texts(urls@.push(parts)) =~= url_texts(urls@).push(parts@));
                            urls.push(parts);
                        },
                        None => {},
                    },
                    None => {},
                }
                i += 1;
            }
            assert(found.take(groups.len() as int) == found);
            collect_paths(&urls)
        },
        None => Vec::new(),
    }
}

/// The bases of a list of URLs, in order.
pub open spec fn bases_of(urls: Seq<UrlText>) -> Seq<Seq<char>> {
    Seq::new(urls.len(), |i: int| urls[i].base)
}

/// `urls[i]` is the first of the list with its base.
pub open spec fn first_of_its_base(urls: Seq<UrlText>, i: int) -> bool {
    &&& 0 <= i < urls.len()
    &&& forall|j: int| 0 <= j < i ==> (#[trigger] urls[j]).base != urls[i].base
}

/// A base occurs among the bases of a list exactly where one of its URLs
/// has it.
proof fn lemma_has_base(urls: Seq<UrlText>, base: Seq<char>)
    ensures
        has_base(urls, base) == bases_of(urls).to_set().contains(base),
{
    if has_base(urls, base) {
        let i = choose|i: int| 0 <= i < urls.len() && (#[trigger] urls[i]).base == base;
        assert(bases_of(urls)[i] == base);
    }
    if bases_of(urls).to_set().contains(base) {
        let i = choose|i: int| 0 <= i < bases_of(urls).len() && bases_of(urls)[i] == base;
        assert(urls[i].base == base);
    }
}

/// The bases of a list are those of its front and that of its last URL.
proof fn lemma_bases_of_last(urls: Seq<UrlText>)
    requires
        urls.len() > 0,
    ensures
        bases_of(urls).to_set() == bases_of(urls.drop_last()).to_set().insert(urls.last().base),
{
    let front = urls.drop_last();
    let all = bases_of(urls).to_set();
    let grown = bases_of(front).to_set().insert(urls.last().base);
    assert forall|b: Seq<char>| all.contains(b) == grown.contains(b) by {
        if all.contains(b) {
            let i = choose|i: int| 0 <= i < bases_of(urls).len() && bases_of(urls)[i] == b;
            if i < front.len() {
                assert(bases_of(front)[i] == b);
            }
        }
        if bases_of(front).to_set().contains(b) {
            let i = choose|i: int| 0 <= i < bases_of(front).len() && bases_of(front)[i] == b;
            assert(bases_of(urls)[i] == b);
        }
        if b == urls.last().base {
            assert(bases_of(urls)[urls.len() - 1] == b);
        }
    }
    assert(all =~= grown);
}

/// A list of URLs contributes as many paths as it has bases.
pub proof fn lemma_path_count(urls: Seq<UrlText>)
    ensures
        distinct_paths(urls).len() == bases_of(urls).to_set().len(),
    decreases urls.len(),
{
    broadcast use vstd::seq_lib::seq_to_set_is_finite;

    if urls.len() == 0 {
        assert(bases_of(urls).to_set() =~= Set::<Seq<char>>::empty());
    } else {
        lemma_path_count(urls.drop_last());
        lemma_has_base(urls.drop_last(), urls.last().base);
        lemma_bases_of_last(urls);
    }
}

/// The first URL of a base within a list is the first of it within every
/// front of the list that holds it.
proof fn lemma_first_in_front(urls: Seq<UrlText>, i: int)
    requires
        0 <= i < urls.len() - 1,
    ensures
        first_of_its_base(urls, i) == first_of_its_base(urls.drop_last(), i),
{
    let front = urls.drop_last();
    if first_of_its_base(urls, i) {
        assert forall|j: int| 0 <= j < i implies (#[trigger] front[j]).base != front[i].base by {
            assert(front[j] == urls[j]);
        }
    }
    if first_of_its_base(front, i) {
        assert forall|j: int| 0 <= j < i implies (#[trigger] urls[j]).base != urls[i].base by {
            assert(front[j] == urls[j]);
        }
    }
}

/// The last URL of a list is the first of its base exactly where no URL
/// before it has that base.
proof fn lemma_first_at_last(urls: Seq<UrlText>)
    requires
        urls.len() > 0,
    ensures
        first_of_its_base(urls, urls.len() - 1) == !has_base(urls.drop_last(), urls.last().base),
{
    let front = urls.drop_last();
    let n = urls.len() - 1;
    if has_base(front, urls.last().base) {
        let j = choose|j: int| 0 <= j < front.len() && (#[trigger] front[j]).base == urls.last().base;
        assert(urls[j] == front[j]);
    } else {
        assert forall|j: int| 0 <= j < n implies (#[trigger] urls[j]).base != urls[n].base by {
            assert(front[j] == urls[j]);
        }
    }
}

/// The URL that is the first of its base contributes its path and query.
pub proof fn lemma_first_of_base_contributes(urls: Seq<UrlText>, i: int)
    requires
        first_of_its_base(urls, i),
    ensures
        distinct_paths(urls).contains(path_and_query(urls[i])),
    decreases urls.len(),
{
    let front = urls.drop_last();
    if i < urls.len() - 1 {
        lemma_first_in_front(urls, i);
        lemma_first_of_base_contributes(front, i);
        let k = choose|k: int|
            0 <= k < distinct_paths(front).len() && distinct_paths(front)[k] == path_and_query(
                front[i],
            );
        assert(distinct_paths(urls)[k] == path_and_query(urls[i]));
    } else {
        lemma_first_at_last(urls);
        assert(distinct_paths(urls)[distinct_paths(front).len() as int] == path_and_query(urls[i]));
    }
}

/// Which URL a contributed path comes from: one that is the first of its
/// base.
pub open spec fn source_of(urls: Seq<UrlText>, k: int) -> int {
    choose|i: int| first_of_its_base(urls, i) && distinct_paths(urls)[k] == path_and_query(urls[i])
}

/// Every contributed path is the path and query of a URL that is the first
/// of its base.
pub proof fn lemma_contribution_is_first(urls: Seq<UrlText>, k: int)
    requires
        0 <= k < distinct_paths(urls).len(),
    ensures
        first_of_its_base(urls, source_of(urls, k)),
        distinct_paths(urls)[k] == path_and_query(urls[source_of(urls, k)]),
    decreases urls.len(),
{
    let front = urls.drop_last();
    if urls.len() > 0 {
        if k < distinct_paths(front).len() {
            lemma_contribution_is_first(front, k);
            let i = source_of(front, k);
            lemma_first_in_front(urls, i);
            assert(distinct_paths(urls)[k] == path_and_query(urls[i]));
            assert(first_of_its_base(urls, i) && distinct_paths(urls)[k] == path_and_query(urls[i]));
        } else {
            let n = urls.len() - 1;
            lemma_first_at_last(urls);
            assert(first_of_its_base(urls, n) && distinct_paths(urls)[k] == path_and_query(urls[n]));
        }
    }
}

} // verus!
