use robofuzz::address::{cleaned_url, mode_for, origin, select_mode, Mode, UrlParts};
use robofuzz::sitemap::{collect_paths, extract_paths, path_with_query};
use robofuzz::wordlist::{augment_wordlist, create_wordlist, holds, trim_leading_slashes, unique};

fn words(list: &[&str]) -> Vec<String> {
    list.iter().map(|w| w.to_string()).collect()
}

fn parts(base: &str, path: &str, query: Option<&str>) -> UrlParts {
    UrlParts {
        scheme: "https".to_string(),
        host: Some("example.li".to_string()),
        base: base.to_string(),
        path: path.to_string(),
        query: query.map(String::from),
    }
}

#[test]
fn sitemap_entries_become_paths() {
    let document = "<?xml version=\"1.0\"?>\n<urlset>\n\
        <url><loc>https://example.li/about</loc></url>\n\
        <url><loc>https://example.li/shop/item?id=7</loc></url>\n\
        <url><LOC>https://example.li/Upper</LOC></url>\n\
        </urlset>\n";
    assert_eq!(extract_paths(document), vec!["/about", "/shop/item?id=7", "/Upper"]);
}

#[test]
fn first_entry_of_a_base_wins() {
    let document = "<loc>https://example.li/a?x=1</loc>\n\
        <loc>https://example.li/a?x=2</loc>\n\
        <loc>https://example.li/a</loc>\n\
        <loc>https://example.li/b</loc>\n\
        <loc>https://example.li/b?y=1</loc>\n\
        <loc>https://other.li/a</loc>\n";
    // The base is the URL without its query: the three entries for /a are
    // one base, and so are the two for /b. Another host is another base.
    assert_eq!(extract_paths(document), vec!["/a?x=1", "/b", "/a"]);
}

#[test]
fn entries_that_differ_only_by_a_query_collapse() {
    let document = "<loc>https://a.com/x</loc><loc>https://a.com/x?y=1</loc>";
    assert_eq!(extract_paths(document), vec!["/x"]);
    let document = "<loc>https://a.com/x?y=1</loc><loc>https://a.com/x</loc>";
    assert_eq!(extract_paths(document), vec!["/x?y=1"]);
    let document = "<loc>https://a.com/x?</loc><loc>https://a.com/x</loc>";
    assert_eq!(extract_paths(document), vec!["/x?"]);
}

#[test]
fn a_fragment_does_not_belong_to_the_base() {
    let document = "<loc>https://a.com/x#top</loc><loc>https://a.com/x#end</loc>\
        <loc>https://a.com/x?y=1#top</loc><loc>https://a.com/z?q=2#f</loc>";
    assert_eq!(extract_paths(document), vec!["/x", "/z?q=2"]);
}

#[test]
fn scheme_port_and_host_belong_to_the_base() {
    let document = "<loc>https://a.com/x</loc><loc>http://a.com/x</loc>\
        <loc>https://a.com:8443/x</loc><loc>https://b.com/x</loc><loc>https://A.com/x</loc>";
    assert_eq!(extract_paths(document), vec!["/x", "/x", "/x", "/x"]);
}

#[test]
fn entries_that_are_no_urls_are_passed_over() {
    let document = "<loc>not a url</loc><loc>/relative/path</loc>\
        <loc>https://example.li/kept</loc><loc></loc>";
    assert_eq!(extract_paths(document), vec!["/kept"]);
}

#[test]
fn entries_do_not_run_over_lines_or_tags() {
    let document = "<loc>https://example.li/one</loc><loc>https://example.li/two</loc>\n\
        <loc>https://example.li/bro\nken</loc>";
    assert_eq!(extract_paths(document), vec!["/one", "/two"]);
    assert_eq!(extract_paths(""), Vec::<String>::new());
    assert_eq!(extract_paths("User-agent: *\nDisallow: /private\n"), Vec::<String>::new());
}

#[test]
fn urls_are_normalised_by_the_parser() {
    let document = "<loc>HTTPS://EXAMPLE.li/a/../b c</loc><loc>https://example.li</loc>";
    assert_eq!(extract_paths(document), vec!["/b%20c", "/"]);
}

#[test]
fn collected_paths_keep_the_order_of_first_entries() {
    let urls = vec![
        parts("https://example.li/b", "/b", Some("q=1")),
        parts("https://example.li/a", "/a", None),
        parts("https://example.li/b", "/b", Some("q=2")),
        parts("https://example.li/c", "/c", None),
        parts("https://example.li/a", "/a", Some("late")),
        parts("https://example.li/b", "/b", None),
    ];
    assert_eq!(collect_paths(&urls), vec!["/b?q=1", "/a", "/c"]);
    assert_eq!(collect_paths(&Vec::new()), Vec::<String>::new());
}

#[test]
fn one_path_for_each_base() {
    let bases = ["u", "v", "u", "w", "v", "u", "x", "x"];
    let urls: Vec<UrlParts> = bases
        .iter()
        .enumerate()
        .map(|(i, base)| parts(base, &format!("/{}{}", base, i), None))
        .collect();
    // As many paths as bases, each from the first entry of its base.
    assert_eq!(collect_paths(&urls), vec!["/u0", "/v1", "/w3", "/x6"]);
}

#[test]
fn query_follows_the_path_behind_a_question_mark() {
    assert_eq!(path_with_query(&parts("b", "/p", Some("a=1&b=2"))), "/p?a=1&b=2");
    assert_eq!(path_with_query(&parts("b", "/p", Some(""))), "/p?");
    assert_eq!(path_with_query(&parts("b", "/p", None)), "/p");
}

#[test]
fn leading_slashes_are_trimmed() {
    assert_eq!(trim_leading_slashes("/about"), "about");
    assert_eq!(trim_leading_slashes("///a/b/"), "a/b/");
    assert_eq!(trim_leading_slashes("a/b"), "a/b");
    assert_eq!(trim_leading_slashes("/"), "");
    assert_eq!(trim_leading_slashes(""), "");
    for text in ["/x", "//", "x/", "", "/é/"] {
        assert_eq!(trim_leading_slashes(text), text.trim_start_matches('/'));
    }
}

#[test]
fn sitemap_paths_join_the_wordlist_once_each() {
    let paths = words(&["/about", "/shop/item?id=7", "/admin", "//about"]);
    let wordlist = words(&["admin", "login", "about", "login"]);
    assert_eq!(
        augment_wordlist(&paths, &wordlist),
        vec!["about", "shop/item?id=7", "admin", "login"]
    );
    assert_eq!(augment_wordlist(&Vec::new(), &wordlist), vec!["admin", "login", "about"]);
    assert_eq!(augment_wordlist(&Vec::new(), &Vec::new()), Vec::<String>::new());
}

#[test]
fn unique_keeps_first_places() {
    assert_eq!(unique(&words(&["b", "a", "b", "c", "a"])), vec!["b", "a", "c"]);
    assert_eq!(unique(&Vec::new()), Vec::<String>::new());
    assert!(holds(&words(&["b", "a"]), &"a".to_string()));
    assert!(!holds(&words(&["b", "a"]), &"c".to_string()));
}

#[test]
fn wordlist_of_a_text_is_lower_case_and_distinct() {
    assert_eq!(
        create_wordlist("User-agent: *\nDisallow: /Admin\ndisallow: /admin\nDISALLOW: /x\n"),
        vec!["user-agent:", "*", "disallow:", "/admin", "/x"]
    );
    assert_eq!(create_wordlist(""), Vec::<String>::new());
    assert_eq!(create_wordlist("  \n\t"), Vec::<String>::new());
    assert_eq!(create_wordlist("ÄB äb Äb"), vec!["äb"]);
}

#[test]
fn host_placeholder_selects_a_host_run() {
    assert_eq!(select_mode("https://FUZZ.example.li/"), Mode::Host);
    assert_eq!(select_mode("https://fuzz.example.li/FUZZ"), Mode::Host);
    assert_eq!(cleaned_url("https://FUZZ.example.li/"), Some("https://fuzz.example.li".to_string()));
}

#[test]
fn path_placeholder_selects_a_path_run() {
    assert_eq!(select_mode("https://example.li/FUZZ"), Mode::Path);
    assert_eq!(select_mode("https://example.li/a?file=FUZ2ZFUZZ"), Mode::Path);
    assert_eq!(select_mode("https://example.li/index.php?page=FUZZ"), Mode::Path);
    assert_eq!(select_mode("https://example.li/fuzz"), Mode::Path);
}

#[test]
fn placeholder_elsewhere_selects_nothing() {
    assert_eq!(select_mode("https://example.li/index"), Mode::Neither);
    assert_eq!(select_mode("https://afuzz.example.li/"), Mode::Neither);
    assert_eq!(select_mode("https://example.li/#FUZZ"), Mode::Neither);
}

#[test]
fn text_that_is_no_url_selects_nothing() {
    assert_eq!(select_mode("FUZZ"), Mode::Unparsed);
    assert_eq!(select_mode(""), Mode::Unparsed);
    assert_eq!(select_mode("/just/a/path/FUZZ"), Mode::Unparsed);
    assert_eq!(cleaned_url("not a url"), None);
}

#[test]
fn mode_goes_by_host_first() {
    assert_eq!(mode_for("fuzz.example.li", "/fuzz"), Mode::Host);
    assert_eq!(mode_for("fuzz.example.li", "/"), Mode::Host);
    assert_eq!(mode_for("example.li", "/a/fuzz/b"), Mode::Path);
    assert_eq!(mode_for("example.li", "/a/FUZZ/b"), Mode::Neither);
    assert_eq!(mode_for("fuzz", "/"), Mode::Neither);
    assert_eq!(mode_for("", ""), Mode::Neither);
}

#[test]
fn cleaned_url_is_scheme_and_host() {
    assert_eq!(
        cleaned_url("https://example.li:8443/a/FUZZ?x=1#frag"),
        Some("https://example.li".to_string())
    );
    assert_eq!(cleaned_url("http://user:pw@Example.LI/FUZZ"), Some("http://example.li".to_string()));
    assert_eq!(cleaned_url("mailto:someone@example.li"), Some("mailto://".to_string()));
    assert_eq!(origin(&parts("b", "/p", None)), "https://example.li");
}
