//! What is asked of the package index and of a repository's hosting site, and
//! how their pages are read. Pages come in as the anchors they hold; a page
//! that does not exist (404) comes in as `None`.
use vstd::prelude::*;
use vstd::string::StringExecFns;
use crate::error::Error;
use crate::text::{
    begins_with, chars_of, contains_lower, contains_lowercase, find, find_from, find_in,
    find_in_from, lemma_find_from_sound, replace_first, replace_first_in, starts_with, string_of,
};

verus! {

/// An anchor of an HTML page: its link target, its `class` attribute and its
/// inner text.
#[derive(Clone, Debug, PartialEq, Eq, Default)]
pub struct Anchor {
    pub href: String,
    pub class: String,
    pub text: String,
}

/// The source listing of a package version at the package index.
pub open spec fn listing_of(name: Seq<char>, version: Option<Seq<char>>) -> Seq<char> {
    "https://docs.rs/crate/"@ + name + "/"@ + match version {
        Some(v) => v,
        None => "latest"@,
    } + "/source/"@
}

/// The URL of the source listing of package `name` at `version`, or at the
/// latest version when `version` is `None`.
pub fn listing_url(name: &str, version: Option<&str>) -> (r: String)
    ensures
        r@ == listing_of(name@, match version {
            Some(v) => Some(v@),
            None => None,
        }),
{
    let v = match version {
        Some(v) => v,
        None => "latest",
    };
    String::from_str("https://docs.rs/crate/").concat(name).concat("/").concat(v).concat("/source/")
}

/// A link or anchor text that points at a license document.
pub open spec fn mentions_license(s: Seq<char>) -> bool {
    contains_lower(s, "license"@) || contains_lower(s, "licence"@)
}

/// Whether a link or anchor text points at a license document.
pub fn is_license_link(s: &str) -> (r: bool)
    ensures
        r == mentions_license(s@),
{
    let c = chars_of(s);
    contains_lowercase(&c, &chars_of("license")) || contains_lowercase(&c, &chars_of("licence"))
}

/// Where the scheme and host of an absolute URL end: at the first `/` after
/// `://`, or at its end.
pub open spec fn origin_end(base: Seq<char>) -> int {
    match find(base, "://"@) {
        Some(i) => match find_from(base, "/"@, i + 3) {
            Some(j) => j,
            None => base.len() as int,
        },
        None => 0,
    }
}

/// Where the directory part of a URL ends: just after its last `/`.
pub open spec fn dir_end(s: Seq<char>) -> int
    decreases s.len(),
{
    if s.len() == 0 {
        0
    } else if s.last() == '/' {
        s.len() as int
    } else {
        dir_end(s.drop_last())
    }
}

/// The link `target` on the page at `base`, made absolute: an absolute URL
/// stays as it is, a path from the root follows the scheme and host of
/// `base`, any other path follows the directory part of `base`.
pub open spec fn joined(base: Seq<char>, target: Seq<char>) -> Seq<char> {
    if starts_with(target, "http://"@) || starts_with(target, "https://"@) {
        target
    } else if starts_with(target, "/"@) {
        base.take(origin_end(base)) + target
    } else {
        base.take(dir_end(base)) + target
    }
}

proof fn lemma_dir_end_bounds(s: Seq<char>)
    ensures
        0 <= dir_end(s) <= s.len(),
    decreases s.len(),
{
    if s.len() > 0 && s.last() != '/' {
        lemma_dir_end_bounds(s.drop_last());
    }
}

/// The first `n` characters of `s`.
fn prefix(s: &Vec<char>, n: usize) -> (r: Vec<char>)
    requires
        n <= s@.len(),
    ensures
        r@ == s@.take(n as int),
{
    let mut r: Vec<char> = Vec::new();
    let mut j: usize = 0;
    while j < n
        invariant
            j <= n <= s@.len(),
            r@ == s@.take(j as int),
        decreases n - j,
    {
        r.push(s[j]);
        j = j + 1;
        assert(r@ =~= s@.take(j as int));
    }
    r
}

/// `a` followed by `b`.
fn concat_chars(a: Vec<char>, b: &Vec<char>) -> (r: Vec<char>)
    ensures
        r@ == a@ + b@,
{
    let mut r = a;
    let ghost a0 = r@;
    let mut j: usize = 0;
    while j < b.len()
        invariant
            j <= b@.len(),
            r@ == a0 + b@.take(j as int),
        decreases b@.len() - j,
    {
        r.push(b[j]);
        j = j + 1;
        assert(r@ =~= a0 + b@.take(j as int));
    }
    assert(b@.take(j as int) =~= b@);
    r
}

/// Where the directory part of `s` ends.
fn dir_end_of(s: &Vec<char>) -> (r: usize)
    ensures
        r as int == dir_end(s@),
{
    let mut n: usize = s.len();
    assert(s@.take(n as int) =~= s@);
    while n > 0
        invariant
            n <= s@.len(),
            dir_end(s@) == dir_end(s@.take(n as int)),
        decreases n,
    {
        assert(s@.take(n as int).drop_last() =~= s@.take(n - 1));
        if s[n - 1] == '/' {
            return n;
        }
        n = n - 1;
    }
    n
}

/// The link `target` on the page at `base`, made absolute.
pub fn join_url(base: &str, target: &str) -> (r: String)
    ensures
        r@ == joined(base@, target@),
{
    let b = chars_of(base);
    let t = chars_of(target);
    if begins_with(&t, &chars_of("http://")) || begins_with(&t, &chars_of("https://")) {
        return string_of(&t);
    }
    let end: usize = if begins_with(&t, &chars_of("/")) {
        match find_in(&b, &chars_of("://")) {
            Some(i) => {
                proof {
                    reveal_strlit("://");
                    lemma_find_from_sound(b@, "://"@, 0);
                }
                let bl = b.len();
                assert(i + 3 <= bl);
                match find_in_from(&b, &chars_of("/"), i + 3) {
                    Some(j) => {
                        proof {
                            lemma_find_from_sound(b@, "/"@, i + 3);
                        }
                        j
                    },
                    None => b.len(),
                }
            },
            None => 0,
        }
    } else {
        proof {
            lemma_dir_end_bounds(b@);
        }
        dir_end_of(&b)
    };
    let r = concat_chars(prefix(&b, end), &t);
    string_of(&r)
}

/// The license links among `targets`, made absolute against `base`, in order.
pub open spec fn license_links_of(base: Seq<char>, targets: Seq<Seq<char>>) -> Seq<Seq<char>>
    decreases targets.len(),
{
    if targets.len() == 0 {
        seq![]
    } else if mentions_license(targets.last()) {
        license_links_of(base, targets.drop_last()).push(joined(base, targets.last()))
    } else {
        license_links_of(base, targets.drop_last())
    }
}

/// The license documents to fetch from a source listing at `listing`, given
/// the link targets of its anchors, or `None` where the listing does not
/// exist: then there is nothing to fetch, and no error.
pub fn index_license_links(listing: &str, targets: Option<Vec<String>>) -> (r: Vec<String>)
    ensures
        r.deep_view() == match targets {
            Some(t) => license_links_of(listing@, t.deep_view()),
            None => seq![],
        },
{
    let targets = match targets {
        Some(t) => t,
        None => {
            let r: Vec<String> = Vec::new();
            assert(r.deep_view() =~= seq![]);
            return r;
        },
    };
    let ghost tv = targets.deep_view();
    let mut r: Vec<String> = Vec::new();
    let mut i: usize = 0;
    assert(tv.take(0) =~= seq![]);
    assert(r.deep_view() =~= seq![]);
    while i < targets.len()
        invariant
            tv == targets.deep_view(),
            i <= tv.len(),
            r.deep_view() == license_links_of(listing@, tv.take(i as int)),
        decreases tv.len() - i,
    {
        assert(tv.take(i + 1).drop_last() =~= tv.take(i as int));
        assert(tv.take(i + 1).last() == targets@[i as int]@);
        if is_license_link(targets[i].as_str()) {
            let u = join_url(listing, targets[i].as_str());
            let ghost before = r.deep_view();
            r.push(u);
            assert(r.deep_view() =~= before.push(u@));
        }
        i = i + 1;
    }
    assert(tv.take(i as int) =~= tv);
    r
}

/// The documents that were found, in order; those that did not exist are
/// left out.
pub open spec fn found_of(results: Seq<Option<Seq<char>>>) -> Seq<Seq<char>>
    decreases results.len(),
{
    if results.len() == 0 {
        seq![]
    } else {
        match results.last() {
            Some(d) => found_of(results.drop_last()).push(d),
            None => found_of(results.drop_last()),
        }
    }
}

/// The documents that were found among the results of fetching each link.
pub fn found_documents(results: Vec<Option<String>>) -> (r: Vec<String>)
    ensures
        r.deep_view() == found_of(results.deep_view()),
{
    let ghost rv = results.deep_view();
    let mut r: Vec<String> = Vec::new();
    let mut i: usize = 0;
    assert(rv.take(0) =~= seq![]);
    assert(r.deep_view() =~= seq![]);
    while i < results.len()
        invariant
            rv == results.deep_view(),
            i <= rv.len(),
            r.deep_view() == found_of(rv.take(i as int)),
        decreases rv.len() - i,
    {
        assert(rv.take(i + 1).drop_last() =~= rv.take(i as int));
        assert(rv.take(i + 1).last() == results@[i as int].deep_view());
        match &results[i] {
            Some(d) => {
                let ghost before = r.deep_view();
                r.push(crate::codec::copy_string(d));
                assert(r.deep_view() =~= before.push(d@));
            },
            None => {},
        }
        i = i + 1;
    }
    assert(rv.take(i as int) =~= rv);
    r
}

/// A file fetched from this URL is rendered inside a code block of an HTML
/// page: it is a file view of the package index's source listing.
pub open spec fn is_source_view(url: Seq<char>) -> bool {
    starts_with(url, "https://docs.rs/crate/"@) && contains_lower(url, "/source/"@)
}

/// Whether the text of a file fetched from `url` is the inner text of the
/// page's first code block rather than the body itself.
pub fn wants_code_block(url: &str) -> (r: bool)
    ensures
        r == is_source_view(url@),
{
    let u = chars_of(url);
    begins_with(&u, &chars_of("https://docs.rs/crate/")) && contains_lowercase(&u, &chars_of("/source/"))
}

/// The raw-content URL of a file view on the hosting site.
pub open spec fn raw_of(url: Seq<char>) -> Seq<char> {
    replace_first(
        replace_first(url, "://github.com/"@, "://raw.githubusercontent.com/"@),
        "/blob/"@,
        "/"@,
    )
}

/// The raw-content URL of a file view on the hosting site: the host becomes
/// the raw-content host and the `/blob/` segment goes.
pub fn raw_url(url: &str) -> (r: String)
    ensures
        r@ == raw_of(url@),
{
    let u = chars_of(url);
    let a = replace_first_in(&u, &chars_of("://github.com/"), &chars_of("://raw.githubusercontent.com/"));
    let b = replace_first_in(&a, &chars_of("/blob/"), &chars_of("/"));
    string_of(&b)
}

/// An anchor styled as a link of the file list of a repository home page.
pub open spec fn is_file_row(a: Anchor) -> bool {
    contains_lower(a.class@, "js-navigation-open"@) && contains_lower(a.class@, "link--primary"@)
}

/// Whether an anchor is a link of the file list of a repository home page.
pub fn file_row(a: &Anchor) -> (r: bool)
    ensures
        r == is_file_row(*a),
{
    let c = chars_of(a.class.as_str());
    contains_lowercase(&c, &chars_of("js-navigation-open")) && contains_lowercase(&c, &chars_of("link--primary"))
}

/// The raw URLs of the license files that a home page lists.
pub open spec fn hosting_links_of(page: Seq<char>, anchors: Seq<Anchor>) -> Seq<Seq<char>>
    decreases anchors.len(),
{
    if anchors.len() == 0 {
        seq![]
    } else if is_file_row(anchors.last()) && mentions_license(anchors.last().text@) {
        hosting_links_of(page, anchors.drop_last()).push(raw_of(joined(page, anchors.last().href@)))
    } else {
        hosting_links_of(page, anchors.drop_last())
    }
}

/// The license documents to fetch from the home page at `page` of a
/// repository, given the anchors of the page, or `None` where it does not
/// exist: then there is nothing to fetch. A page without any file-list link
/// is not a home page of the hosting site, which is an error.
pub fn hosting_license_links(page: &str, anchors: Option<Vec<Anchor>>) -> (r: Result<Vec<String>, Error>)
    ensures
        match anchors {
            None => r matches Ok(v) && v@.len() == 0,
            Some(a) => if exists|k: int| 0 <= k < a@.len() && is_file_row(#[trigger] a@[k]) {
                r matches Ok(v) && v.deep_view() == hosting_links_of(page@, a@)
            } else {
                r matches Err(Error::NotAHostingPage(m)) && m@ == page@
            },
        },
{
    let anchors = match anchors {
        Some(a) => a,
        None => {
            return Ok(Vec::new());
        },
    };
    let mut r: Vec<String> = Vec::new();
    let mut any = false;
    let mut i: usize = 0;
    assert(anchors@.take(0) =~= seq![]);
    assert(r.deep_view() =~= seq![]);
    while i < anchors.len()
        invariant
            i <= anchors@.len(),
            r.deep_view() == hosting_links_of(page@, anchors@.take(i as int)),
            any == exists|k: int| 0 <= k < i && is_file_row(#[trigger] anchors@[k]),
        decreases anchors@.len() - i,
    {
        assert(anchors@.take(i + 1).drop_last() =~= anchors@.take(i as int));
        let a = &anchors[i];
        if file_row(a) {
            any = true;
            if is_license_link(a.text.as_str()) {
                let u = raw_url(join_url(page, a.href.as_str()).as_str());
                let ghost before = r.deep_view();
                r.push(u);
                assert(r.deep_view() =~= before.push(u@));
            }
        }
        i = i + 1;
    }
    assert(anchors@.take(i as int) =~= anchors@);
    if !any {
        return Err(Error::NotAHostingPage(String::from_str(page)));
    }
    Ok(r)
}

} // verus!
