//! Where license documents of a package are looked for: license-named files,
//! repository URLs and license expressions.
use vstd::prelude::*;
use vstd::string::StringExecFns;
use crate::text::{
    chars_of, contains_lower, contains_lowercase, find, find_in, lemma_find_from_sound, matches_at,
    string_of,
};

verus! {

/// A directory entry with this name holds license documents: its ASCII
/// lower-cased name contains `license`, `licence`, `copyright` or `copying`.
pub open spec fn license_like(name: Seq<char>) -> bool {
    contains_lower(name, "license"@) || contains_lower(name, "licence"@) || contains_lower(
        name,
        "copyright"@,
    ) || contains_lower(name, "copying"@)
}

/// Whether a directory entry named `name` holds license documents.
pub fn is_license_name(name: &str) -> (r: bool)
    ensures
        r == license_like(name@),
{
    let n = chars_of(name);
    contains_lowercase(&n, &chars_of("license")) || contains_lowercase(&n, &chars_of("licence"))
        || contains_lowercase(&n, &chars_of("copyright")) || contains_lowercase(
        &n,
        &chars_of("copying"),
    )
}

/// `s` without one trailing `/`.
pub open spec fn without_trailing_slash(s: Seq<char>) -> Seq<char> {
    if s.len() > 0 && s.last() == '/' {
        s.drop_last()
    } else {
        s
    }
}

/// The part of `s` before the first occurrence of `p`, or all of `s`.
pub open spec fn before_first(s: Seq<char>, p: Seq<char>) -> Seq<char> {
    match find(s, p) {
        Some(i) => s.take(i),
        None => s,
    }
}

/// A repository URL as it is cloned: one trailing `/` dropped, then everything
/// from the first `/tree/` on.
pub open spec fn clone_url(url: Seq<char>) -> Seq<char> {
    before_first(without_trailing_slash(url), "/tree/"@)
}

/// The URL to clone for the repository URL that a package declares.
pub fn normalize_repo_url(url: &str) -> (r: String)
    ensures
        r@ == clone_url(url@),
{
    let mut s = chars_of(url);
    if s.len() > 0 && s[s.len() - 1] == '/' {
        s.pop();
    }
    assert(s@ =~= without_trailing_slash(url@));
    let ghost t = s@;
    let pat = chars_of("/tree/");
    match find_in(&s, &pat) {
        Some(i) => {
            proof {
                lemma_find_from_sound(t, pat@, 0);
            }
            s.truncate(i);
            assert(s@ =~= t.take(i as int));
            string_of(&s)
        },
        None => string_of(&s),
    }
}

/// The message with which a clone reports that the repository does not exist.
pub open spec fn not_found_message() -> Seq<char> {
    "unexpected http status code: 404"@
}

/// Whether two character sequences are equal.
fn same_chars(a: &[char], b: &[char]) -> (r: bool)
    ensures
        r == (a@ == b@),
{
    if a.len() != b.len() {
        return false;
    }
    let r = matches_at(a, b, 0);
    assert(a@.subrange(0, b@.len() as int) =~= a@);
    r
}

/// Whether a failed clone failed because the repository was not found, which
/// is no error: the package just has no repository to look into.
pub fn is_repo_not_found(message: &str) -> (r: bool)
    ensures
        r == (message@ == not_found_message()),
{
    same_chars(&chars_of(message), &chars_of("unexpected http status code: 404"))
}

/// The directories of a clone that are scanned for license files, in order:
/// the clone itself, `<name>` in it, and `crates/<name>` in it.
pub open spec fn repo_dirs(clone_dir: Seq<char>, name: Seq<char>) -> Seq<Seq<char>> {
    seq![clone_dir, clone_dir + "/"@ + name, clone_dir + "/crates/"@ + name]
}

/// The directories of the clone at `clone_dir` to scan for the licenses of
/// the package `name`.
pub fn repo_candidates(clone_dir: &str, name: &str) -> (r: Vec<String>)
    ensures
        r.deep_view() == repo_dirs(clone_dir@, name@),
{
    let mut r: Vec<String> = Vec::new();
    r.push(String::from_str(clone_dir));
    r.push(String::from_str(clone_dir).concat("/").concat(name));
    r.push(String::from_str(clone_dir).concat("/crates/").concat(name));
    assert(r.deep_view() =~= repo_dirs(clone_dir@, name@));
    r
}

/// Characters that separate the words of a license expression.
pub open spec fn is_separator(c: char) -> bool {
    c == ' ' || c == '\t' || c == '\n' || c == '\r' || c == '/'
}

/// Parentheses, which a license expression's words are read without.
pub open spec fn is_paren(c: char) -> bool {
    c == '(' || c == ')'
}

/// The boolean operators of a license expression.
pub open spec fn is_operator(w: Seq<char>) -> bool {
    w == "AND"@ || w == "OR"@ || w == "WITH"@
}

/// The word in progress, if it is a license identifier.
pub open spec fn emit(cur: Seq<char>) -> Seq<Seq<char>> {
    if cur.len() > 0 && !is_operator(cur) {
        seq![cur]
    } else {
        seq![]
    }
}

/// The license identifiers of `s` when the word `cur` is in progress: the
/// maximal runs of non-separator characters, parentheses left out, without
/// the operators.
pub open spec fn identifiers_from(s: Seq<char>, cur: Seq<char>) -> Seq<Seq<char>>
    decreases s.len(),
{
    if s.len() == 0 {
        emit(cur)
    } else if is_separator(s[0]) {
        emit(cur) + identifiers_from(s.drop_first(), seq![])
    } else if is_paren(s[0]) {
        identifiers_from(s.drop_first(), cur)
    } else {
        identifiers_from(s.drop_first(), cur.push(s[0]))
    }
}

/// The license identifiers of a license expression, in order, repeats kept.
pub open spec fn identifiers(expr: Seq<char>) -> Seq<Seq<char>> {
    identifiers_from(expr, seq![])
}

fn is_operator_word(w: &[char]) -> (r: bool)
    ensures
        r == is_operator(w@),
{
    same_chars(w, &chars_of("AND")) || same_chars(w, &chars_of("OR")) || same_chars(
        w,
        &chars_of("WITH"),
    )
}

/// Appends the word in progress to `out` if it is a license identifier.
fn push_word(out: &mut Vec<String>, cur: &Vec<char>)
    ensures
        final(out).deep_view() == old(out).deep_view() + emit(cur@),
{
    if cur.len() > 0 && !is_operator_word(cur) {
        out.push(string_of(cur));
        assert(final(out).deep_view() =~= old(out).deep_view() + emit(cur@));
    } else {
        assert(old(out).deep_view() + emit(cur@) =~= old(out).deep_view());
    }
}

/// The license identifiers of a license expression such as
/// `(MIT OR Apache-2.0) AND Unicode-DFS-2016`: words split at blanks and
/// `/`, parentheses removed, without `AND`, `OR` and `WITH`.
pub fn license_identifiers(expr: &str) -> (r: Vec<String>)
    ensures
        r.deep_view() == identifiers(expr@),
{
    let s = chars_of(expr);
    let mut out: Vec<String> = Vec::new();
    let mut cur: Vec<char> = Vec::new();
    let mut i: usize = 0;
    assert(out.deep_view() + identifiers_from(s@.subrange(0, s@.len() as int), cur@) =~= identifiers(expr@)) by {
        assert(s@.subrange(0, s@.len() as int) =~= s@);
        assert(cur@ =~= seq![]);
    }
    while i < s.len()
        invariant
            i <= s@.len(),
            s@ == expr@,
            identifiers(expr@) == out.deep_view() + identifiers_from(
                s@.subrange(i as int, s@.len() as int),
                cur@,
            ),
        decreases s@.len() - i,
    {
        let c = s[i];
        let ghost rest = s@.subrange(i as int, s@.len() as int);
        assert(rest.drop_first() =~= s@.subrange(i + 1, s@.len() as int));
        if c == ' ' || c == '\t' || c == '\n' || c == '\r' || c == '/' {
            push_word(&mut out, &cur);
            cur = Vec::new();
            assert(cur@ =~= seq![]);
        } else if c == '(' || c == ')' {
        } else {
            cur.push(c);
        }
        i = i + 1;
    }
    assert(s@.subrange(i as int, s@.len() as int) =~= seq![]);
    push_word(&mut out, &cur);
    out
}

/// The corpus file that holds the canonical text of license `id`.
pub open spec fn corpus_file(corpus_dir: Seq<char>, id: Seq<char>) -> Seq<char> {
    corpus_dir + "/text/"@ + id + ".txt"@
}

/// The corpus files to read for a license expression: one per identifier.
pub fn corpus_files(corpus_dir: &str, expr: &str) -> (r: Vec<String>)
    ensures
        r@.len() == identifiers(expr@).len(),
        forall|k: int|
            0 <= k < r@.len() ==> #[trigger] r@[k]@ == corpus_file(corpus_dir@, identifiers(expr@)[k]),
{
    let ids = license_identifiers(expr);
    let mut r: Vec<String> = Vec::new();
    let mut k: usize = 0;
    while k < ids.len()
        invariant
            k <= ids@.len(),
            ids.deep_view() == identifiers(expr@),
            r@.len() == k,
            forall|j: int|
                0 <= j < k ==> #[trigger] r@[j]@ == corpus_file(corpus_dir@, identifiers(expr@)[j]),
        decreases ids@.len() - k,
    {
        assert(ids@[k as int]@ == ids.deep_view()[k as int]);
        r.push(String::from_str(corpus_dir).concat("/text/").concat(ids[k].as_str()).concat(".txt"));
        k = k + 1;
    }
    r
}

} // verus!
