//! Reading the parts of an HTML page that the remote sources need: its
//! anchors and its first code block. Tags are recognized in lower case, as
//! the package index and the hosting site write them.
use vstd::prelude::*;
use crate::remote::Anchor;
use crate::text::{chars_of, find, find_from, find_in, find_in_from, lemma_find_from_sound, string_of};

verus! {

/// `s` with markup removed: from each `<` up to the next `>`, both included.
pub open spec fn strip_from(s: Seq<char>, in_tag: bool) -> Seq<char>
    decreases s.len(),
{
    if s.len() == 0 {
        seq![]
    } else if in_tag {
        strip_from(s.drop_first(), s[0] != '>')
    } else if s[0] == '<' {
        strip_from(s.drop_first(), true)
    } else {
        seq![s[0]] + strip_from(s.drop_first(), false)
    }
}

/// The text of `s` without its tags.
pub open spec fn strip_tags(s: Seq<char>) -> Seq<char> {
    strip_from(s, false)
}

/// The character reference at position `i` of `s`, if any, with its length
/// and the character it stands for: `&amp;`, `&lt;`, `&gt;`, `&quot;` or
/// `&#39;`.
pub open spec fn entity(s: Seq<char>, i: int) -> Option<(int, char)> {
    if i + 5 <= s.len() && s[i] == '&' && s[i + 1] == 'a' && s[i + 2] == 'm' && s[i + 3] == 'p'
        && s[i + 4] == ';' {
        Some((5, '&'))
    } else if i + 4 <= s.len() && s[i] == '&' && s[i + 1] == 'l' && s[i + 2] == 't' && s[i + 3]
        == ';' {
        Some((4, '<'))
    } else if i + 4 <= s.len() && s[i] == '&' && s[i + 1] == 'g' && s[i + 2] == 't' && s[i + 3]
        == ';' {
        Some((4, '>'))
    } else if i + 6 <= s.len() && s[i] == '&' && s[i + 1] == 'q' && s[i + 2] == 'u' && s[i + 3]
        == 'o' && s[i + 4] == 't' && s[i + 5] == ';' {
        Some((6, '"'))
    } else if i + 5 <= s.len() && s[i] == '&' && s[i + 1] == '#' && s[i + 2] == '3' && s[i + 3]
        == '9' && s[i + 4] == ';' {
        Some((5, '\''))
    } else {
        None
    }
}

/// The characters of `s` from position `i` on, character references
/// replaced by what they stand for.
pub open spec fn unescape_from(s: Seq<char>, i: int) -> Seq<char>
    decreases s.len() - i,
{
    if i < 0 || i >= s.len() {
        seq![]
    } else {
        match entity(s, i) {
            Some((n, c)) => if n > 0 && i + n <= s.len() {
                seq![c] + unescape_from(s, i + n)
            } else {
                seq![]
            },
            None => seq![s[i]] + unescape_from(s, i + 1),
        }
    }
}

/// `s` with its character references replaced by what they stand for.
pub open spec fn unescape(s: Seq<char>) -> Seq<char> {
    unescape_from(s, 0)
}

/// The readable text of a piece of markup: tags removed, then references
/// replaced.
pub open spec fn text_of(s: Seq<char>) -> Seq<char> {
    unescape(strip_tags(s))
}

/// The value of attribute `key` (given with its `="`) in the attributes of a
/// tag, up to the next `"`, references replaced; empty when it is missing.
pub open spec fn attr_of(attrs: Seq<char>, key: Seq<char>) -> Seq<char> {
    match find(attrs, key) {
        Some(i) => match find_from(attrs, "\""@, i + key.len()) {
            Some(j) => unescape(attrs.subrange(i + key.len(), j)),
            None => seq![],
        },
        None => seq![],
    }
}

/// A character that may follow a tag name.
pub open spec fn ends_name(c: char) -> bool {
    c == ' ' || c == '\t' || c == '\n' || c == '\r' || c == '>'
}

/// The anchor made of the attributes and the inner markup of an `a` element.
pub open spec fn anchor_view(attrs: Seq<char>, inner: Seq<char>) -> (Seq<char>, Seq<char>, Seq<char>) {
    (attr_of(attrs, "href=\""@), attr_of(attrs, "class=\""@), text_of(inner))
}

/// The anchors of `s` that start at position `k` or later, in order: each
/// `<a` followed by a blank or `>`, its attributes up to the next `>`, its
/// inner markup up to the next `</a>`. The scan stops at an element that is
/// not closed.
pub open spec fn anchors_from(s: Seq<char>, k: int) -> Seq<(Seq<char>, Seq<char>, Seq<char>)>
    decreases s.len() + 1 - k,
{
    if k < 0 || k > s.len() {
        seq![]
    } else {
        match find_from(s, "<a"@, k) {
            None => seq![],
            Some(i) => if i < k || i + 3 > s.len() {
                seq![]
            } else if !ends_name(s[i + 2]) {
                anchors_from(s, i + 1)
            } else {
                match find_from(s, ">"@, i + 2) {
                    None => seq![],
                    Some(e) => match find_from(s, "</a>"@, e + 1) {
                        None => seq![],
                        Some(c) => if i < c && c + 4 <= s.len() && i + 2 <= e && e < c {
                            seq![anchor_view(s.subrange(i + 2, e), s.subrange(e + 1, c))]
                                + anchors_from(s, c + 4)
                        } else {
                            seq![]
                        },
                    },
                }
            }
        }
    }
}

/// The anchors of an HTML page.
pub open spec fn anchors(s: Seq<char>) -> Seq<(Seq<char>, Seq<char>, Seq<char>)> {
    anchors_from(s, 0)
}

/// The text of the first `code` element of an HTML page, if it has one.
pub open spec fn code_block(s: Seq<char>) -> Option<Seq<char>> {
    match find(s, "<code"@) {
        None => None,
        Some(i) => match find_from(s, ">"@, i + 5) {
            None => None,
            Some(e) => match find_from(s, "</code>"@, e + 1) {
                None => None,
                Some(c) => Some(text_of(s.subrange(e + 1, c))),
            },
        },
    }
}

/// The characters of `s` from `a` to `b`.
fn slice_of(s: &Vec<char>, a: usize, b: usize) -> (r: Vec<char>)
    requires
        a <= b <= s@.len(),
    ensures
        r@ == s@.subrange(a as int, b as int),
{
    let mut r: Vec<char> = Vec::new();
    let mut j: usize = a;
    while j < b
        invariant
            a <= j <= b <= s@.len(),
            r@ == s@.subrange(a as int, j as int),
        decreases b - j,
    {
        r.push(s[j]);
        j = j + 1;
        assert(r@ =~= s@.subrange(a as int, j as int));
    }
    r
}

/// `s` without its tags.
fn strip_tags_of(s: &Vec<char>) -> (r: Vec<char>)
    ensures
        r@ == strip_tags(s@),
{
    let mut r: Vec<char> = Vec::new();
    let mut in_tag = false;
    let mut i: usize = 0;
    assert(s@.skip(0) =~= s@);
    assert(r@ + strip_from(s@, false) =~= strip_from(s@, false));
    while i < s.len()
        invariant
            i <= s@.len(),
            strip_tags(s@) == r@ + strip_from(s@.skip(i as int), in_tag),
        decreases s@.len() - i,
    {
        let ghost rest = s@.skip(i as int);
        assert(rest.drop_first() =~= s@.skip(i + 1));
        let c = s[i];
        if in_tag {
            in_tag = c != '>';
        } else if c == '<' {
            in_tag = true;
        } else {
            let ghost before = r@;
            r.push(c);
            assert(before + (seq![c] + strip_from(s@.skip(i + 1), false)) =~= r@ + strip_from(
                s@.skip(i + 1),
                false,
            ));
        }
        i = i + 1;
    }
    assert(s@.skip(i as int) =~= seq![]);
    assert(r@ + seq![] =~= r@);
    r
}

/// The character reference at position `i` of `s`, if any.
fn entity_at(s: &Vec<char>, i: usize) -> (r: Option<(usize, char)>)
    ensures
        r matches Some((n, c)) ==> entity(s@, i as int) == Some((n as int, c)),
        r is None ==> entity(s@, i as int) is None,
{
    let n = s.len();
    if i >= n || s[i] != '&' {
        return None;
    }
    let left = n - i;
    if left >= 5 && s[i + 1] == 'a' && s[i + 2] == 'm' && s[i + 3] == 'p' && s[i + 4] == ';' {
        Some((5, '&'))
    } else if left >= 4 && s[i + 1] == 'l' && s[i + 2] == 't' && s[i + 3] == ';' {
        Some((4, '<'))
    } else if left >= 4 && s[i + 1] == 'g' && s[i + 2] == 't' && s[i + 3] == ';' {
        Some((4, '>'))
    } else if left >= 6 && s[i + 1] == 'q' && s[i + 2] == 'u' && s[i + 3] == 'o' && s[i + 4] == 't'
        && s[i + 5] == ';' {
        Some((6, '"'))
    } else if left >= 5 && s[i + 1] == '#' && s[i + 2] == '3' && s[i + 3] == '9' && s[i + 4] == ';' {
        Some((5, '\''))
    } else {
        None
    }
}

/// `s` with its character references replaced.
fn unescape_of(s: &Vec<char>) -> (r: Vec<char>)
    ensures
        r@ == unescape(s@),
{
    let mut r: Vec<char> = Vec::new();
    let mut i: usize = 0;
    while i < s.len()
        invariant
            i <= s@.len(),
            unescape(s@) == r@ + unescape_from(s@, i as int),
        decreases s@.len() - i,
    {
        let ghost before = r@;
        match entity_at(s, i) {
            Some((n, c)) => {
                r.push(c);
                assert(before + (seq![c] + unescape_from(s@, i + n)) =~= r@ + unescape_from(s@, i + n));
                i = i + n;
            },
            None => {
                r.push(s[i]);
                assert(before + (seq![s@[i as int]] + unescape_from(s@, i + 1)) =~= r@ + unescape_from(
                    s@,
                    i + 1,
                ));
                i = i + 1;
            },
        }
    }
    assert(r@ + seq![] =~= r@);
    r
}

/// The value of attribute `key` (with its `="`) in `attrs`.
fn attr_value(attrs: &Vec<char>, key: &str) -> (r: Vec<char>)
    ensures
        r@ == attr_of(attrs@, key@),
{
    let k = chars_of(key);
    match find_in(attrs, &k) {
        Some(i) => {
            proof {
                lemma_find_from_sound(attrs@, k@, 0);
            }
            let n = attrs.len();
            assert(i + k@.len() <= n);
            let from = i + k.len();
            match find_in_from(attrs, &chars_of("\""), from) {
                Some(j) => {
                    proof {
                        lemma_find_from_sound(attrs@, "\""@, from as int);
                    }
                    unescape_of(&slice_of(attrs, from, j))
                },
                None => Vec::new(),
            }
        },
        None => Vec::new(),
    }
}

/// The anchors of an HTML page, in order.
pub fn page_anchors(html: &str) -> (r: Vec<Anchor>)
    ensures
        r@.len() == anchors(html@).len(),
        forall|k: int|
            0 <= k < r@.len() ==> (#[trigger] r@[k].href@, r@[k].class@, r@[k].text@) == anchors(
                html@,
            )[k],
{
    let s = chars_of(html);
    let open = chars_of("<a");
    let close_tag = chars_of(">");
    let close = chars_of("</a>");
    proof {
        reveal_strlit("<a");
        reveal_strlit("</a>");
        reveal_strlit(">");
    }
    let mut r: Vec<Anchor> = Vec::new();
    let mut k: usize = 0;
    let n = s.len();
    assert(r@.map_values(|a: Anchor| (a.href@, a.class@, a.text@)) + anchors_from(s@, 0) =~= anchors_from(s@, 0));
    while k <= n
        invariant
            n == s@.len(),
            s@ == html@,
            open@ == "<a"@,
            close_tag@ == ">"@,
            close@ == "</a>"@,
            open@.len() == 2,
            close_tag@.len() == 1,
            close@.len() == 4,
            k <= s@.len() + 1,
            anchors(html@) == r@.map_values(|a: Anchor| (a.href@, a.class@, a.text@)) + anchors_from(
                s@,
                k as int,
            ),
        ensures
            anchors(html@) == r@.map_values(|a: Anchor| (a.href@, a.class@, a.text@)),
        decreases s@.len() + 1 - k,
    {
        let ghost done = r@.map_values(|a: Anchor| (a.href@, a.class@, a.text@));
        let i = match find_in_from(&s, &open, k) {
            Some(i) => i,
            None => {
                assert(anchors_from(s@, k as int) =~= seq![]);
                assert(done + seq![] =~= done);
                break;
            },
        };
        proof {
            lemma_find_from_sound(s@, open@, k as int);
        }
        assert(i + 2 <= n);
        if i + 2 >= n {
            assert(anchors_from(s@, k as int) =~= seq![]);
            assert(done + seq![] =~= done);
            break;
        }
        if !(s[i + 2] == ' ' || s[i + 2] == '\t' || s[i + 2] == '\n' || s[i + 2] == '\r' || s[i + 2] == '>') {
            k = i + 1;
            continue;
        }
        let e = match find_in_from(&s, &close_tag, i + 2) {
            Some(e) => e,
            None => {
                assert(anchors_from(s@, k as int) =~= seq![]);
                assert(done + seq![] =~= done);
                break;
            },
        };
        proof {
            lemma_find_from_sound(s@, close_tag@, i + 2);
        }
        assert(e + 1 <= n);
        let c = match find_in_from(&s, &close, e + 1) {
            Some(c) => c,
            None => {
                assert(anchors_from(s@, k as int) =~= seq![]);
                assert(done + seq![] =~= done);
                break;
            },
        };
        proof {
            lemma_find_from_sound(s@, close@, e + 1);
        }
        let attrs = slice_of(&s, i + 2, e);
        let inner = slice_of(&s, e + 1, c);
        let a = Anchor {
            href: string_of(&attr_value(&attrs, "href=\"")),
            class: string_of(&attr_value(&attrs, "class=\"")),
            text: string_of(&unescape_of(&strip_tags_of(&inner))),
        };
        r.push(a);
        proof {
            assert(r@.map_values(|a: Anchor| (a.href@, a.class@, a.text@)) =~= done.push(
                anchor_view(s@.subrange(i + 2, e as int), s@.subrange(e + 1, c as int)),
            ));
        }
        k = c + 4;
    }
    r
}

/// The text of the first `code` element of an HTML page, if it has one.
pub fn first_code_block(html: &str) -> (r: Option<String>)
    ensures
        match code_block(html@) {
            Some(t) => r matches Some(x) && x@ == t,
            None => r is None,
        },
{
    let s = chars_of(html);
    let n = s.len();
    let open = chars_of("<code");
    proof {
        reveal_strlit("<code");
    }
    let i = match find_in(&s, &open) {
        Some(i) => i,
        None => {
            return None;
        },
    };
    proof {
        lemma_find_from_sound(s@, open@, 0);
    }
    assert(i + 5 <= n);
    let e = match find_in_from(&s, &chars_of(">"), i + 5) {
        Some(e) => e,
        None => {
            return None;
        },
    };
    proof {
        lemma_find_from_sound(s@, ">"@, i + 5);
        reveal_strlit(">");
    }
    assert(e + 1 <= n);
    let c = match find_in_from(&s, &chars_of("</code>"), e + 1) {
        Some(c) => c,
        None => {
            return None;
        },
    };
    proof {
        lemma_find_from_sound(s@, "</code>"@, e + 1);
    }
    Some(string_of(&unescape_of(&strip_tags_of(&slice_of(&s, e + 1, c)))))
}

} // verus!
