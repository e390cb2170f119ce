//! What a caller decides about a resolution run.
use vstd::prelude::*;
use vstd::string::StringExecFns;

verus! {

/// The number of remote requests that may be in flight at once, by default.
pub const DEFAULT_MAX_IN_FLIGHT: usize = 5;

/// Overrides, copy rules and strictness of a resolution run.
///
/// The name-keyed lists behave as maps: the first entry for a name is the one
/// that counts.
#[derive(Clone, Debug)]
pub struct Config {
    /// Package name to literal license texts, used instead of any lookup.
    pub overrides: Vec<(String, Vec<String>)>,
    /// Package name to URLs of its license texts, used instead of any lookup.
    pub override_urls: Vec<(String, Vec<String>)>,
    /// `(from, to)`: after resolution, package `to` takes the texts of `from`.
    pub copies: Vec<(String, String)>,
    /// Packages for which finding no license is not reported.
    pub ignored_crates: Vec<String>,
    /// Manifest to read instead of the one of the current directory.
    pub manifest_path: Option<String>,
    /// Whether packages without license are an error rather than a warning.
    pub error_for_no_license: bool,
    /// Bound on the remote requests in flight at once.
    pub max_in_flight: usize,
}

impl Default for Config {
    fn default() -> (r: Config)
        ensures
            r.overrides@.len() == 0,
            r.override_urls@.len() == 0,
            r.copies@.len() == 0,
            r.ignored_crates@.len() == 0,
            r.manifest_path is None,
            !r.error_for_no_license,
            r.wf(),
            r.max_in_flight == DEFAULT_MAX_IN_FLIGHT,
    {
        Config {
            overrides: Vec::new(),
            override_urls: Vec::new(),
            copies: Vec::new(),
            ignored_crates: Vec::new(),
            manifest_path: None,
            error_for_no_license: false,
            max_in_flight: DEFAULT_MAX_IN_FLIGHT,
        }
    }
}

/// `i` is the first entry of `m` whose key is `name`.
pub open spec fn first_key<V>(m: Seq<(String, V)>, name: Seq<char>, i: int) -> bool {
    &&& 0 <= i < m.len()
    &&& m[i].0@ == name
    &&& forall|j: int| 0 <= j < i ==> m[j].0@ != name
}

/// No two entries of `m` have the same key.
pub open spec fn keys_unique<V>(m: Seq<(String, V)>) -> bool {
    forall|i: int, j: int| 0 <= i < j < m.len() ==> m[i].0@ != m[j].0@
}

/// No name occurs twice in `names`.
pub open spec fn names_unique(names: Seq<String>) -> bool {
    forall|i: int, j: int| 0 <= i < j < names.len() ==> names[i]@ != names[j]@
}

/// Some entry of `m` has the key `name`.
pub open spec fn has_key<V>(m: Seq<(String, V)>, name: Seq<char>) -> bool {
    exists|i: int| 0 <= i < m.len() && m[i].0@ == name
}

/// `name` is one of `names`.
pub open spec fn names_contain(names: Seq<String>, name: Seq<char>) -> bool {
    exists|i: int| 0 <= i < names.len() && names[i]@ == name
}

/// The index of the first entry of `m` whose key is `name`.
pub fn find_key<V>(m: &Vec<(String, V)>, name: &str) -> (r: Option<usize>)
    ensures
        r matches Some(i) ==> first_key(m@, name@, i as int),
        r is None ==> !has_key(m@, name@),
{
    let key = String::from_str(name);
    let mut i: usize = 0;
    while i < m.len()
        invariant
            key@ == name@,
            i <= m@.len(),
            forall|j: int| 0 <= j < i ==> m@[j].0@ != name@,
        decreases m@.len() - i,
    {
        if m[i].0 == key {
            return Some(i);
        }
        i = i + 1;
    }
    None
}

/// Whether `name` is one of `names`.
pub fn contains_name(names: &Vec<String>, name: &str) -> (r: bool)
    ensures
        r == names_contain(names@, name@),
{
    let key = String::from_str(name);
    let mut i: usize = 0;
    while i < names.len()
        invariant
            key@ == name@,
            i <= names@.len(),
            forall|j: int| 0 <= j < i ==> names@[j]@ != name@,
        decreases names@.len() - i,
    {
        if names[i] == key {
            return true;
        }
        i = i + 1;
    }
    false
}

/// Gives `name` the value `v` in `m`: its entry is replaced, or a new entry
/// goes at the end. The entries of other keys stay where they are.
pub fn set_key<V>(m: &mut Vec<(String, V)>, name: String, v: V)
    ensures
        keys_unique(old(m)@) ==> keys_unique(final(m)@),
        exists|i: int| first_key(final(m)@, name@, i) && final(m)@[i].1 == v,
        forall|n: Seq<char>| n != name@ ==> (has_key(final(m)@, n) == has_key(old(m)@, n)),
        forall|n: Seq<char>, i: int|
            n != name@ && #[trigger] first_key(old(m)@, n, i) ==> first_key(final(m)@, n, i)
                && final(m)@[i] == old(m)@[i],
{
    let ghost before = m@;
    let ghost key = name@;
    match find_key(m, name.as_str()) {
        Some(i) => {
            m.set(i, (name, v));
            assert(first_key(m@, key, i as int));
            assert forall|n: Seq<char>| n != key implies (has_key(m@, n) == has_key(before, n)) by {
                if has_key(before, n) {
                    let j = choose|j: int| 0 <= j < before.len() && before[j].0@ == n;
                    assert(m@[j].0@ == n);
                }
                if has_key(m@, n) {
                    let j = choose|j: int| 0 <= j < m@.len() && m@[j].0@ == n;
                    assert(before[j].0@ == n);
                }
            }
        },
        None => {
            m.push((name, v));
            assert(first_key(m@, key, before.len() as int));
            assert forall|n: Seq<char>| n != key implies (has_key(m@, n) == has_key(before, n)) by {
                if has_key(before, n) {
                    let j = choose|j: int| 0 <= j < before.len() && before[j].0@ == n;
                    assert(m@[j].0@ == n);
                }
                if has_key(m@, n) {
                    let j = choose|j: int| 0 <= j < m@.len() && m@[j].0@ == n;
                    assert(before[j].0@ == n);
                }
            }
        },
    }
}

impl Config {
    /// The name-keyed lists hold each name at most once, as the maps they
    /// stand for do. The methods below keep it so.
    pub open spec fn wf(&self) -> bool {
        keys_unique(self.overrides@) && keys_unique(self.override_urls@) && names_unique(
            self.ignored_crates@,
        )
    }

    /// Overrides the license of package `name` by literal texts.
    pub fn set_override(&mut self, name: String, texts: Vec<String>)
        ensures
            old(self).wf() ==> final(self).wf(),
            exists|i: int| first_key(final(self).overrides@, name@, i) && final(self).overrides@[i].1 == texts,
            forall|n: Seq<char>|
                n != name@ ==> (has_key(final(self).overrides@, n) == has_key(old(self).overrides@, n)),
            forall|n: Seq<char>, i: int|
                n != name@ && #[trigger] first_key(old(self).overrides@, n, i) ==> first_key(
                    final(self).overrides@,
                    n,
                    i,
                ) && final(self).overrides@[i] == old(self).overrides@[i],
            final(self).manifest_path == old(self).manifest_path,
            final(self).error_for_no_license == old(self).error_for_no_license,
            final(self).max_in_flight == old(self).max_in_flight,
            final(self).override_urls == old(self).override_urls,
            final(self).ignored_crates == old(self).ignored_crates,
            final(self).copies == old(self).copies,
    {
        let ghost key = name@;
        let ghost val = texts;
        set_key(&mut self.overrides, name, texts);
        proof {
            let i = choose|i: int| first_key(self.overrides@, key, i) && self.overrides@[i].1 == val;
            assert(first_key(self.overrides@, key, i) && self.overrides@[i].1 == val);
        }
    }

    /// Overrides the license of package `name` by the texts at `urls`.
    pub fn set_override_urls(&mut self, name: String, urls: Vec<String>)
        ensures
            old(self).wf() ==> final(self).wf(),
            exists|i: int| first_key(final(self).override_urls@, name@, i) && final(self).override_urls@[i].1 == urls,
            forall|n: Seq<char>|
                n != name@ ==> (has_key(final(self).override_urls@, n) == has_key(old(self).override_urls@, n)),
            forall|n: Seq<char>, i: int|
                n != name@ && #[trigger] first_key(old(self).override_urls@, n, i) ==> first_key(
                    final(self).override_urls@,
                    n,
                    i,
                ) && final(self).override_urls@[i] == old(self).override_urls@[i],
            final(self).manifest_path == old(self).manifest_path,
            final(self).error_for_no_license == old(self).error_for_no_license,
            final(self).max_in_flight == old(self).max_in_flight,
            final(self).overrides == old(self).overrides,
            final(self).ignored_crates == old(self).ignored_crates,
            final(self).copies == old(self).copies,
    {
        let ghost key = name@;
        let ghost val = urls;
        set_key(&mut self.override_urls, name, urls);
        proof {
            let i = choose|i: int| first_key(self.override_urls@, key, i) && self.override_urls@[i].1 == val;
            assert(first_key(self.override_urls@, key, i) && self.override_urls@[i].1 == val);
        }
    }

    /// Stops reporting package `name` when no license is found for it.
    pub fn ignore(&mut self, name: String)
        ensures
            old(self).wf() ==> final(self).wf(),
            forall|n: Seq<char>| names_contain(final(self).ignored_crates@, n) == (names_contain(
                old(self).ignored_crates@,
                n,
            ) || n == name@),
            final(self).overrides == old(self).overrides,
            final(self).override_urls == old(self).override_urls,
            final(self).copies == old(self).copies,
            final(self).manifest_path == old(self).manifest_path,
            final(self).error_for_no_license == old(self).error_for_no_license,
            final(self).max_in_flight == old(self).max_in_flight,
    {
        if !contains_name(&self.ignored_crates, name.as_str()) {
            let ghost before = self.ignored_crates@;
            let ghost key = name@;
            self.ignored_crates.push(name);
            assert forall|n: Seq<char>| names_contain(self.ignored_crates@, n) == (names_contain(before, n) || n == key) by {
                if names_contain(before, n) {
                    let j = choose|j: int| 0 <= j < before.len() && before[j]@ == n;
                    assert(self.ignored_crates@[j]@ == n);
                }
                if names_contain(self.ignored_crates@, n) && n != key {
                    let j = choose|j: int| 0 <= j < self.ignored_crates@.len() && self.ignored_crates@[j]@ == n;
                    assert(before[j]@ == n);
                }
                if n == key {
                    assert(self.ignored_crates@[before.len() as int]@ == n);
                }
            }
        }
    }

    /// The configuration overrides the license of package `name`, by texts or
    /// by URLs.
    pub open spec fn overridden(&self, name: Seq<char>) -> bool {
        has_key(self.overrides@, name) || has_key(self.override_urls@, name)
    }

    /// Whether the configuration overrides the license of package `name`.
    pub fn has_override(&self, name: &str) -> (r: bool)
        ensures
            r == self.overridden(name@),
    {
        find_key(&self.overrides, name).is_some() || find_key(&self.override_urls, name).is_some()
    }

    /// The texts that the configuration gives for package `name`.
    pub fn override_texts(&self, name: &str) -> (r: Option<Vec<String>>)
        ensures
            r matches Some(v) ==> exists|i: int|
                first_key(self.overrides@, name@, i) && v.deep_view()
                    == #[trigger] self.overrides@[i].1.deep_view(),
            r is None ==> !has_key(self.overrides@, name@),
    {
        match find_key(&self.overrides, name) {
            Some(i) => Some(crate::codec::copy_texts(&self.overrides[i].1)),
            None => None,
        }
    }

    /// The URLs of license texts that the configuration gives for package
    /// `name`.
    pub fn override_urls_for(&self, name: &str) -> (r: Option<Vec<String>>)
        ensures
            r matches Some(v) ==> exists|i: int|
                first_key(self.override_urls@, name@, i) && v.deep_view()
                    == #[trigger] self.override_urls@[i].1.deep_view(),
            r is None ==> !has_key(self.override_urls@, name@),
    {
        match find_key(&self.override_urls, name) {
            Some(i) => Some(crate::codec::copy_texts(&self.override_urls[i].1)),
            None => None,
        }
    }

    /// Whether finding no license for package `name` goes unreported.
    pub fn is_ignored(&self, name: &str) -> (r: bool)
        ensures
            r == names_contain(self.ignored_crates@, name@),
    {
        contains_name(&self.ignored_crates, name)
    }
}

} // verus!
