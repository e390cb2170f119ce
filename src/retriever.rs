//! The result of a resolution run: every selected package with its license
//! texts, after the copy rules, checked for packages left without license.
use vstd::prelude::*;
use vstd::string::StringExecFns;
use crate::codec::{
    fits_records, records_fit, decode_records, encode_records, from_record, msgpack_of, msgpack_records, package_of,
    record_of, to_record, Record, RecordView,
};
use crate::config::{contains_name, names_contain, Config};
use crate::error::Error;
use crate::package::{Package, PackageView};

verus! {

/// A package and its license texts in their mathematical form.
pub type EntryView = (PackageView, Seq<Seq<char>>);

/// The mathematical form of a package and its texts.
pub open spec fn entry_view(e: (Package, Vec<String>)) -> EntryView {
    (e.0@, e.1.deep_view())
}

/// The mathematical form of a list of packages and their texts.
pub open spec fn entries_view(v: Seq<(Package, Vec<String>)>) -> Seq<EntryView> {
    v.map_values(|e: (Package, Vec<String>)| entry_view(e))
}

/// Some entry is for a package named `name`.
pub open spec fn has_named(es: Seq<EntryView>, name: Seq<char>) -> bool {
    exists|i: int| 0 <= i < es.len() && es[i].0.name == name
}

/// Entry `i` is the first, among those named `name`, with the most texts.
pub open spec fn is_best(es: Seq<EntryView>, name: Seq<char>, i: int) -> bool {
    &&& 0 <= i < es.len()
    &&& es[i].0.name == name
    &&& forall|j: int| 0 <= j < es.len() && es[j].0.name == name ==> es[j].1.len() <= es[i].1.len()
    &&& forall|j: int| 0 <= j < i && es[j].0.name == name ==> es[j].1.len() < es[i].1.len()
}

/// The texts of the entry named `name` with the most texts.
pub open spec fn best_texts(es: Seq<EntryView>, name: Seq<char>) -> Seq<Seq<char>> {
    es[choose|i: int| is_best(es, name, i)].1
}

/// The entries with the texts of every entry named `to` replaced by `texts`.
pub open spec fn replaced(es: Seq<EntryView>, to: Seq<char>, texts: Seq<Seq<char>>) -> Seq<EntryView> {
    es.map_values(|e: EntryView| if e.0.name == to { (e.0, texts) } else { e })
}

/// What the copy rules make of the entries.
pub enum CopyOutcome {
    /// All rules applied, giving these entries.
    Copied(Seq<EntryView>),
    /// A rule copies from a package that has no entry.
    MissingSource(Seq<char>),
    /// A rule copies to a package that has no entry.
    MissingTarget(Seq<char>),
}

/// One copy rule: package `to` takes the texts of package `from`, the entry
/// with the most texts where `from` has several.
pub open spec fn copy_step(es: Seq<EntryView>, from: Seq<char>, to: Seq<char>) -> CopyOutcome {
    if !has_named(es, from) {
        CopyOutcome::MissingSource(from)
    } else if !has_named(es, to) {
        CopyOutcome::MissingTarget(to)
    } else {
        CopyOutcome::Copied(replaced(es, to, best_texts(es, from)))
    }
}

/// The copy rules `(from, to)` applied in order; the first failing one stops.
pub open spec fn copy_all(es: Seq<EntryView>, rules: Seq<(Seq<char>, Seq<char>)>) -> CopyOutcome
    decreases rules.len(),
{
    if rules.len() == 0 {
        CopyOutcome::Copied(es)
    } else {
        match copy_step(es, rules[0].0, rules[0].1) {
            CopyOutcome::Copied(next) => copy_all(next, rules.drop_first()),
            other => other,
        }
    }
}

/// An entry reported as without license: no text, and not ignored.
pub open spec fn lacks_license(e: EntryView, ignored: Seq<String>) -> bool {
    e.1.len() == 0 && !names_contain(ignored, e.0.name)
}

/// The entries reported as without license, in order.
pub open spec fn unresolved_of(es: Seq<EntryView>, ignored: Seq<String>) -> Seq<EntryView>
    decreases es.len(),
{
    if es.len() == 0 {
        seq![]
    } else if lacks_license(es.last(), ignored) {
        unresolved_of(es.drop_last(), ignored).push(es.last())
    } else {
        unresolved_of(es.drop_last(), ignored)
    }
}

/// How a package is named in a report: name, blank, version.
pub open spec fn label(e: EntryView) -> Seq<char> {
    e.0.name + " "@ + e.0.version
}

/// The labels of the entries, separated by `, `.
pub open spec fn report(es: Seq<EntryView>) -> Seq<char>
    decreases es.len(),
{
    if es.len() == 0 {
        seq![]
    } else if es.len() == 1 {
        label(es[0])
    } else {
        report(es.drop_last()) + ", "@ + label(es.last())
    }
}

/// A copy rule whose source and target both have entries gives every entry
/// of the target exactly the texts of the source's entry with the most texts,
/// and leaves every other entry as it was.
pub proof fn copy_rule_takes_source_texts(es: Seq<EntryView>, from: Seq<char>, to: Seq<char>, i: int)
    requires
        is_best(es, from, i),
        has_named(es, to),
    ensures
        copy_run(es, seq![(from, to)]) == copy_step(es, from, to),
        copy_step(es, from, to) matches CopyOutcome::Copied(x) && x.len() == es.len() && forall|k: int|
            0 <= k < es.len() ==> (if es[k].0.name == to {
                #[trigger] x[k] == (es[k].0, es[i].1)
            } else {
                x[k] == es[k]
            }),
{
    lemma_best_unique(es, from, i);
    let rules = seq![(from, to)];
    assert(rules[0] == (from, to));
    assert(rules.drop_first() =~= Seq::<(Seq<char>, Seq<char>)>::empty());
    let x = replaced(es, to, best_texts(es, from));
    assert(copy_all(x, rules.drop_first()) == CopyOutcome::Copied(x));
    assert(first_missing_source(es, rules.drop_first()) is None);
}

/// The source package of the first copy rule whose source has no entry.
pub open spec fn first_missing_source(es: Seq<EntryView>, rules: Seq<(Seq<char>, Seq<char>)>) -> Option<
    Seq<char>,
>
    decreases rules.len(),
{
    if rules.len() == 0 {
        None
    } else if !has_named(es, rules[0].0) {
        Some(rules[0].0)
    } else {
        first_missing_source(es, rules.drop_first())
    }
}

/// What the copy rules make of the entries: every source is checked first,
/// so a missing source is what is reported whenever there is one; then the
/// rules are applied in order.
pub open spec fn copy_run(es: Seq<EntryView>, rules: Seq<(Seq<char>, Seq<char>)>) -> CopyOutcome {
    match first_missing_source(es, rules) {
        Some(n) => CopyOutcome::MissingSource(n),
        None => copy_all(es, rules),
    }
}

proof fn lemma_first_missing_source(es: Seq<EntryView>, rules: Seq<(Seq<char>, Seq<char>)>, k: int)
    requires
        0 <= k < rules.len(),
        !has_named(es, rules[k].0),
    ensures
        first_missing_source(es, rules) matches Some(n) && !has_named(es, n),
        (forall|j: int| 0 <= j < k ==> has_named(es, (#[trigger] rules[j]).0))
            ==> first_missing_source(es, rules) == Some(rules[k].0),
    decreases k,
{
    if k > 0 && has_named(es, rules[0].0) {
        assert(rules.drop_first()[k - 1] == rules[k]);
        lemma_first_missing_source(es, rules.drop_first(), k - 1);
        if forall|j: int| 0 <= j < k ==> has_named(es, (#[trigger] rules[j]).0) {
            assert forall|j: int| 0 <= j < k - 1 implies has_named(es, (#[trigger] rules.drop_first()[j]).0) by {
                assert(rules.drop_first()[j] == rules[j + 1]);
            }
        }
    }
}

/// A copy rule whose source package has no entry lets no result out: the run
/// fails with "copied crate not found", naming a source that has no entry.
/// When that rule's source is the first one missing, it is the one named.
pub proof fn copy_with_missing_source_fails(es: Seq<EntryView>, rules: Seq<(Seq<char>, Seq<char>)>, k: int)
    requires
        0 <= k < rules.len(),
        !has_named(es, rules[k].0),
    ensures
        copy_run(es, rules) matches CopyOutcome::MissingSource(n) && !has_named(es, n),
        (forall|j: int| 0 <= j < k ==> has_named(es, (#[trigger] rules[j]).0))
            ==> copy_run(es, rules) == CopyOutcome::MissingSource(rules[k].0),
{
    lemma_first_missing_source(es, rules, k);
}

/// Checks that every copy rule's source package has an entry.
fn check_sources(es: &Vec<(Package, Vec<String>)>, rules: &Vec<(String, String)>) -> (r: Result<(), Error>)
    ensures
        match first_missing_source(entries_view(es@), rules.deep_view()) {
            Some(n) => r matches Err(Error::CopiedCrateNotFound(m)) && m@ == n,
            None => r is Ok,
        },
{
    let ghost v = entries_view(es@);
    let ghost rv = rules.deep_view();
    let mut k: usize = 0;
    assert(rv.subrange(0, rv.len() as int) =~= rv);
    while k < rules.len()
        invariant
            v == entries_view(es@),
            rv == rules.deep_view(),
            k <= rv.len(),
            first_missing_source(v, rv) == first_missing_source(v, rv.subrange(k as int, rv.len() as int)),
        decreases rv.len() - k,
    {
        let ghost rest = rv.subrange(k as int, rv.len() as int);
        assert(rest.drop_first() =~= rv.subrange(k + 1, rv.len() as int));
        assert(rest[0] == rv[k as int]);
        assert(rv[k as int] == (rules@[k as int].0@, rules@[k as int].1@));
        if find_best(es, &rules[k].0).is_none() {
            return Err(Error::CopiedCrateNotFound(crate::codec::copy_string(&rules[k].0)));
        }
        k = k + 1;
    }
    assert(rv.subrange(k as int, rv.len() as int) =~= seq![]);
    Ok(())
}

/// Every reported entry has no text and is not ignored.
proof fn lemma_unresolved_lack(es: Seq<EntryView>, ignored: Seq<String>)
    ensures
        forall|j: int|
            0 <= j < unresolved_of(es, ignored).len() ==> lacks_license(
                #[trigger] unresolved_of(es, ignored)[j],
                ignored,
            ),
    decreases es.len(),
{
    if es.len() > 0 {
        lemma_unresolved_lack(es.drop_last(), ignored);
        let u = unresolved_of(es.drop_last(), ignored);
        if lacks_license(es.last(), ignored) {
            assert forall|j: int| 0 <= j < u.len() + 1 implies lacks_license(
                #[trigger] u.push(es.last())[j],
                ignored,
            ) by {
                if j < u.len() {
                    assert(u.push(es.last())[j] == u[j]);
                }
            }
        }
    }
}

/// Every entry without text that is not ignored is reported.
proof fn lemma_unresolved_complete(es: Seq<EntryView>, ignored: Seq<String>, k: int)
    requires
        0 <= k < es.len(),
        lacks_license(es[k], ignored),
    ensures
        unresolved_of(es, ignored).contains(es[k]),
    decreases es.len(),
{
    let u = unresolved_of(es.drop_last(), ignored);
    if k == es.len() - 1 {
        assert(unresolved_of(es, ignored) == u.push(es[k]));
        assert(unresolved_of(es, ignored)[u.len() as int] == es[k]);
    } else {
        lemma_unresolved_complete(es.drop_last(), ignored, k);
        assert(es.drop_last()[k] == es[k]);
        let j = choose|j: int| 0 <= j < u.len() && u[j] == es[k];
        if lacks_license(es.last(), ignored) {
            assert(unresolved_of(es, ignored)[j] == es[k]);
        }
    }
}

/// A package without license texts is reported exactly when its name is not
/// in the ignored set: ignored, no report names it; not ignored, its entry is
/// reported.
pub proof fn ignored_are_not_reported(es: Seq<EntryView>, ignored: Seq<String>, k: int)
    requires
        0 <= k < es.len(),
        es[k].1.len() == 0,
    ensures
        names_contain(ignored, es[k].0.name) ==> forall|j: int|
            0 <= j < unresolved_of(es, ignored).len() ==> (#[trigger] unresolved_of(es, ignored)[j]).0.name
                != es[k].0.name,
        !names_contain(ignored, es[k].0.name) ==> unresolved_of(es, ignored).contains(es[k]),
{
    lemma_unresolved_lack(es, ignored);
    if !names_contain(ignored, es[k].0.name) {
        lemma_unresolved_complete(es, ignored, k);
    }
}

proof fn lemma_best_unique(es: Seq<EntryView>, name: Seq<char>, i: int)
    requires
        is_best(es, name, i),
    ensures
        best_texts(es, name) == es[i].1,
        (choose|k: int| is_best(es, name, k)) == i,
{
    let k = choose|k: int| is_best(es, name, k);
    if k < i {
        assert(es[k].1.len() < es[i].1.len());
    } else if k > i {
        assert(es[i].1.len() < es[k].1.len());
    }
}

/// The first entry with the most texts among those named `name`.
fn find_best(es: &Vec<(Package, Vec<String>)>, name: &String) -> (r: Option<usize>)
    ensures
        r matches Some(i) ==> is_best(entries_view(es@), name@, i as int),
        r is None ==> !has_named(entries_view(es@), name@),
{
    let ghost v = entries_view(es@);
    let mut best: Option<usize> = None;
    let mut i: usize = 0;
    while i < es.len()
        invariant
            v == entries_view(es@),
            i <= es@.len(),
            best is None ==> forall|j: int| 0 <= j < i ==> v[j].0.name != name@,
            best matches Some(b) ==> b < i && is_best(v.take(i as int), name@, b as int),
        decreases es@.len() - i,
    {
        if es[i].0.name == *name {
            match best {
                None => {
                    best = Some(i);
                },
                Some(b) => {
                    if es[b].1.len() < es[i].1.len() {
                        best = Some(i);
                    }
                },
            }
        }
        i = i + 1;
        proof {
            let t = v.take(i as int);
            if let Some(b) = best {
                assert forall|j: int| 0 <= j < t.len() && t[j].0.name == name@ implies t[j].1.len()
                    <= t[b as int].1.len() by {
                    if j < i - 1 {
                        assert(t[j] == v.take(i - 1)[j]);
                    }
                }
                assert forall|j: int| 0 <= j < b && t[j].0.name == name@ implies t[j].1.len()
                    < t[b as int].1.len() by {
                    assert(t[j] == v.take(i - 1)[j]);
                }
            }
        }
    }
    proof {
        assert(v.take(i as int) =~= v);
    }
    best
}

/// Replaces the texts of every entry named `to` by copies of `texts`.
fn replace_texts(es: &mut Vec<(Package, Vec<String>)>, to: &String, texts: &Vec<String>)
    ensures
        entries_view(final(es)@) == replaced(entries_view(old(es)@), to@, texts.deep_view()),
{
    let ghost start = entries_view(es@);
    let mut i: usize = 0;
    while i < es.len()
        invariant
            i <= es@.len(),
            es@.len() == start.len(),
            forall|j: int| 0 <= j < i ==> #[trigger] entries_view(es@)[j] == replaced(start, to@, texts.deep_view())[j],
            forall|j: int| i <= j < es@.len() ==> #[trigger] entries_view(es@)[j] == start[j],
        decreases es@.len() - i,
    {
        if es[i].0.name == *to {
            let ghost before = es@;
            let (p, _) = es.remove(i);
            let c = crate::codec::copy_texts(texts);
            es.insert(i, (p, c));
            proof {
                assert(es@ =~= before.update(i as int, es@[i as int]));
                assert(es@[i as int].0 == before[i as int].0);
                assert(es@[i as int].1.deep_view() == texts.deep_view());
                assert(entries_view(before)[i as int] == start[i as int]);
                assert(entries_view(es@)[i as int] == replaced(start, to@, texts.deep_view())[i as int]);
                assert forall|j: int| 0 <= j < es@.len() && j != i implies #[trigger] entries_view(es@)[j] == entries_view(before)[j] by {
                    assert(es@[j] == before[j]);
                }
            }
        } else {
            assert(entries_view(es@)[i as int] == replaced(start, to@, texts.deep_view())[i as int]);
        }
        i = i + 1;
    }
    assert(entries_view(es@) =~= replaced(start, to@, texts.deep_view()));
}

/// Applies the copy rules `(from, to)` in order.
fn apply_copies(es: &mut Vec<(Package, Vec<String>)>, rules: &Vec<(String, String)>) -> (r: Result<(), Error>)
    ensures
        match copy_all(entries_view(old(es)@), rules.deep_view()) {
            CopyOutcome::MissingSource(n) => r matches Err(Error::CopiedCrateNotFound(m)) && m@ == n,
            CopyOutcome::MissingTarget(n) => r matches Err(Error::CopyTargetNotFound(m)) && m@ == n,
            CopyOutcome::Copied(x) => r is Ok && entries_view(final(es)@) == x,
        },
{
    let ghost rv = rules.deep_view();
    let ghost goal = copy_all(entries_view(es@), rv);
    let mut k: usize = 0;
    assert(rv.subrange(0, rv.len() as int) =~= rv);
    while k < rules.len()
        invariant
            rv == rules.deep_view(),
            goal == copy_all(entries_view(old(es)@), rv),
            k <= rv.len(),
            goal == copy_all(entries_view(es@), rv.subrange(k as int, rv.len() as int)),
        decreases rv.len() - k,
    {
        let ghost rest = rv.subrange(k as int, rv.len() as int);
        assert(rest.drop_first() =~= rv.subrange(k + 1, rv.len() as int));
        assert(rest[0] == rv[k as int]);
        assert(rv[k as int] == (rules@[k as int].0@, rules@[k as int].1@));
        let from = &rules[k].0;
        let to = &rules[k].1;
        let src = match find_best(es, from) {
            Some(s) => s,
            None => {
                return Err(Error::CopiedCrateNotFound(crate::codec::copy_string(from)));
            },
        };
        if find_best(es, to).is_none() {
            return Err(Error::CopyTargetNotFound(crate::codec::copy_string(to)));
        }
        proof {
            lemma_best_unique(entries_view(es@), from@, src as int);
        }
        let texts = crate::codec::copy_texts(&es[src].1);
        replace_texts(es, to, &texts);
        k = k + 1;
    }
    assert(rv.subrange(k as int, rv.len() as int) =~= seq![]);
    Ok(())
}

/// The result of a resolution run: each selected package with its license
/// texts, in the order of selection.
#[derive(Clone, Debug, PartialEq, Eq, Default)]
pub struct LicenseRetriever(Vec<(Package, Vec<String>)>);

impl View for LicenseRetriever {
    type V = Seq<EntryView>;

    closed spec fn view(&self) -> Seq<EntryView> {
        entries_view(self.0@)
    }
}

/// The records of a list of entries.
pub open spec fn records_of(es: Seq<EntryView>) -> Seq<RecordView> {
    es.map_values(|e: EntryView| record_of(e.0, e.1))
}

/// The entries that a list of records describes.
pub open spec fn entries_of(rs: Seq<RecordView>) -> Seq<EntryView> {
    rs.map_values(|r: RecordView| (package_of(r), r.7))
}

/// Turning entries into records and back gives the same entries: the result
/// of a run survives its byte encoding whenever the decoder returns the
/// records that the encoder was given.
pub proof fn records_round_trip(es: Seq<EntryView>)
    ensures
        entries_of(records_of(es)) == es,
{
    assert(entries_of(records_of(es)) =~= es);
}

/// The bytes of a result decode to that same result: when `bytes` are what
/// encoding the entries `es` gives, decoding succeeds and gives back `es`.
pub proof fn bytes_round_trip(es: Seq<EntryView>, bytes: Seq<u8>)
    requires
        bytes == msgpack_of(records_of(es)),
        msgpack_records(bytes) == records_of(es),
    ensures
        msgpack_of(msgpack_records(bytes)) == bytes,
        entries_of(msgpack_records(bytes)) == es,
{
    records_round_trip(es);
}

/// The labels of the entries without license, separated by `, `.
fn report_of(es: &Vec<(Package, Vec<String>)>, ignored: &Vec<String>) -> (r: (String, usize))
    ensures
        r.0@ == report(unresolved_of(entries_view(es@), ignored@)),
        r.1 == unresolved_of(entries_view(es@), ignored@).len(),
{
    let ghost v = entries_view(es@);
    let mut out = String::new();
    let mut count: usize = 0;
    let mut i: usize = 0;
    assert(v.take(0) =~= seq![]);
    while i < es.len()
        invariant
            v == entries_view(es@),
            i <= es@.len(),
            count <= i,
            out@ == report(unresolved_of(v.take(i as int), ignored@)),
            count == unresolved_of(v.take(i as int), ignored@).len(),
        decreases es@.len() - i,
    {
        let ghost u = unresolved_of(v.take(i as int), ignored@);
        assert(v.take(i + 1).drop_last() =~= v.take(i as int));
        assert(v.take(i + 1).last() == v[i as int]);
        let e = &es[i];
        if e.1.len() == 0 && !contains_name(ignored, e.0.name.as_str()) {
            assert(lacks_license(v[i as int], ignored@));
            if count > 0 {
                out.append(", ");
            }
            out.append(e.0.name.as_str());
            out.append(" ");
            out.append(e.0.version.as_str());
            assert(u.push(v[i as int]).drop_last() =~= u);
            assert(out@ =~= report(u.push(v[i as int])));
            count = count + 1;
        }
        i = i + 1;
    }
    assert(v.take(i as int) =~= v);
    (out, count)
}

impl LicenseRetriever {
    /// The result of a run on the resolved `entries`: the copy rules of
    /// `config` checked for missing sources, then applied in order, then, in strict mode, an error naming every
    /// package without license that is not ignored.
    pub fn from_resolved(entries: Vec<(Package, Vec<String>)>, config: &Config) -> (r: Result<
        LicenseRetriever,
        Error,
    >)
        ensures
            match copy_run(entries_view(entries@), config.copies.deep_view()) {
                CopyOutcome::MissingSource(n) => r matches Err(Error::CopiedCrateNotFound(m)) && m@
                    == n,
                CopyOutcome::MissingTarget(n) => r matches Err(Error::CopyTargetNotFound(m)) && m@
                    == n,
                CopyOutcome::Copied(es) => if config.error_for_no_license && unresolved_of(
                    es,
                    config.ignored_crates@,
                ).len() > 0 {
                    r matches Err(Error::NoLicensesFound(m)) && m@ == report(
                        unresolved_of(es, config.ignored_crates@),
                    )
                } else {
                    r matches Ok(lr) && lr@ == es
                },
            },
    {
        let mut es = entries;
        match check_sources(&es, &config.copies) {
            Err(e) => {
                return Err(e);
            },
            Ok(()) => {},
        }
        match apply_copies(&mut es, &config.copies) {
            Err(e) => {
                return Err(e);
            },
            Ok(()) => {},
        }
        let (msg, count) = report_of(&es, &config.ignored_crates);
        if config.error_for_no_license && count > 0 {
            return Err(Error::NoLicensesFound(msg));
        }
        Ok(LicenseRetriever(es))
    }

    /// The packages without license that are not ignored, as `name version`
    /// separated by `, `; empty when there are none.
    pub fn unresolved_report(&self, config: &Config) -> (r: String)
        ensures
            r@ == report(unresolved_of(self@, config.ignored_crates@)),
    {
        report_of(&self.0, &config.ignored_crates).0
    }

    /// The packages and their texts, in order.
    pub fn iter(&self) -> (r: &Vec<(Package, Vec<String>)>)
        ensures
            entries_view(r@) == self@,
    {
        &self.0
    }

    /// The packages and their texts, in order, taken out.
    pub fn into_iter(self) -> (r: Vec<(Package, Vec<String>)>)
        ensures
            entries_view(r@) == self@,
    {
        self.0
    }

    /// The number of packages.
    pub fn len(&self) -> (r: usize)
        ensures
            r == self@.len(),
    {
        self.0.len()
    }

    /// The records of the packages and their texts, in order.
    pub fn to_records(&self) -> (r: Vec<Record>)
        ensures
            r.deep_view() == records_of(self@),
    {
        let ghost v = self@;
        let mut r: Vec<Record> = Vec::new();
        let mut i: usize = 0;
        while i < self.0.len()
            invariant
                v == entries_view(self.0@),
                i <= self.0@.len(),
                r@.len() == i,
                forall|j: int| 0 <= j < i ==> #[trigger] r@[j].deep_view() == records_of(v)[j],
            decreases self.0@.len() - i,
        {
            let e = &self.0[i];
            r.push(to_record(&e.0, &e.1));
            i = i + 1;
        }
        assert(r.deep_view() =~= records_of(v));
        r
    }

    /// The result that a list of records describes.
    pub fn from_records(records: &Vec<Record>) -> (r: LicenseRetriever)
        ensures
            r@ == entries_of(records.deep_view()),
    {
        let ghost rv = records.deep_view();
        let mut es: Vec<(Package, Vec<String>)> = Vec::new();
        let mut i: usize = 0;
        while i < records.len()
            invariant
                rv == records.deep_view(),
                i <= records@.len(),
                es@.len() == i,
                forall|j: int| 0 <= j < i ==> #[trigger] entry_view(es@[j]) == entries_of(rv)[j],
            decreases records@.len() - i,
        {
            es.push(from_record(&records[i]));
            i = i + 1;
        }
        assert(entries_view(es@) =~= entries_of(rv));
        LicenseRetriever(es)
    }

    /// The result as bytes: the MessagePack encoding of its records. Encoding
    /// succeeds exactly when every string and list is short enough for
    /// MessagePack's 32-bit lengths, and the bytes decode to the same records.
    pub fn to_bytes(&self) -> (r: Result<Vec<u8>, Error>)
        ensures
            r is Ok <==> records_fit(records_of(self@)),
            r matches Ok(b) ==> b@ == msgpack_of(records_of(self@)),
            r matches Ok(b) ==> msgpack_records(b@) == records_of(self@),
    {
        let records = self.to_records();
        if !fits_records(&records) {
            return Err(Error::Encode(String::from_str("a string or list is too long for MessagePack")));
        }
        match encode_records(&records) {
            Ok(b) => Ok(b),
            Err(m) => Err(Error::Encode(m)),
        }
    }

    /// The result that bytes encode. Bytes that are an encoding decode; empty
    /// bytes do not.
    pub fn from_bytes(bytes: &[u8]) -> (r: Result<LicenseRetriever, Error>)
        ensures
            r matches Ok(lr) ==> lr@ == entries_of(msgpack_records(bytes@)),
            msgpack_of(msgpack_records(bytes@)) == bytes@ ==> r is Ok,
            bytes@.len() == 0 ==> r is Err,
            r matches Err(e) ==> e is Decode,
    {
        match decode_records(bytes) {
            Ok(records) => Ok(LicenseRetriever::from_records(&records)),
            Err(m) => Err(Error::Decode(m)),
        }
    }
}

} // verus!
