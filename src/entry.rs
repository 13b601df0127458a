//! Index entry records and the per-crate entry file.
//!
//! An entry file holds one record per published version, one record per line.
//! In memory it is a set of records: no two records are equal, and no two
//! records describe the same version.

use vstd::prelude::*;

use crate::text::{texts, join, join_with, lines, lines_of, split_on, free_of, str_eq, strip_cr};
use crate::text::lemma_split_join;

verus! {

/// The view of an optional string.
pub open spec fn opt_view(o: Option<String>) -> Option<Seq<char>> {
    match o {
        Some(s) => Some(s@),
        None => None,
    }
}

/// One dependency of a published version.
#[derive(Debug, Clone, PartialEq, Eq)]
pub struct Dep {
    /// Name of the dependency; the local name when it is renamed.
    pub name: String,
    /// The semver requirement for this dependency.
    pub req: String,
    /// Features enabled for this dependency.
    pub features: Vec<String>,
    /// Whether this is an optional dependency.
    pub optional: bool,
    /// Whether default features are enabled.
    pub default_features: bool,
    /// The target platform, such as `cfg(windows)`, if any.
    pub target: Option<String>,
    /// The dependency kind (`normal`, `build`, `dev`), if recorded.
    pub kind: Option<String>,
    /// The index URL of another registry the dependency comes from, if any.
    pub registry: Option<String>,
    /// The actual package name when the dependency is renamed.
    pub package: Option<String>,
}

/// What a dependency record holds.
pub struct DepView {
    pub name: Seq<char>,
    pub req: Seq<char>,
    pub features: Seq<Seq<char>>,
    pub optional: bool,
    pub default_features: bool,
    pub target: Option<Seq<char>>,
    pub kind: Option<Seq<char>>,
    pub registry: Option<Seq<char>>,
    pub package: Option<Seq<char>>,
}

impl View for Dep {
    type V = DepView;

    open spec fn view(&self) -> DepView {
        DepView {
            name: self.name@,
            req: self.req@,
            features: texts(self.features@),
            optional: self.optional,
            default_features: self.default_features,
            target: opt_view(self.target),
            kind: opt_view(self.kind),
            registry: opt_view(self.registry),
            package: opt_view(self.package),
        }
    }
}

/// One published version of a crate, as the index records it.
#[derive(Debug, Clone, PartialEq, Eq)]
pub struct Entry {
    /// The name of the package.
    pub name: String,
    /// The version of the package.
    pub vers: String,
    /// Direct dependencies of the package.
    pub deps: Vec<Dep>,
    /// SHA-256 checksum of the `.crate` file, in lowercase hex.
    pub cksum: String,
    /// Features defined for the package, each with the items it enables, in
    /// ascending order of feature name.
    pub features: Vec<(String, Vec<String>)>,
    /// Whether this version has been yanked.
    pub yanked: bool,
    /// The `links` value of the package's manifest, if any.
    pub links: Option<String>,
}

/// What an entry record holds.
pub struct EntryView {
    pub name: Seq<char>,
    pub vers: Seq<char>,
    pub deps: Seq<DepView>,
    pub cksum: Seq<char>,
    pub features: Seq<(Seq<char>, Seq<Seq<char>>)>,
    pub yanked: bool,
    pub links: Option<Seq<char>>,
}

impl View for Entry {
    type V = EntryView;

    open spec fn view(&self) -> EntryView {
        EntryView {
            name: self.name@,
            vers: self.vers@,
            deps: self.deps@.map_values(|d: Dep| d@),
            cksum: self.cksum@,
            features: self.features@.map_values(
                |f: (String, Vec<String>)| (f.0@, texts(f.1@)),
            ),
            yanked: self.yanked,
            links: opt_view(self.links),
        }
    }
}

/// Whether two optional strings are equal.
pub fn opt_str_eq(a: &Option<String>, b: &Option<String>) -> (r: bool)
    ensures
        r == (opt_view(*a) == opt_view(*b)),
{
    match (a, b) {
        (Some(x), Some(y)) => str_eq(x.as_str(), y.as_str()),
        (None, None) => true,
        _ => false,
    }
}

/// Whether two lists of strings are equal.
pub fn strings_eq(a: &Vec<String>, b: &Vec<String>) -> (r: bool)
    ensures
        r == (texts(a@) == texts(b@)),
{
    if a.len() != b.len() {
        assert(texts(a@).len() != texts(b@).len());
        return false;
    }
    let mut i: usize = 0;
    while i < a.len()
        invariant
            i <= a.len(),
            a.len() == b.len(),
            forall|j: int| 0 <= j < i ==> a@[j]@ == b@[j]@,
        decreases a.len() - i,
    {
        if !str_eq(a[i].as_str(), b[i].as_str()) {
            assert(texts(a@)[i as int] != texts(b@)[i as int]);
            return false;
        }
        i = i + 1;
    }
    assert(texts(a@) =~= texts(b@));
    true
}

impl Dep {
    /// Whether two dependency records are equal in every field.
    pub fn same_as(&self, other: &Dep) -> (r: bool)
        ensures
            r == (self@ == other@),
    {
        str_eq(self.name.as_str(), other.name.as_str())
            && str_eq(self.req.as_str(), other.req.as_str())
            && strings_eq(&self.features, &other.features)
            && self.optional == other.optional
            && self.default_features == other.default_features
            && opt_str_eq(&self.target, &other.target)
            && opt_str_eq(&self.kind, &other.kind)
            && opt_str_eq(&self.registry, &other.registry)
            && opt_str_eq(&self.package, &other.package)
    }
}

/// Whether two lists of dependency records are equal.
fn deps_eq(a: &Vec<Dep>, b: &Vec<Dep>) -> (r: bool)
    ensures
        r == (a@.map_values(|d: Dep| d@) == b@.map_values(|d: Dep| d@)),
{
    if a.len() != b.len() {
        assert(a@.map_values(|d: Dep| d@).len() != b@.map_values(|d: Dep| d@).len());
        return false;
    }
    let mut i: usize = 0;
    while i < a.len()
        invariant
            i <= a.len(),
            a.len() == b.len(),
            forall|j: int| 0 <= j < i ==> a@[j]@ == b@[j]@,
        decreases a.len() - i,
    {
        if !a[i].same_as(&b[i]) {
            assert(a@.map_values(|d: Dep| d@)[i as int] != b@.map_values(|d: Dep| d@)[i as int]);
            return false;
        }
        i = i + 1;
    }
    assert(a@.map_values(|d: Dep| d@) =~= b@.map_values(|d: Dep| d@));
    true
}

/// Whether two feature tables are equal.
fn features_eq(a: &Vec<(String, Vec<String>)>, b: &Vec<(String, Vec<String>)>) -> (r: bool)
    ensures
        r == (a@.map_values(|f: (String, Vec<String>)| (f.0@, texts(f.1@)))
            == b@.map_values(|f: (String, Vec<String>)| (f.0@, texts(f.1@)))),
{
    let ghost fa = a@.map_values(|f: (String, Vec<String>)| (f.0@, texts(f.1@)));
    let ghost fb = b@.map_values(|f: (String, Vec<String>)| (f.0@, texts(f.1@)));
    if a.len() != b.len() {
        assert(fa.len() != fb.len());
        return false;
    }
    let mut i: usize = 0;
    while i < a.len()
        invariant
            i <= a.len(),
            a.len() == b.len(),
            fa == a@.map_values(|f: (String, Vec<String>)| (f.0@, texts(f.1@))),
            fb == b@.map_values(|f: (String, Vec<String>)| (f.0@, texts(f.1@))),
            forall|j: int| 0 <= j < i ==> fa[j] == fb[j],
        decreases a.len() - i,
    {
        if !str_eq(a[i].0.as_str(), b[i].0.as_str()) || !strings_eq(&a[i].1, &b[i].1) {
            assert(fa[i as int] != fb[i as int]);
            return false;
        }
        i = i + 1;
    }
    assert(fa =~= fb);
    true
}

impl Entry {
    /// Whether two entry records are equal in every field.
    pub fn same_as(&self, other: &Entry) -> (r: bool)
        ensures
            r == (self@ == other@),
    {
        str_eq(self.name.as_str(), other.name.as_str())
            && str_eq(self.vers.as_str(), other.vers.as_str())
            && deps_eq(&self.deps, &other.deps)
            && str_eq(self.cksum.as_str(), other.cksum.as_str())
            && features_eq(&self.features, &other.features)
            && self.yanked == other.yanked
            && opt_str_eq(&self.links, &other.links)
    }
}

/// No two records are equal.
pub open spec fn distinct_records(s: Seq<EntryView>) -> bool {
    forall|i: int, j: int| 0 <= i < j < s.len() ==> s[i] != s[j]
}

/// Some record describes version `vers`.
pub open spec fn has_version(s: Seq<EntryView>, vers: Seq<char>) -> bool {
    exists|i: int| 0 <= i < s.len() && #[trigger] s[i].vers == vers
}

/// Set insertion: nothing changes when an equal record is present.
pub open spec fn insert_record(s: Seq<EntryView>, e: EntryView) -> Seq<EntryView> {
    if s.contains(e) {
        s
    } else {
        s.push(e)
    }
}

/// Every record of `es` inserted in turn.
pub open spec fn insert_all(s: Seq<EntryView>, es: Seq<EntryView>) -> Seq<EntryView>
    decreases es.len(),
{
    if es.len() == 0 {
        s
    } else {
        insert_record(insert_all(s, es.drop_last()), es.last())
    }
}

/// Publishing a record: refused when its version is already present, else
/// the record is added at the end.
pub open spec fn publish_record(s: Seq<EntryView>, e: EntryView) -> Option<Seq<EntryView>> {
    if has_version(s, e.vers) {
        None
    } else {
        Some(s.push(e))
    }
}

/// The records after publishing each of `batch` in turn, with whether each
/// publish succeeded.
pub open spec fn publish_sequence(s: Seq<EntryView>, batch: Seq<EntryView>) -> (Seq<EntryView>, Seq<bool>)
    decreases batch.len(),
{
    if batch.len() == 0 {
        (s, Seq::<bool>::empty())
    } else {
        let prev = publish_sequence(s, batch.drop_last());
        match publish_record(prev.0, batch.last()) {
            Some(next) => (next, prev.1.push(true)),
            None => (prev.0, prev.1.push(false)),
        }
    }
}

/// Publishing one version several times, in any order of arrival: the first
/// publish succeeds, every later one is refused, and the entry file ends with
/// exactly one record of that version.
pub proof fn lemma_same_version_published_once(s: Seq<EntryView>, batch: Seq<EntryView>, vers: Seq<char>)
    requires
        batch.len() >= 1,
        !has_version(s, vers),
        forall|i: int| 0 <= i < batch.len() ==> (#[trigger] batch[i]).vers == vers,
    ensures
        publish_sequence(s, batch).0 == s.push(batch[0]),
        publish_sequence(s, batch).1.len() == batch.len(),
        publish_sequence(s, batch).1[0],
        forall|i: int| 1 <= i < batch.len() ==> !(#[trigger] publish_sequence(s, batch).1[i]),
        has_version(publish_sequence(s, batch).0, vers),
        forall|i: int, j: int|
            0 <= i < publish_sequence(s, batch).0.len() && 0 <= j < publish_sequence(s, batch).0.len()
                && (#[trigger] publish_sequence(s, batch).0[i]).vers == vers
                && (#[trigger] publish_sequence(s, batch).0[j]).vers == vers ==> i == j,
    decreases batch.len(),
{
    let fin = s.push(batch[0]);
    assert(fin[s.len() as int].vers == vers);
    if batch.len() == 1 {
        let prev = publish_sequence(s, batch.drop_last());
        assert(batch.drop_last().len() == 0);
        assert(prev.0 == s);
        assert(batch.last() == batch[0]);
    } else {
        let init = batch.drop_last();
        assert forall|i: int| 0 <= i < init.len() implies (#[trigger] init[i]).vers == vers by {
            assert(init[i] == batch[i]);
        }
        lemma_same_version_published_once(s, init, vers);
        let prev = publish_sequence(s, init);
        assert(init[0] == batch[0]);
        assert(prev.0 == fin);
        assert(batch.last().vers == vers);
        assert(has_version(prev.0, vers));
        let out = publish_sequence(s, batch);
        assert(out.0 == fin);
        assert(out.1 == prev.1.push(false));
        assert forall|i: int| 1 <= i < batch.len() implies !(#[trigger] out.1[i]) by {
            if i < batch.len() - 1 {
                assert(out.1[i] == prev.1[i]);
            }
        }
    }
    let out = publish_sequence(s, batch);
    assert forall|i: int, j: int|
        0 <= i < out.0.len() && 0 <= j < out.0.len()
            && (#[trigger] out.0[i]).vers == vers
            && (#[trigger] out.0[j]).vers == vers implies i == j by {
        if i < s.len() {
            assert(s[i] == out.0[i]);
            assert(has_version(s, vers));
        }
        if j < s.len() {
            assert(s[j] == out.0[j]);
            assert(has_version(s, vers));
        }
    }
}

/// Publishing versions that are all different and all new: every publish
/// succeeds, and the entry file gains exactly one record per publish, in
/// order.
pub proof fn lemma_distinct_versions_all_published(s: Seq<EntryView>, batch: Seq<EntryView>)
    requires
        forall|i: int| 0 <= i < batch.len() ==> !has_version(s, (#[trigger] batch[i]).vers),
        forall|i: int, j: int| 0 <= i < j < batch.len() ==> (#[trigger] batch[i]).vers != (#[trigger] batch[j]).vers,
    ensures
        publish_sequence(s, batch).0 == s + batch,
        publish_sequence(s, batch).1.len() == batch.len(),
        forall|i: int| 0 <= i < batch.len() ==> #[trigger] publish_sequence(s, batch).1[i],
    decreases batch.len(),
{
    if batch.len() == 0 {
        assert(s + batch =~= s);
    } else {
        let init = batch.drop_last();
        assert forall|i: int| 0 <= i < init.len() implies !has_version(s, (#[trigger] init[i]).vers) by {
            assert(init[i] == batch[i]);
        }
        assert forall|i: int, j: int| 0 <= i < j < init.len() implies (#[trigger] init[i]).vers != (#[trigger] init[j]).vers by {
            assert(init[i] == batch[i]);
            assert(init[j] == batch[j]);
        }
        lemma_distinct_versions_all_published(s, init);
        let prev = publish_sequence(s, init);
        let last = batch.last();
        assert(prev.0 == s + init);
        if has_version(prev.0, last.vers) {
            let k = choose|k: int| 0 <= k < prev.0.len() && #[trigger] prev.0[k].vers == last.vers;
            if k < s.len() {
                assert(prev.0[k] == s[k]);
                assert(has_version(s, batch[batch.len() - 1].vers));
            } else {
                assert(prev.0[k] == batch[k - s.len()]);
            }
        }
        assert(s + batch =~= (s + init).push(last));
        let out = publish_sequence(s, batch);
        assert forall|i: int| 0 <= i < batch.len() implies #[trigger] out.1[i] by {
            if i < batch.len() - 1 {
                assert(out.1[i] == prev.1[i]);
            }
        }
    }
}

/// The records of one crate's entry file, with no two equal.
#[derive(Debug, Clone, PartialEq, Eq)]
pub struct Entries {
    records: Vec<Entry>,
}

impl View for Entries {
    type V = Seq<EntryView>;

    closed spec fn view(&self) -> Seq<EntryView> {
        self.records@.map_values(|e: Entry| e@)
    }
}

impl Entries {
    /// The set holds no two equal records.
    pub open spec fn wf(&self) -> bool {
        distinct_records(self@)
    }

    /// An empty entry file.
    pub fn new() -> (r: Entries)
        ensures
            r.wf(),
            r@ == Seq::<EntryView>::empty(),
    {
        let r = Entries { records: Vec::new() };
        assert(r@ =~= Seq::<EntryView>::empty());
        r
    }

    /// The number of records.
    pub fn len(&self) -> (r: usize)
        ensures
            r == self@.len(),
    {
        self.records.len()
    }

    /// The records, in the order they were added.
    pub fn records(&self) -> (r: &[Entry])
        ensures
            r@.map_values(|e: Entry| e@) == self@,
    {
        self.records.as_slice()
    }

    /// Whether a record equal to `e` is present.
    pub fn contains(&self, e: &Entry) -> (r: bool)
        ensures
            r == self@.contains(e@),
    {
        let mut i: usize = 0;
        while i < self.records.len()
            invariant
                i <= self.records.len(),
                forall|j: int| 0 <= j < i ==> self@[j] != e@,
            decreases self.records.len() - i,
        {
            if self.records[i].same_as(e) {
                assert(self@[i as int] == e@);
                return true;
            }
            i = i + 1;
        }
        false
    }

    /// Whether some record describes version `vers`.
    pub fn contains_version(&self, vers: &str) -> (r: bool)
        ensures
            r == has_version(self@, vers@),
    {
        let mut i: usize = 0;
        while i < self.records.len()
            invariant
                i <= self.records.len(),
                forall|j: int| 0 <= j < i ==> (#[trigger] self@[j]).vers != vers@,
            decreases self.records.len() - i,
        {
            if str_eq(self.records[i].vers.as_str(), vers) {
                assert(self@[i as int].vers == vers@);
                return true;
            }
            i = i + 1;
        }
        false
    }

    /// Adds `e` unless an equal record is present; says whether it was added.
    pub fn insert(&mut self, e: Entry) -> (r: bool)
        requires
            old(self).wf(),
        ensures
            final(self).wf(),
            final(self)@ == insert_record(old(self)@, e@),
            r == !old(self)@.contains(e@),
    {
        if self.contains(&e) {
            false
        } else {
            let ghost before = self@;
            self.records.push(e);
            assert(self@ =~= before.push(e@));
            true
        }
    }

    /// The set of the given records; a record equal to an earlier one is
    /// dropped.
    pub fn from_records(records: Vec<Entry>) -> (r: Entries)
        ensures
            r.wf(),
            r@ == insert_all(Seq::<EntryView>::empty(), records@.map_values(|e: Entry| e@)),
    {
        let ghost es = records@.map_values(|e: Entry| e@);
        let mut r = Entries::new();
        let mut rest = records;
        proof {
            assert(es.take(0) =~= Seq::<EntryView>::empty());
        }
        let n = rest.len();
        let mut i: usize = 0;
        while i < n
            invariant
                r.wf(),
                i <= n,
                n == es.len(),
                rest.len() == n - i,
                forall|k: int| 0 <= k < rest.len() ==> (#[trigger] rest@[k])@ == es[i + k],
                r@ == insert_all(Seq::<EntryView>::empty(), es.take(i as int)),
            decreases n - i,
        {
            let e = rest.remove(0);
            assert(e@ == es[i as int]);
            assert(es.take(i + 1).drop_last() =~= es.take(i as int));
            r.insert(e);
            i = i + 1;
            assert forall|k: int| 0 <= k < rest.len() implies (#[trigger] rest@[k])@ == es[i + k] by {}
        }
        assert(es.take(n as int) =~= es);
        r
    }

    /// Adds a newly published record; refused, with nothing changed, when a
    /// record of the same version is present.
    pub fn publish(&mut self, e: Entry) -> (r: bool)
        requires
            old(self).wf(),
        ensures
            final(self).wf(),
            r == publish_record(old(self)@, e@) is Some,
            r ==> final(self)@ == publish_record(old(self)@, e@)->0,
            !r ==> final(self)@ == old(self)@,
    {
        if self.contains_version(e.vers.as_str()) {
            false
        } else {
            let ghost before = self@;
            proof {
                if before.contains(e@) {
                    let k = choose|k: int| 0 <= k < before.len() && before[k] == e@;
                    assert(before[k].vers == e@.vers);
                }
            }
            self.records.push(e);
            assert(self@ =~= before.push(e@));
            true
        }
    }
}

/// The lines of an entry file's text, one encoded record each.
pub fn entry_file_lines(text: &str) -> (r: Vec<String>)
    ensures
        r.deep_view() == lines_of(text@),
{
    lines(text)
}

/// The text of an entry file from its encoded records, one per line, with no
/// newline after the last.
pub fn entry_file_text(encoded: &[String]) -> (r: String)
    ensures
        r@ == join_with(texts(encoded@), '\n'),
{
    join(encoded, '\n')
}

/// A line that an entry file can hold: not empty, no newline in it, and no
/// carriage return at its end.
pub open spec fn is_record_line(l: Seq<char>) -> bool {
    l.len() > 0 && free_of(l, '\n') && l.last() != '\r'
}

/// Reading back an entry file that was written from encoded records gives
/// those records, one per line, unchanged.
pub proof fn lemma_entry_file_round_trip(encoded: Seq<Seq<char>>)
    requires
        forall|i: int| 0 <= i < encoded.len() ==> is_record_line(#[trigger] encoded[i]),
    ensures
        lines_of(join_with(encoded, '\n')) == encoded,
{
    if encoded.len() == 0 {
        assert(join_with(encoded, '\n') == Seq::<char>::empty());
        assert(lines_of(Seq::<char>::empty()) =~= encoded);
    } else {
        assert forall|i: int| 0 <= i < encoded.len() implies free_of(#[trigger] encoded[i], '\n') by {
            assert(is_record_line(encoded[i]));
        }
        lemma_split_join(encoded, '\n');
        let p = split_on(join_with(encoded, '\n'), '\n');
        assert(p == encoded);
        assert(is_record_line(encoded[encoded.len() - 1]));
        assert forall|i: int| 0 <= i < encoded.len() - 1 implies strip_cr(#[trigger] encoded[i]) == encoded[i] by {
            assert(is_record_line(encoded[i]));
        }
        assert(p.drop_last().map_values(|l: Seq<char>| strip_cr(l)) =~= encoded.drop_last());
        assert(lines_of(join_with(encoded, '\n')) =~= encoded);
    }
}

} // verus!
