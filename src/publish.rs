//! The publish pipeline's own logic: the framing of a publish request body,
//! the checks on what it carries, the record that goes into the index, and
//! the outcome of adding that record to the crate's entry file.

use vstd::prelude::*;

use crate::checksum::{cksum_of, crate_cksum};
use crate::entry::{
    Dep, Entries, Entry, EntryView, has_version, publish_record, publish_sequence, opt_view,
    lemma_distinct_versions_all_published,
};
use crate::layout::{crate_file_path, crate_file_segments, index_entry_path, index_entry_segments};
use crate::text::{concat, owned, push_str, texts, to_chars};

verus! {

/// The largest publish request body accepted: 20 MiB.
pub const MAX_PUBLISH_BODY: usize = 20971520;

/// A 32-bit little-endian length read from four bytes.
pub open spec fn u32_le(b: Seq<u8>) -> nat {
    b[0] as nat + 256 * (b[1] as nat) + 65536 * (b[2] as nat) + 16777216 * (b[3] as nat)
}

/// Why a publish request failed.
#[derive(Debug, Clone, PartialEq, Eq)]
pub enum PublishError {
    /// The body is longer than the cap.
    BodyTooLarge,
    /// The body ends before a length or a region that it announces.
    BodyTruncated,
    /// Bytes follow the crate file region.
    BodyTrailingBytes,
    /// The crate name is empty or holds a character other than an ASCII
    /// letter, digit, `-` or `_`.
    InvalidName,
    /// The version is empty or holds a character other than an ASCII letter,
    /// digit, `.`, `+` or `-`.
    InvalidVersion,
    /// A different `.crate` file is already stored for this version.
    CrateFileMismatch,
    /// The index already records this version of the crate.
    DuplicateVersion { name: String, vers: String },
}

/// The two regions of a publish request body.
#[derive(Debug, Clone, PartialEq, Eq)]
pub struct PublishBody {
    /// The JSON metadata of the published version.
    pub metadata: Vec<u8>,
    /// The `.crate` file.
    pub crate_file: Vec<u8>,
}

/// How a publish body of `b` splits, or the error it gives.
pub open spec fn body_regions(b: Seq<u8>) -> Result<(Seq<u8>, Seq<u8>), PublishError> {
    if b.len() > MAX_PUBLISH_BODY {
        Err(PublishError::BodyTooLarge)
    } else if b.len() < 4 {
        Err(PublishError::BodyTruncated)
    } else {
        let m = u32_le(b.subrange(0, 4)) as int;
        if 4 + m + 4 > b.len() {
            Err(PublishError::BodyTruncated)
        } else {
            let c = u32_le(b.subrange(4 + m, 8 + m)) as int;
            if 8 + m + c > b.len() {
                Err(PublishError::BodyTruncated)
            } else if 8 + m + c < b.len() {
                Err(PublishError::BodyTrailingBytes)
            } else {
                Ok((b.subrange(4, 4 + m), b.subrange(8 + m, b.len() as int)))
            }
        }
    }
}

/// The bytes of `b` from `from` up to `to`.
fn copy_range(b: &[u8], from: usize, to: usize) -> (r: Vec<u8>)
    requires
        from <= to <= b.len(),
    ensures
        r@ == b@.subrange(from as int, to as int),
{
    let mut r: Vec<u8> = Vec::new();
    let mut i: usize = from;
    while i < to
        invariant
            from <= i <= to <= b.len(),
            r@ == b@.subrange(from as int, i as int),
        decreases to - i,
    {
        r.push(b[i]);
        assert(b@.subrange(from as int, i + 1) =~= b@.subrange(from as int, i as int).push(b@[i as int]));
        i = i + 1;
    }
    r
}

/// The 32-bit little-endian length at position `at` of `b`.
fn read_u32_le(b: &[u8], at: usize) -> (r: usize)
    requires
        at + 4 <= b.len(),
    ensures
        r as nat == u32_le(b@.subrange(at as int, at + 4)),
{
    let x: u64 = b[at] as u64 + 256 * (b[at + 1] as u64) + 65536 * (b[at + 2] as u64)
        + 16777216 * (b[at + 3] as u64);
    assert(b@.subrange(at as int, at + 4)[1] == b@[at + 1]);
    assert(b@.subrange(at as int, at + 4)[2] == b@[at + 2]);
    assert(b@.subrange(at as int, at + 4)[3] == b@[at + 3]);
    assert(x < 0x1_0000_0000);
    x as usize
}

impl PublishBody {
    /// Splits a publish request body: a 32-bit little-endian length, that
    /// many bytes of metadata, a second such length, and that many bytes of
    /// crate file, with nothing after.
    pub fn parse(body: &[u8]) -> (r: Result<PublishBody, PublishError>)
        ensures
            r matches Ok(p) ==> body_regions(body@) == Ok::<(Seq<u8>, Seq<u8>), PublishError>((p.metadata@, p.crate_file@)),
            r matches Err(e) ==> body_regions(body@) == Err::<(Seq<u8>, Seq<u8>), PublishError>(e),
    {
        if body.len() > MAX_PUBLISH_BODY {
            return Err(PublishError::BodyTooLarge);
        }
        if body.len() < 4 {
            return Err(PublishError::BodyTruncated);
        }
        let m = read_u32_le(body, 0);
        if body.len() < 8 || m > body.len() - 8 {
            return Err(PublishError::BodyTruncated);
        }
        let c = read_u32_le(body, 4 + m);
        if c > body.len() - (8 + m) {
            return Err(PublishError::BodyTruncated);
        }
        if 8 + m + c < body.len() {
            return Err(PublishError::BodyTrailingBytes);
        }
        let metadata = copy_range(body, 4, 4 + m);
        let crate_file = copy_range(body, 8 + m, body.len());
        Ok(PublishBody { metadata, crate_file })
    }
}

/// A character that a crate name may hold.
pub open spec fn is_name_char(c: char) -> bool {
    ('a' <= c && c <= 'z') || ('A' <= c && c <= 'Z') || ('0' <= c && c <= '9') || c == '-' || c == '_'
}

/// A character that a version may hold.
pub open spec fn is_version_char(c: char) -> bool {
    ('a' <= c && c <= 'z') || ('A' <= c && c <= 'Z') || ('0' <= c && c <= '9') || c == '.' || c == '+'
        || c == '-'
}

/// A crate name: not empty, and only ASCII letters, digits, `-` and `_`.
pub open spec fn valid_name(s: Seq<char>) -> bool {
    s.len() > 0 && forall|i: int| 0 <= i < s.len() ==> is_name_char(#[trigger] s[i])
}

/// A version: not empty, and only ASCII letters, digits, `.`, `+` and `-`.
pub open spec fn valid_version(s: Seq<char>) -> bool {
    s.len() > 0 && forall|i: int| 0 <= i < s.len() ==> is_version_char(#[trigger] s[i])
}

/// Whether `s` is a crate name.
pub fn is_valid_name(s: &str) -> (r: bool)
    ensures
        r == valid_name(s@),
{
    let cs = to_chars(s);
    if cs.len() == 0 {
        return false;
    }
    let mut i: usize = 0;
    while i < cs.len()
        invariant
            i <= cs.len(),
            cs@ == s@,
            forall|j: int| 0 <= j < i ==> is_name_char(#[trigger] s@[j]),
        decreases cs.len() - i,
    {
        let c = cs[i];
        if !(('a' <= c && c <= 'z') || ('A' <= c && c <= 'Z') || ('0' <= c && c <= '9') || c == '-'
            || c == '_') {
            assert(!is_name_char(s@[i as int]));
            return false;
        }
        i = i + 1;
    }
    true
}

/// Whether `s` is a version.
pub fn is_valid_version(s: &str) -> (r: bool)
    ensures
        r == valid_version(s@),
{
    let cs = to_chars(s);
    if cs.len() == 0 {
        return false;
    }
    let mut i: usize = 0;
    while i < cs.len()
        invariant
            i <= cs.len(),
            cs@ == s@,
            forall|j: int| 0 <= j < i ==> is_version_char(#[trigger] s@[j]),
        decreases cs.len() - i,
    {
        let c = cs[i];
        if !(('a' <= c && c <= 'z') || ('A' <= c && c <= 'Z') || ('0' <= c && c <= '9') || c == '.'
            || c == '+' || c == '-') {
            assert(!is_version_char(s@[i as int]));
            return false;
        }
        i = i + 1;
    }
    true
}

/// The metadata region of a publish body: an index entry without its
/// checksum and yanked flag.
#[derive(Debug, Clone, PartialEq, Eq)]
pub struct PublishMetadata {
    pub name: String,
    pub vers: String,
    pub deps: Vec<Dep>,
    pub features: Vec<(String, Vec<String>)>,
    pub links: Option<String>,
}

/// The index record of a published version: its metadata, the checksum of
/// its `.crate` file, and not yanked.
pub open spec fn published_entry(m: PublishMetadata, crate_file: Seq<u8>) -> EntryView {
    EntryView {
        name: m.name@,
        vers: m.vers@,
        deps: m.deps@.map_values(|d: Dep| d@),
        cksum: cksum_of(crate_file),
        features: m.features@.map_values(|f: (String, Vec<String>)| (f.0@, texts(f.1@))),
        yanked: false,
        links: opt_view(m.links),
    }
}

/// `Publish <name>-<vers>`.
pub open spec fn publish_message(name: Seq<char>, vers: Seq<char>) -> Seq<char> {
    seq!['P', 'u', 'b', 'l', 'i', 's', 'h', ' '] + name + seq!['-'] + vers
}

/// What a publish writes: the record, where the `.crate` file goes below the
/// crates directory, where the entry file is below the index root, and the
/// commit message.
#[derive(Debug, Clone, PartialEq, Eq)]
pub struct PublishPlan {
    pub entry: Entry,
    pub crate_path: Vec<String>,
    pub index_path: Vec<String>,
    pub commit_message: String,
}

/// Checks a publish's metadata and works out what it writes.
pub fn plan_publish(meta: PublishMetadata, crate_file: &[u8]) -> (r: Result<PublishPlan, PublishError>)
    ensures
        r is Ok <==> valid_name(meta.name@) && valid_version(meta.vers@),
        r matches Err(e) ==> (if !valid_name(meta.name@) {
            e is InvalidName
        } else {
            e is InvalidVersion
        }),
        r matches Ok(p) ==> {
            &&& p.entry@ == published_entry(meta, crate_file@)
            &&& p.crate_path.deep_view() == crate_file_segments(meta.name@, meta.vers@)
            &&& p.index_path.deep_view() == index_entry_segments(meta.name@)
            &&& p.commit_message@ == publish_message(meta.name@, meta.vers@)
        },
{
    if !is_valid_name(meta.name.as_str()) {
        return Err(PublishError::InvalidName);
    }
    if !is_valid_version(meta.vers.as_str()) {
        return Err(PublishError::InvalidVersion);
    }
    let crate_path = crate_file_path(meta.name.as_str(), meta.vers.as_str());
    let index_path = index_entry_path(meta.name.as_str());
    let mut commit_message = concat("Publish ", meta.name.as_str());
    push_str(&mut commit_message, "-");
    push_str(&mut commit_message, meta.vers.as_str());
    proof {
        reveal_strlit("Publish ");
        reveal_strlit("-");
    }
    assert(commit_message@ =~= publish_message(meta.name@, meta.vers@));
    let cksum = crate_cksum(crate_file);
    let ghost m = meta;
    let entry = Entry {
        name: meta.name,
        vers: meta.vers,
        deps: meta.deps,
        cksum,
        features: meta.features,
        yanked: false,
        links: meta.links,
    };
    assert(entry@ == published_entry(m, crate_file@));
    Ok(PublishPlan { entry, crate_path, index_path, commit_message })
}

/// Whether the `.crate` file must be written, given what is stored at its
/// place: nothing (write it), the same bytes (nothing to do), or other bytes
/// (refused).
pub fn crate_write_needed(existing: Option<&[u8]>, new: &[u8]) -> (r: Result<bool, PublishError>)
    ensures
        existing is None ==> r == Ok::<bool, PublishError>(true),
        existing matches Some(b) ==> (if b@ == new@ {
            r == Ok::<bool, PublishError>(false)
        } else {
            r matches Err(e) && e is CrateFileMismatch
        }),
{
    match existing {
        None => Ok(true),
        Some(b) => {
            if b.len() != new.len() {
                assert(b@.len() != new@.len());
                return Err(PublishError::CrateFileMismatch);
            }
            let mut i: usize = 0;
            while i < b.len()
                invariant
                    i <= b.len(),
                    b.len() == new.len(),
                    existing == Some(b),
                    forall|j: int| 0 <= j < i ==> b@[j] == new@[j],
                decreases b.len() - i,
            {
                if b[i] != new[i] {
                    assert(b@[i as int] != new@[i as int]);
                    return Err(PublishError::CrateFileMismatch);
                }
                i = i + 1;
            }
            assert(b@ =~= new@);
            Ok(false)
        }
    }
}

/// Adds a published record to its crate's entry file; refused, with the
/// entry file unchanged, when that version is already recorded.
pub fn record_publish(entries: &mut Entries, entry: Entry) -> (r: Result<(), PublishError>)
    requires
        old(entries).wf(),
    ensures
        final(entries).wf(),
        r is Ok <==> !has_version(old(entries)@, entry@.vers),
        r is Ok ==> final(entries)@ == old(entries)@.push(entry@),
        r matches Err(e) ==> final(entries)@ == old(entries)@ && (e matches PublishError::DuplicateVersion { name, vers } && name@ == entry@.name && vers@ == entry@.vers),
{
    let name = entry.name.clone();
    let vers = entry.vers.clone();
    if entries.publish(entry) {
        Ok(())
    } else {
        Err(PublishError::DuplicateVersion { name, vers })
    }
}

/// The message of a publish error.
pub open spec fn publish_error_message(e: PublishError) -> Seq<char> {
    match e {
        PublishError::BodyTooLarge => "publish request body is larger than 20 MiB"@,
        PublishError::BodyTruncated => "publish request body is truncated"@,
        PublishError::BodyTrailingBytes => "publish request body has bytes after the crate file"@,
        PublishError::InvalidName => "invalid crate name"@,
        PublishError::InvalidVersion => "invalid crate version"@,
        PublishError::CrateFileMismatch => "a different crate file is already stored for this version"@,
        PublishError::DuplicateVersion { name, vers } => "crate "@ + name@ + "-"@ + vers@ + " is already published"@,
    }
}

impl PublishError {
    /// The error's message.
    pub fn message(&self) -> (r: String)
        ensures
            r@ == publish_error_message(*self),
    {
        match self {
            PublishError::BodyTooLarge => owned("publish request body is larger than 20 MiB"),
            PublishError::BodyTruncated => owned("publish request body is truncated"),
            PublishError::BodyTrailingBytes => owned("publish request body has bytes after the crate file"),
            PublishError::InvalidName => owned("invalid crate name"),
            PublishError::InvalidVersion => owned("invalid crate version"),
            PublishError::CrateFileMismatch => owned("a different crate file is already stored for this version"),
            PublishError::DuplicateVersion { name, vers } => {
                let mut r = concat("crate ", name.as_str());
                push_str(&mut r, "-");
                push_str(&mut r, vers.as_str());
                push_str(&mut r, " is already published");
                r
            },
        }
    }
}

/// Publishing versions that are all different and all new into one entry
/// file: every publish succeeds, the file gains exactly one record per
/// publish, and each record's checksum is that of its own `.crate` file.
pub proof fn lemma_publishes_recorded(s: Seq<EntryView>, metas: Seq<PublishMetadata>, crates: Seq<Seq<u8>>)
    requires
        metas.len() == crates.len(),
        forall|i: int| 0 <= i < metas.len() ==> !has_version(s, (#[trigger] metas[i]).vers@),
        forall|i: int, j: int| 0 <= i < j < metas.len() ==> (#[trigger] metas[i]).vers@ != (#[trigger] metas[j]).vers@,
    ensures
        ({
            let batch = Seq::new(metas.len(), |i: int| published_entry(metas[i], crates[i]));
            let out = publish_sequence(s, batch);
            &&& out.0.len() == s.len() + metas.len()
            &&& out.0.take(s.len() as int) == s
            &&& forall|i: int| 0 <= i < metas.len() ==> #[trigger] out.1[i]
            &&& forall|i: int| 0 <= i < metas.len() ==> #[trigger] out.0[s.len() + i] == published_entry(metas[i], crates[i])
            &&& forall|i: int| 0 <= i < metas.len() ==> (#[trigger] out.0[s.len() + i]).cksum == cksum_of(crates[i])
        }),
{
    let batch = Seq::new(metas.len(), |i: int| published_entry(metas[i], crates[i]));
    assert forall|i: int| 0 <= i < batch.len() implies !has_version(s, (#[trigger] batch[i]).vers) by {
        assert(batch[i].vers == metas[i].vers@);
    }
    assert forall|i: int, j: int| 0 <= i < j < batch.len() implies (#[trigger] batch[i]).vers != (#[trigger] batch[j]).vers by {
        assert(batch[i].vers == metas[i].vers@);
        assert(batch[j].vers == metas[j].vers@);
    }
    lemma_distinct_versions_all_published(s, batch);
    let out = publish_sequence(s, batch);
    assert(out.0 == s + batch);
    assert(out.0.take(s.len() as int) =~= s);
    assert forall|i: int| 0 <= i < metas.len() implies #[trigger] out.0[s.len() + i] == published_entry(metas[i], crates[i]) by {
        assert(out.0[s.len() + i] == batch[i]);
    }
    assert forall|i: int| 0 <= i < metas.len() implies (#[trigger] out.0[s.len() + i]).cksum == cksum_of(crates[i]) by {
        assert(out.0[s.len() + i] == batch[i]);
    }
}

/// The entry file that a record belongs to: its crate name's.
pub open spec fn file_of(e: EntryView) -> Seq<Seq<char>> {
    index_entry_segments(e.name)
}

/// The record belongs to entry file `f`.
pub open spec fn in_file(f: Seq<Seq<char>>) -> spec_fn(EntryView) -> bool {
    |e: EntryView| file_of(e) == f
}

/// The records of entry file `f`, of all the index's records in order.
pub open spec fn records_in(all: Seq<EntryView>, f: Seq<Seq<char>>) -> Seq<EntryView> {
    all.filter(in_file(f))
}

/// Publishing a record into the index: refused when its crate's entry file
/// already records its version, else the record is added.
pub open spec fn index_publish(all: Seq<EntryView>, e: EntryView) -> Option<Seq<EntryView>> {
    match publish_record(records_in(all, file_of(e)), e) {
        Some(_) => Some(all.push(e)),
        None => None,
    }
}

/// The index's records after publishing each of `batch` in turn, with
/// whether each publish succeeded.
pub open spec fn index_publish_sequence(all: Seq<EntryView>, batch: Seq<EntryView>) -> (Seq<EntryView>, Seq<bool>)
    decreases batch.len(),
{
    if batch.len() == 0 {
        (all, Seq::<bool>::empty())
    } else {
        let prev = index_publish_sequence(all, batch.drop_last());
        match index_publish(prev.0, batch.last()) {
            Some(next) => (next, prev.1.push(true)),
            None => (prev.0, prev.1.push(false)),
        }
    }
}

/// A publish into the index changes its crate's entry file exactly as
/// `publish_record` does and leaves every other entry file as it was.
pub proof fn lemma_index_publish_per_file(all: Seq<EntryView>, e: EntryView, f: Seq<Seq<char>>)
    ensures
        index_publish(all, e) is Some <==> publish_record(records_in(all, file_of(e)), e) is Some,
        index_publish(all, e) matches Some(next) ==> records_in(next, f) == (if f == file_of(e) {
            publish_record(records_in(all, f), e)->0
        } else {
            records_in(all, f)
        }),
{
    all.lemma_filter_push(e, in_file(f));
}

/// Publishes whose versions differ within each entry file, into an empty
/// index: all succeed, the index holds exactly the published records in
/// order, one per publish.
proof fn lemma_index_batch(batch: Seq<EntryView>)
    requires
        forall|i: int, j: int| 0 <= i < j < batch.len() && file_of(#[trigger] batch[i]) == file_of(#[trigger] batch[j])
            ==> batch[i].vers != batch[j].vers,
    ensures
        index_publish_sequence(Seq::empty(), batch).0 == batch,
        index_publish_sequence(Seq::empty(), batch).1.len() == batch.len(),
        forall|i: int| 0 <= i < batch.len() ==> #[trigger] index_publish_sequence(Seq::empty(), batch).1[i],
    decreases batch.len(),
{
    if batch.len() == 0 {
        assert(Seq::<EntryView>::empty() =~= batch);
    } else {
        let init = batch.drop_last();
        let e = batch.last();
        assert forall|i: int, j: int| 0 <= i < j < init.len() && file_of(#[trigger] init[i]) == file_of(#[trigger] init[j])
            implies init[i].vers != init[j].vers by {
            assert(init[i] == batch[i] && init[j] == batch[j]);
        }
        lemma_index_batch(init);
        let prev = index_publish_sequence(Seq::empty(), init);
        let rs = records_in(init, file_of(e));
        init.filter_lemma(in_file(file_of(e)));
        if has_version(rs, e.vers) {
            let k = choose|k: int| 0 <= k < rs.len() && #[trigger] rs[k].vers == e.vers;
            assert(in_file(file_of(e))(rs[k]));
            assert(rs.contains(rs[k]));
            init.lemma_filter_contains_rev(in_file(file_of(e)), rs[k]);
            assert(init.contains(rs[k]));
            let a = choose|a: int| 0 <= a < init.len() && init[a] == rs[k];
            assert(batch[a] == init[a]);
            assert(file_of(batch[a]) == file_of(batch[batch.len() - 1]));
        }
        assert(init.push(e) =~= batch);
        let out = index_publish_sequence(Seq::empty(), batch);
        assert forall|i: int| 0 <= i < batch.len() implies #[trigger] out.1[i] by {
            if i < batch.len() - 1 {
                assert(out.1[i] == prev.1[i]);
            }
        }
    }
}

/// Publishes of distinct crate versions across the whole index, starting
/// from an empty one: every publish succeeds; the index holds exactly one
/// record per publish, in its crate's entry file, with the checksum of its
/// own `.crate` file; and no entry file holds two records of one version.
/// Crate names that differ only in case share an entry file, so their
/// versions must differ as well.
pub proof fn lemma_index_publishes_recorded(metas: Seq<PublishMetadata>, crates: Seq<Seq<u8>>)
    requires
        metas.len() == crates.len(),
        forall|i: int, j: int| 0 <= i < j < metas.len()
            && index_entry_segments((#[trigger] metas[i]).name@) == index_entry_segments((#[trigger] metas[j]).name@)
            ==> metas[i].vers@ != metas[j].vers@,
    ensures
        ({
            let batch = Seq::new(metas.len(), |i: int| published_entry(metas[i], crates[i]));
            let out = index_publish_sequence(Seq::empty(), batch);
            &&& out.0.len() == metas.len()
            &&& forall|k: int| 0 <= k < metas.len() ==> #[trigger] out.1[k]
            &&& forall|k: int| 0 <= k < metas.len() ==> #[trigger] out.0[k] == published_entry(metas[k], crates[k])
            &&& forall|k: int| 0 <= k < metas.len() ==> records_in(out.0, index_entry_segments(metas[k].name@)).contains(
                #[trigger] published_entry(metas[k], crates[k]),
            )
            &&& forall|k: int| 0 <= k < metas.len() ==> (#[trigger] out.0[k]).cksum == cksum_of(crates[k])
            &&& forall|i: int, j: int| 0 <= i < out.0.len() && 0 <= j < out.0.len() && file_of(#[trigger] out.0[i])
                == file_of(#[trigger] out.0[j]) && out.0[i].vers == out.0[j].vers ==> i == j
        }),
{
    let batch = Seq::new(metas.len(), |i: int| published_entry(metas[i], crates[i]));
    assert forall|i: int, j: int| 0 <= i < j < batch.len() && file_of(#[trigger] batch[i]) == file_of(#[trigger] batch[j])
        implies batch[i].vers != batch[j].vers by {
        assert(batch[i].name == metas[i].name@ && batch[j].name == metas[j].name@);
    }
    lemma_index_batch(batch);
    let out = index_publish_sequence(Seq::empty(), batch);
    assert forall|k: int| 0 <= k < metas.len() implies records_in(out.0, index_entry_segments(metas[k].name@)).contains(
        #[trigger] published_entry(metas[k], crates[k]),
    ) by {
        let e = published_entry(metas[k], crates[k]);
        assert(out.0[k] == e);
        assert(out.0.contains(e));
        assert(in_file(index_entry_segments(metas[k].name@))(e));
        out.0.lemma_filter_contains(in_file(index_entry_segments(metas[k].name@)), k);
    }
    assert forall|i: int, j: int| 0 <= i < out.0.len() && 0 <= j < out.0.len() && file_of(#[trigger] out.0[i])
        == file_of(#[trigger] out.0[j]) && out.0[i].vers == out.0[j].vers implies i == j by {
        if i < j {
            assert(batch[i].name == metas[i].name@ && batch[j].name == metas[j].name@);
        } else if j < i {
            assert(batch[i].name == metas[i].name@ && batch[j].name == metas[j].name@);
        }
    }
}

} // verus!
