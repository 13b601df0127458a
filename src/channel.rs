//! The rustup channel manifest model: which files a channel release needs,
//! where its manifest lives, and the per-channel history of mirrored files.

use vstd::prelude::*;

use crate::platforms::Platforms;
use crate::text::{
    texts, concat, find, find_from, has_prefix, has_suffix, join, join_with, owned, push_str, split, split_on, str_eq,
    strip_prefix, strip_suffix, to_chars, chars_find, from_chars, slice_from,
};

verus! {

/// The download locations of one target of a package.
#[derive(Debug, Clone, PartialEq, Eq)]
pub struct TargetUrls {
    pub url: String,
    pub hash: String,
    pub xz_url: String,
    pub xz_hash: String,
}

/// One target of a package.
#[derive(Debug, Clone, PartialEq, Eq)]
pub struct Target {
    pub available: bool,
    pub target_urls: Option<TargetUrls>,
}

/// One package of a channel release, with its targets by triple.
#[derive(Debug, Clone, PartialEq, Eq)]
pub struct Pkg {
    pub version: String,
    pub target: Vec<(String, Target)>,
}

/// A channel manifest: its date and its packages by name.
#[derive(Debug, Clone, PartialEq, Eq)]
pub struct Channel {
    pub manifest_version: String,
    pub date: String,
    pub pkg: Vec<(String, Pkg)>,
}

/// The path of a download URL below the mirror root: what follows its first
/// three `/`-separated segments (scheme, empty, host).
pub open spec fn relative_path_of(url: Seq<char>) -> Seq<char> {
    join_with(split_on(url, '/').skip(3), '/')
}

/// The URL has at least three `/`-separated segments.
pub open spec fn url_has_host(url: Seq<char>) -> bool {
    split_on(url, '/').len() >= 3
}

/// The files of the given targets that a mirror of `plats` needs, in order:
/// targets of a mirrored platform or of `*`, that have download locations.
pub open spec fn target_files(ts: Seq<(String, Target)>, plats: Seq<Seq<char>>) -> Seq<(Seq<char>, Seq<char>)>
    decreases ts.len(),
{
    if ts.len() == 0 {
        Seq::empty()
    } else {
        let prev = target_files(ts.drop_last(), plats);
        let t = ts.last();
        if (plats.contains(t.0@) || t.0@ == seq!['*']) && t.1.target_urls is Some {
            let u = t.1.target_urls->0;
            prev.push((relative_path_of(u.xz_url@), u.xz_hash@))
        } else {
            prev
        }
    }
}

/// `rustc-dev`, the package that a mirror leaves out.
pub open spec fn rustc_dev() -> Seq<char> {
    seq!['r', 'u', 's', 't', 'c', '-', 'd', 'e', 'v']
}

/// The files of the given packages that a mirror of `plats` needs, package by
/// package.
pub open spec fn package_files(ps: Seq<(String, Pkg)>, plats: Seq<Seq<char>>) -> Seq<(Seq<char>, Seq<char>)>
    decreases ps.len(),
{
    if ps.len() == 0 {
        Seq::empty()
    } else {
        let prev = package_files(ps.drop_last(), plats);
        let p = ps.last();
        if p.0@ == rustc_dev() {
            prev
        } else {
            prev + target_files(p.1.target@, plats)
        }
    }
}

/// Every target with download locations has a URL with a host part.
pub open spec fn targets_well_formed(ts: Seq<(String, Target)>) -> bool {
    forall|i: int| 0 <= i < ts.len() && (#[trigger] ts[i]).1.target_urls is Some
        ==> url_has_host(ts[i].1.target_urls->0.xz_url@)
}

impl Channel {
    /// Every download URL of the manifest has a host part.
    pub open spec fn well_formed(&self) -> bool {
        forall|i: int| 0 <= i < self.pkg@.len() ==> targets_well_formed((#[trigger] self.pkg@[i]).1.target@)
    }
}

/// The path of a download URL below the mirror root.
pub fn relative_path(url: &str) -> (r: String)
    requires
        url_has_host(url@),
    ensures
        r@ == relative_path_of(url@),
{
    let parts = split(url, '/');
    let mut rest: Vec<String> = Vec::new();
    let mut i: usize = 3;
    while i < parts.len()
        invariant
            3 <= i <= parts.len(),
            parts.deep_view() == split_on(url@, '/'),
            texts(rest@) == split_on(url@, '/').subrange(3, i as int),
        decreases parts.len() - i,
    {
        let ghost before = rest@;
        rest.push(parts[i].clone());
        assert(texts(rest@) =~= texts(before).push(parts@[i as int]@));
        assert(split_on(url@, '/').subrange(3, i + 1) =~= split_on(url@, '/').subrange(3, i as int).push(
            split_on(url@, '/')[i as int],
        ));
        i = i + 1;
    }
    assert(split_on(url@, '/').subrange(3, i as int) =~= split_on(url@, '/').skip(3));
    join(rest.as_slice(), '/')
}

/// Whether the manifest's download URLs all have a host part.
pub fn channel_well_formed(c: &Channel) -> (r: bool)
    ensures
        r == c.well_formed(),
{
    let mut i: usize = 0;
    while i < c.pkg.len()
        invariant
            i <= c.pkg.len(),
            forall|k: int| 0 <= k < i ==> targets_well_formed((#[trigger] c.pkg@[k]).1.target@),
        decreases c.pkg.len() - i,
    {
        let ts = &c.pkg[i].1.target;
        let mut j: usize = 0;
        while j < ts.len()
            invariant
                j <= ts.len(),
                i < c.pkg@.len(),
                ts@ == c.pkg@[i as int].1.target@,
                forall|k: int| 0 <= k < j && (#[trigger] ts@[k]).1.target_urls is Some
                    ==> url_has_host(ts@[k].1.target_urls->0.xz_url@),
            decreases ts.len() - j,
        {
            match &ts[j].1.target_urls {
                Some(u) => {
                    let parts = split(u.xz_url.as_str(), '/');
                    if parts.len() < 3 {
                        assert(ts@[j as int].1.target_urls is Some);
                        assert(!url_has_host(ts@[j as int].1.target_urls->0.xz_url@));
                        assert(!targets_well_formed(c.pkg@[i as int].1.target@));
                        return false;
                    }
                },
                None => {},
            }
            j = j + 1;
        }
        assert(targets_well_formed(c.pkg@[i as int].1.target@));
        i = i + 1;
    }
    true
}

/// Appends the files of `ts` that a mirror of `plats` needs.
fn push_target_files(out: &mut Vec<(String, String)>, ts: &Vec<(String, Target)>, plats: &Platforms)
    requires
        targets_well_formed(ts@),
    ensures
        final(out)@.map_values(|f: (String, String)| (f.0@, f.1@)) == old(out)@.map_values(
            |f: (String, String)| (f.0@, f.1@),
        ) + target_files(ts@, plats.all()),
{
    let ghost start = out@.map_values(|f: (String, String)| (f.0@, f.1@));
    let mut j: usize = 0;
    assert(ts@.take(0) =~= Seq::<(String, Target)>::empty());
    assert(start + Seq::<(Seq<char>, Seq<char>)>::empty() =~= start);
    while j < ts.len()
        invariant
            j <= ts.len(),
            targets_well_formed(ts@),
            out@.map_values(|f: (String, String)| (f.0@, f.1@)) == start + target_files(ts@.take(j as int), plats.all()),
        decreases ts.len() - j,
    {
        let name = &ts[j].0;
        assert(ts@.take(j + 1).drop_last() =~= ts@.take(j as int));
        assert(ts@.take(j + 1).last() == ts@[j as int]);
        let wanted = plats.contains(name) || str_eq(name.as_str(), "*");
        proof {
            reveal_strlit("*");
            assert("*"@ =~= seq!['*']);
            assert(wanted == (plats.all().contains(ts@[j as int].0@) || ts@[j as int].0@ == seq!['*']));
        }
        match &ts[j].1.target_urls {
            Some(u) => {
                assert(ts@[j as int].1.target_urls == Some(*u));
                assert(url_has_host(u.xz_url@));
                if wanted {
                    let path = relative_path(u.xz_url.as_str());
                    let ghost before = out@;
                    out.push((path, u.xz_hash.clone()));
                    assert(out@.map_values(|f: (String, String)| (f.0@, f.1@)) =~= before.map_values(
                        |f: (String, String)| (f.0@, f.1@),
                    ).push((path@, u.xz_hash@)));
                    assert(start + target_files(ts@.take(j + 1), plats.all()) =~= (start + target_files(
                        ts@.take(j as int),
                        plats.all(),
                    )).push((path@, u.xz_hash@)));
                }
            },
            None => {},
        }
        j = j + 1;
    }
    assert(ts@.take(j as int) =~= ts@);
}

/// The manifest's date and the files that a mirror of `plats` needs: for
/// every package but `rustc-dev`, every target of a mirrored platform or of
/// `*` that has download locations, as its path below the mirror root and its
/// SHA-256 hash.
pub fn download_list(channel: &Channel, plats: &Platforms) -> (r: (String, Vec<(String, String)>))
    requires
        channel.well_formed(),
    ensures
        r.0@ == channel.date@,
        r.1@.map_values(|f: (String, String)| (f.0@, f.1@)) == package_files(channel.pkg@, plats.all()),
{
    let mut out: Vec<(String, String)> = Vec::new();
    let mut i: usize = 0;
    assert(out@.map_values(|f: (String, String)| (f.0@, f.1@)) =~= Seq::<(Seq<char>, Seq<char>)>::empty());
    while i < channel.pkg.len()
        invariant
            i <= channel.pkg.len(),
            channel.well_formed(),
            out@.map_values(|f: (String, String)| (f.0@, f.1@)) == package_files(channel.pkg@.take(i as int), plats.all()),
        decreases channel.pkg.len() - i,
    {
        let p = &channel.pkg[i];
        assert(channel.pkg@.take(i + 1).drop_last() =~= channel.pkg@.take(i as int));
        assert(channel.pkg@.take(i + 1).last() == channel.pkg@[i as int]);
        let skip = str_eq(p.0.as_str(), "rustc-dev");
        proof {
            reveal_strlit("rustc-dev");
            assert("rustc-dev"@ =~= rustc_dev());
        }
        if !skip {
            assert(targets_well_formed(channel.pkg@[i as int].1.target@));
            push_target_files(&mut out, &p.1.target, plats);
        }
        i = i + 1;
    }
    assert(channel.pkg@.take(i as int) =~= channel.pkg@);
    (owned(channel.date.as_str()), out)
}

/// Where a channel's manifest is fetched from and kept, and the files that
/// its history keeps besides the downloaded ones.
#[derive(Debug, Clone, PartialEq, Eq)]
pub struct ChannelSource {
    /// The manifest's URL.
    pub url: String,
    /// The manifest's path below the mirror root, `/`-separated.
    pub path: String,
    /// Files that the channel's history lists besides the downloaded ones.
    pub extra_files: Vec<String>,
}

/// `nightly-`.
pub open spec fn nightly_prefix() -> Seq<char> {
    seq!['n', 'i', 'g', 'h', 't', 'l', 'y', '-']
}

/// The manifest path of a dated nightly: `dist/<date>/channel-rust-nightly.toml`.
pub open spec fn dated_manifest_path(date: Seq<char>) -> Seq<char> {
    "dist/"@ + date + "/channel-rust-nightly.toml"@
}

/// The manifest path of a named channel: `dist/channel-rust-<channel>.toml`.
pub open spec fn named_manifest_path(channel: Seq<char>) -> Seq<char> {
    "dist/channel-rust-"@ + channel + ".toml"@
}

/// Where a channel's manifest is: a dated nightly (`nightly-<date>`) under
/// its date, keeping the manifest and its `.sha256` in the history; any other
/// channel by its name, with no extra files.
pub fn channel_source(source: &str, channel: &str) -> (r: ChannelSource)
    ensures
        has_prefix(channel@, nightly_prefix()) ==> {
            let date = channel@.skip(8);
            &&& r.path@ == dated_manifest_path(date)
            &&& r.url@ == source@ + seq!['/'] + dated_manifest_path(date)
            &&& texts(r.extra_files@) == seq![dated_manifest_path(date), dated_manifest_path(date) + ".sha256"@]
        },
        !has_prefix(channel@, nightly_prefix()) ==> {
            &&& r.path@ == named_manifest_path(channel@)
            &&& r.url@ == source@ + seq!['/'] + named_manifest_path(channel@)
            &&& r.extra_files@.len() == 0
        },
{
    proof {
        reveal_strlit("nightly-");
        assert("nightly-"@ =~= nightly_prefix());
        reveal_strlit("/");
    }
    match strip_prefix(channel, "nightly-") {
        Some(date) => {
            let mut path = concat("dist/", date.as_str());
            push_str(&mut path, "/channel-rust-nightly.toml");
            let mut url = concat(source, "/");
            push_str(&mut url, path.as_str());
            let sha = concat(path.as_str(), ".sha256");
            let mut extra_files: Vec<String> = Vec::new();
            extra_files.push(owned(path.as_str()));
            extra_files.push(sha);
            assert(path@ =~= dated_manifest_path(date@));
            assert(url@ =~= source@ + seq!['/'] + dated_manifest_path(date@));
            assert(texts(extra_files@) =~= seq![dated_manifest_path(date@), dated_manifest_path(date@) + ".sha256"@]);
            ChannelSource { url, path, extra_files }
        },
        None => {
            let mut path = concat("dist/channel-rust-", channel);
            push_str(&mut path, ".toml");
            let mut url = concat(source, "/");
            push_str(&mut url, path.as_str());
            assert(path@ =~= named_manifest_path(channel@));
            assert(url@ =~= source@ + seq!['/'] + named_manifest_path(channel@));
            ChannelSource { url, path, extra_files: Vec::new() }
        },
    }
}

/// `mirror-<channel>-history.toml`.
pub open spec fn history_file_name_of(channel: Seq<char>) -> Seq<char> {
    "mirror-"@ + channel + "-history.toml"@
}

/// The name of a channel's history file in the mirror root.
pub fn history_file_name(channel: &str) -> (r: String)
    ensures
        r@ == history_file_name_of(channel@),
{
    let mut r = concat("mirror-", channel);
    push_str(&mut r, "-history.toml");
    assert(r@ =~= history_file_name_of(channel@));
    r
}

/// A channel's history: for each manifest date, the files of that snapshot.
#[derive(Debug, Clone, PartialEq, Eq)]
pub struct ChannelHistoryFile {
    pub versions: Vec<(String, Vec<String>)>,
}

/// The view of a history: dates with their file lists, in order.
pub open spec fn history_view(h: ChannelHistoryFile) -> Seq<(Seq<char>, Seq<Seq<char>>)> {
    h.versions@.map_values(|e: (String, Vec<String>)| (e.0@, texts(e.1@)))
}

/// No date occurs twice.
pub open spec fn dates_unique(v: Seq<(Seq<char>, Seq<Seq<char>>)>) -> bool {
    forall|i: int, j: int| 0 <= i < j < v.len() ==> (#[trigger] v[i]).0 != (#[trigger] v[j]).0
}

/// The history with `date` mapped to `files`: its entry replaced where the
/// date is present, else added at the end.
pub open spec fn with_date(v: Seq<(Seq<char>, Seq<Seq<char>>)>, date: Seq<char>, files: Seq<Seq<char>>) -> Seq<(Seq<char>, Seq<Seq<char>>)> {
    if exists|i: int| 0 <= i < v.len() && (#[trigger] v[i]).0 == date {
        let i = choose|i: int| 0 <= i < v.len() && (#[trigger] v[i]).0 == date;
        v.update(i, (date, files))
    } else {
        v.push((date, files))
    }
}

/// What a history records for one snapshot: the downloaded files' paths,
/// then the extra files.
pub open spec fn snapshot_files(files: Seq<(String, String)>, extra: Seq<String>) -> Seq<Seq<char>> {
    files.map_values(|f: (String, String)| f.0@) + texts(extra)
}

impl ChannelHistoryFile {
    /// An empty history.
    pub fn new() -> (r: ChannelHistoryFile)
        ensures
            history_view(r) == Seq::<(Seq<char>, Seq<Seq<char>>)>::empty(),
    {
        let r = ChannelHistoryFile { versions: Vec::new() };
        assert(history_view(r) =~= Seq::<(Seq<char>, Seq<Seq<char>>)>::empty());
        r
    }

    /// Records a snapshot: `date` now lists the downloaded files' paths and
    /// then the extra files, replacing what it listed before.
    pub fn record(&mut self, date: &str, files: &[(String, String)], extra_files: &[String])
        requires
            dates_unique(history_view(*old(self))),
        ensures
            dates_unique(history_view(*final(self))),
            history_view(*final(self)) == with_date(history_view(*old(self)), date@, snapshot_files(files@, extra_files@)),
    {
        let ghost hv = history_view(*self);
        let ghost want = snapshot_files(files@, extra_files@);
        let mut list: Vec<String> = Vec::new();
        let mut i: usize = 0;
        while i < files.len()
            invariant
                i <= files.len(),
                texts(list@) == files@.take(i as int).map_values(|f: (String, String)| f.0@),
            decreases files.len() - i,
        {
            let ghost before = list@;
            list.push(files[i].0.clone());
            assert(texts(list@) =~= texts(before).push(files@[i as int].0@));
            assert(files@.take(i + 1).map_values(|f: (String, String)| f.0@) =~= files@.take(i as int).map_values(
                |f: (String, String)| f.0@,
            ).push(files@[i as int].0@));
            i = i + 1;
        }
        let mut k: usize = 0;
        while k < extra_files.len()
            invariant
                k <= extra_files.len(),
                i == files.len(),
                texts(list@) == files@.take(i as int).map_values(|f: (String, String)| f.0@) + texts(extra_files@.take(k as int)),
            decreases extra_files.len() - k,
        {
            let ghost before = list@;
            list.push(extra_files[k].clone());
            assert(texts(list@) =~= texts(before).push(extra_files@[k as int]@));
            assert(texts(extra_files@.take(k + 1)) =~= texts(extra_files@.take(k as int)).push(extra_files@[k as int]@));
            k = k + 1;
        }
        assert(files@.take(i as int) =~= files@);
        assert(extra_files@.take(k as int) =~= extra_files@);
        assert(texts(list@) =~= want);
        let mut j: usize = 0;
        while j < self.versions.len()
            invariant
                j <= self.versions.len(),
                hv == history_view(*self),
                hv == history_view(*old(self)),
                dates_unique(hv),
                texts(list@) == want,
                want == snapshot_files(files@, extra_files@),
                forall|m: int| 0 <= m < j ==> (#[trigger] hv[m]).0 != date@,
            decreases self.versions.len() - j,
        {
            if str_eq(self.versions[j].0.as_str(), date) {
                let ghost idx = j as int;
                assert(hv[idx].0 == date@);
                proof {
                    let c = choose|c: int| 0 <= c < hv.len() && (#[trigger] hv[c]).0 == date@;
                    if c != idx {
                        if c < idx {
                            assert(hv[c].0 != date@);
                        } else {
                            assert(hv[idx].0 != hv[c].0);
                        }
                    }
                    assert(c == idx);
                    assert(with_date(hv, date@, want) == hv.update(idx, (date@, want)));
                }
                let ghost list_view = texts(list@);
                assert(list_view == want);
                self.versions.set(j, (owned(date), list));
                assert(history_view(*self) =~= hv.update(idx, (date@, list_view)));
                assert(history_view(*self) == with_date(hv, date@, want));
                proof {
                    let nv = history_view(*self);
                    assert forall|a: int, b: int| 0 <= a < b < nv.len() implies (#[trigger] nv[a]).0 != (#[trigger] nv[b]).0 by {
                        if a != idx && b != idx {
                            assert(nv[a] == hv[a] && nv[b] == hv[b]);
                        } else if a == idx {
                            assert(nv[b] == hv[b]);
                            assert(hv[a].0 != hv[b].0);
                        } else {
                            assert(nv[a] == hv[a]);
                            assert(hv[a].0 != hv[b].0);
                        }
                    }
                }
                return;
            }
            j = j + 1;
        }
        let ghost list_view = texts(list@);
        self.versions.push((owned(date), list));
        assert(history_view(*self) =~= hv.push((date@, list_view)));
        proof {
            let nv = history_view(*self);
            assert forall|a: int, b: int| 0 <= a < b < nv.len() implies (#[trigger] nv[a]).0 != (#[trigger] nv[b]).0 by {
                if b < hv.len() {
                    assert(nv[a] == hv[a] && nv[b] == hv[b]);
                } else {
                    assert(nv[a] == hv[a]);
                }
            }
        }
    }
}

/// `s` without the prefix `pre` and then without the suffix `suf`, when it
/// has both.
pub open spec fn strip_both(s: Seq<char>, pre: Seq<char>, suf: Seq<char>) -> Option<Seq<char>> {
    if has_prefix(s, pre) && has_suffix(s.skip(pre.len() as int), suf) {
        let rest = s.skip(pre.len() as int);
        Some(rest.take(rest.len() - suf.len()))
    } else {
        None
    }
}

/// `s` without the prefix `pre` and then without the suffix `suf`.
fn strip_both_exec(s: &str, pre: &str, suf: &str) -> (r: Option<String>)
    ensures
        r matches Some(t) ==> strip_both(s@, pre@, suf@) == Some(t@),
        r is None ==> strip_both(s@, pre@, suf@) is None,
{
    match strip_prefix(s, pre) {
        Some(rest) => strip_suffix(rest.as_str(), suf),
        None => None,
    }
}

/// The channel that a history file in the mirror root belongs to.
#[derive(Debug, Clone, PartialEq, Eq)]
pub struct HistoryChannel {
    /// The name that its file paths carry after `cargo-`: `nightly` for any
    /// nightly, else the channel itself.
    pub name: String,
    /// The channel's identifier: `nightly-<date>` for a dated nightly, else
    /// the channel itself.
    pub id: String,
}

/// The channel of a history file, by its file name: a dated nightly's file
/// `mirror-nightly-<date>-history.toml` (a non-empty date) gives `nightly`
/// and `nightly-<date>`; any other `mirror-<channel>-history.toml` gives the
/// channel for both; `None` for a name of neither shape.
pub open spec fn history_channel_of(file: Seq<char>) -> Option<(Seq<char>, Seq<char>)> {
    match strip_both(file, "mirror-nightly-"@, "-history.toml"@) {
        Some(date) if date.len() > 0 => Some(("nightly"@, "nightly-"@ + date)),
        _ => match strip_both(file, "mirror-"@, "-history.toml"@) {
            Some(c) => Some((c, c)),
            None => None,
        },
    }
}

/// The channel of a history file, by its file name.
pub fn history_channel(file_name: &str) -> (r: Option<HistoryChannel>)
    ensures
        r matches Some(h) ==> history_channel_of(file_name@) == Some((h.name@, h.id@)),
        r is None ==> history_channel_of(file_name@) is None,
{
    match strip_both_exec(file_name, "mirror-nightly-", "-history.toml") {
        Some(date) => {
            if !date.as_str().is_empty() {
                let id = concat("nightly-", date.as_str());
                return Some(HistoryChannel { name: owned("nightly"), id });
            }
        },
        None => {},
    }
    match strip_both_exec(file_name, "mirror-", "-history.toml") {
        Some(c) => {
            let id = owned(c.as_str());
            Some(HistoryChannel { name: c, id })
        },
        None => None,
    }
}

/// `cargo-<name>-`.
pub open spec fn cargo_prefix(name: Seq<char>) -> Seq<char> {
    "cargo-"@ + name + seq!['-']
}

/// The platform that a history file path names for channel `name`: what
/// follows the first `cargo-<name>-` in it, without a final `tar.xz`.
pub open spec fn platform_of_path(path: Seq<char>, name: Seq<char>) -> Option<Seq<char>> {
    match find(path, cargo_prefix(name)) {
        None => None,
        Some(i) => {
            let rest = path.skip((i + cargo_prefix(name).len()) as int);
            if has_suffix(rest, "tar.xz"@) {
                Some(rest.take(rest.len() - 6))
            } else {
                None
            }
        },
    }
}

/// The platform that a history file path names for channel `name`.
pub fn platform_of_history_path(path: &str, name: &str) -> (r: Option<String>)
    ensures
        r matches Some(p) ==> platform_of_path(path@, name@) == Some(p@),
        r is None ==> platform_of_path(path@, name@) is None,
{
    let mut prefix = concat("cargo-", name);
    push_str(&mut prefix, "-");
    proof {
        reveal_strlit("-");
    }
    assert(prefix@ =~= cargo_prefix(name@));
    let cs = to_chars(path);
    let ps = to_chars(prefix.as_str());
    match chars_find(cs.as_slice(), ps.as_slice()) {
        None => None,
        Some(i) => {
            proof {
                crate::text::lemma_find_fits(cs@, ps@, 0);
                assert(find(cs@, ps@) == Some(i as nat));
                assert(i + ps.len() <= cs.len());
            }
            let rest = from_chars(slice_from(&cs, i + ps.len()).as_slice());
            proof {
                reveal_strlit("tar.xz");
            }
            strip_suffix(rest.as_str(), "tar.xz")
        },
    }
}

/// The platforms of the files of `files` for channel `name`, in order.
pub open spec fn platforms_of_files(files: Seq<Seq<char>>, name: Seq<char>) -> Seq<Seq<char>>
    decreases files.len(),
{
    if files.len() == 0 {
        Seq::empty()
    } else {
        let prev = platforms_of_files(files.drop_last(), name);
        match platform_of_path(files.last(), name) {
            Some(p) => prev.push(p),
            None => prev,
        }
    }
}

/// The platforms named by every snapshot of a history, snapshot by snapshot.
pub open spec fn platforms_of_history(v: Seq<(Seq<char>, Seq<Seq<char>>)>, name: Seq<char>) -> Seq<Seq<char>>
    decreases v.len(),
{
    if v.len() == 0 {
        Seq::empty()
    } else {
        platforms_of_history(v.drop_last(), name) + platforms_of_files(v.last().1, name)
    }
}

/// The platforms that a channel's history names.
pub fn history_platforms(h: &ChannelHistoryFile, name: &str) -> (r: Vec<String>)
    ensures
        texts(r@) == platforms_of_history(history_view(*h), name@),
{
    let ghost hv = history_view(*h);
    let mut r: Vec<String> = Vec::new();
    let mut i: usize = 0;
    assert(hv.take(0) =~= Seq::<(Seq<char>, Seq<Seq<char>>)>::empty());
    assert(texts(r@) =~= Seq::<Seq<char>>::empty());
    while i < h.versions.len()
        invariant
            i <= h.versions.len(),
            hv == history_view(*h),
            texts(r@) == platforms_of_history(hv.take(i as int), name@),
        decreases h.versions.len() - i,
    {
        let files = &h.versions[i].1;
        let ghost fv = texts(files@);
        assert(hv[i as int].1 == fv);
        let ghost start = texts(r@);
        let mut j: usize = 0;
        assert(fv.take(0) =~= Seq::<Seq<char>>::empty());
        assert(start + Seq::<Seq<char>>::empty() =~= start);
        while j < files.len()
            invariant
                j <= files.len(),
                fv == texts(files@),
                texts(r@) == start + platforms_of_files(fv.take(j as int), name@),
            decreases files.len() - j,
        {
            assert(fv.take(j + 1).drop_last() =~= fv.take(j as int));
            assert(fv.take(j + 1).last() == files@[j as int]@);
            match platform_of_history_path(files[j].as_str(), name) {
                Some(p) => {
                    let ghost before = r@;
                    let ghost pv = p@;
                    r.push(p);
                    assert(texts(r@) =~= texts(before).push(pv));
                    assert(texts(r@) =~= start + platforms_of_files(fv.take(j + 1), name@));
                },
                None => {},
            }
            j = j + 1;
        }
        assert(fv.take(j as int) =~= fv);
        assert(hv.take(i + 1).drop_last() =~= hv.take(i as int));
        i = i + 1;
    }
    assert(hv.take(i as int) =~= hv);
    r
}

/// A mirrored channel's identifier and the platforms that its history file
/// names, from the file's name and contents; `None` when the name is not
/// that of a history file.
pub fn channel_platforms(file_name: &str, h: &ChannelHistoryFile) -> (r: Option<(String, Vec<String>)>)
    ensures
        r is None <==> history_channel_of(file_name@) is None,
        r matches Some(v) ==> ({
            let c = history_channel_of(file_name@)->0;
            v.0@ == c.1 && texts(v.1@) == platforms_of_history(history_view(*h), c.0)
        }),
{
    match history_channel(file_name) {
        Some(c) => {
            let platforms = history_platforms(h, c.name.as_str());
            Some((c.id, platforms))
        },
        None => None,
    }
}

/// The target names of the given packages, package by package.
pub open spec fn target_names(ps: Seq<(String, Pkg)>) -> Seq<Seq<char>>
    decreases ps.len(),
{
    if ps.len() == 0 {
        Seq::empty()
    } else {
        target_names(ps.drop_last()) + ps.last().1.target@.map_values(|t: (String, Target)| t.0@)
    }
}

/// Every target name that the manifest's packages list, package by package,
/// repeats included.
pub fn manifest_targets(channel: &Channel) -> (r: Vec<String>)
    ensures
        texts(r@) == target_names(channel.pkg@),
{
    let mut r: Vec<String> = Vec::new();
    let mut i: usize = 0;
    assert(texts(r@) =~= target_names(channel.pkg@.take(0)));
    while i < channel.pkg.len()
        invariant
            i <= channel.pkg.len(),
            texts(r@) == target_names(channel.pkg@.take(i as int)),
        decreases channel.pkg.len() - i,
    {
        let ts = &channel.pkg[i].1.target;
        let ghost start = texts(r@);
        let ghost names = ts@.map_values(|t: (String, Target)| t.0@);
        let mut j: usize = 0;
        assert(start + names.take(0) =~= start);
        while j < ts.len()
            invariant
                j <= ts.len(),
                names == ts@.map_values(|t: (String, Target)| t.0@),
                texts(r@) == start + names.take(j as int),
            decreases ts.len() - j,
        {
            let ghost before = r@;
            r.push(ts[j].0.clone());
            assert(texts(r@) =~= texts(before).push(names[j as int]));
            assert(names.take(j + 1) =~= names.take(j as int).push(names[j as int]));
            j = j + 1;
        }
        assert(names.take(j as int) =~= names);
        assert(channel.pkg@.take(i + 1).drop_last() =~= channel.pkg@.take(i as int));
        assert(channel.pkg@.take(i + 1).last() == channel.pkg@[i as int]);
        i = i + 1;
    }
    assert(channel.pkg@.take(i as int) =~= channel.pkg@);
    r
}

} // verus!
