//! The platform inventory: the target triples that a toolchain mirror can
//! hold, split into the Unix ones and the fixed set of Windows ones.

use vstd::prelude::*;

use crate::text::{owned, str_eq, texts, to_chars};

verus! {

/// Lexicographic order on texts, character by character.
pub open spec fn lex_lt(a: Seq<char>, b: Seq<char>) -> bool
    decreases a.len(),
{
    if a.len() == 0 {
        b.len() > 0
    } else if b.len() == 0 {
        false
    } else if a[0] < b[0] {
        true
    } else if a[0] > b[0] {
        false
    } else {
        lex_lt(a.drop_first(), b.drop_first())
    }
}

proof fn lemma_lex_irreflexive(a: Seq<char>)
    ensures
        !lex_lt(a, a),
    decreases a.len(),
{
    if a.len() > 0 {
        lemma_lex_irreflexive(a.drop_first());
    }
}

proof fn lemma_lex_transitive(a: Seq<char>, b: Seq<char>, c: Seq<char>)
    requires
        lex_lt(a, b),
        lex_lt(b, c),
    ensures
        lex_lt(a, c),
    decreases a.len(),
{
    if a.len() > 0 && b.len() > 0 && c.len() > 0 && a[0] == b[0] && b[0] == c[0] {
        lemma_lex_transitive(a.drop_first(), b.drop_first(), c.drop_first());
    }
}

proof fn lemma_lex_total(a: Seq<char>, b: Seq<char>)
    ensures
        a == b || lex_lt(a, b) || lex_lt(b, a),
    decreases a.len(),
{
    if a.len() > 0 && b.len() > 0 && a[0] == b[0] {
        lemma_lex_total(a.drop_first(), b.drop_first());
        if a.drop_first() == b.drop_first() {
            assert(a =~= seq![a[0]] + a.drop_first());
            assert(b =~= seq![b[0]] + b.drop_first());
        }
    } else if a.len() == 0 && b.len() == 0 {
        assert(a =~= b);
    }
}

/// Whether `a` comes before `b`.
pub fn lex_less(a: &[char], b: &[char]) -> (r: bool)
    ensures
        r == lex_lt(a@, b@),
{
    let mut i: usize = 0;
    assert(a@.skip(0) =~= a@);
    assert(b@.skip(0) =~= b@);
    while i < a.len() && i < b.len()
        invariant
            i <= a.len(),
            i <= b.len(),
            lex_lt(a@, b@) == lex_lt(a@.skip(i as int), b@.skip(i as int)),
        decreases a.len() - i,
    {
        if a[i] < b[i] {
            return true;
        }
        if a[i] > b[i] {
            return false;
        }
        assert(a@.skip(i + 1) =~= a@.skip(i as int).drop_first());
        assert(b@.skip(i + 1) =~= b@.skip(i as int).drop_first());
        i = i + 1;
    }
    i < b.len()
}

/// The texts are in strictly increasing order.
pub open spec fn strictly_sorted(s: Seq<Seq<char>>) -> bool {
    forall|i: int, j: int| 0 <= i < j < s.len() ==> lex_lt(#[trigger] s[i], #[trigger] s[j])
}

/// The well-known Windows targets, where `rustup-init` has an `.exe` suffix.
pub open spec fn windows_targets() -> Seq<Seq<char>> {
    seq![
        "i586-pc-windows-msvc"@,
        "i686-pc-windows-gnu"@,
        "i686-pc-windows-msvc"@,
        "x86_64-pc-windows-gnu"@,
        "x86_64-pc-windows-msvc"@,
    ]
}

/// The well-known Windows targets.
pub fn windows_platforms() -> (r: Vec<String>)
    ensures
        texts(r@) == windows_targets(),
{
    let mut r: Vec<String> = Vec::new();
    r.push(owned("i586-pc-windows-msvc"));
    r.push(owned("i686-pc-windows-gnu"));
    r.push(owned("i686-pc-windows-msvc"));
    r.push(owned("x86_64-pc-windows-gnu"));
    r.push(owned("x86_64-pc-windows-msvc"));
    assert(texts(r@) =~= windows_targets());
    r
}

/// Whether `v` holds a string equal to `s`.
pub fn strings_contain(v: &[String], s: &str) -> (r: bool)
    ensures
        r == texts(v@).contains(s@),
{
    let ghost vv = texts(v@);
    let mut i: usize = 0;
    while i < v.len()
        invariant
            i <= v.len(),
            vv == texts(v@),
            forall|j: int| 0 <= j < i ==> vv[j] != s@,
        decreases v.len() - i,
    {
        if str_eq(v[i].as_str(), s) {
            assert(vv[i as int] == s@);
            return true;
        }
        i = i + 1;
    }
    false
}

/// Target triples, Unix ones first, then Windows ones.
#[derive(Debug, Clone, PartialEq, Eq)]
pub struct Platforms {
    unix: Vec<String>,
    windows: Vec<String>,
}

impl Platforms {
    /// The Unix targets.
    pub closed spec fn unix_view(&self) -> Seq<Seq<char>> {
        texts(self.unix@)
    }

    /// The Windows targets.
    pub closed spec fn windows_view(&self) -> Seq<Seq<char>> {
        texts(self.windows@)
    }

    /// All targets, Unix ones first.
    pub open spec fn all(&self) -> Seq<Seq<char>> {
        self.unix_view() + self.windows_view()
    }

    /// The two lists together fit in memory's index range.
    pub open spec fn wf(&self) -> bool {
        self.unix_view().len() + self.windows_view().len() <= usize::MAX
    }

    /// No targets.
    pub fn new() -> (r: Platforms)
        ensures
            r.wf(),
            r.unix_view() == Seq::<Seq<char>>::empty(),
            r.windows_view() == Seq::<Seq<char>>::empty(),
    {
        let r = Platforms { unix: Vec::new(), windows: Vec::new() };
        assert(r.unix_view() =~= Seq::<Seq<char>>::empty());
        assert(r.windows_view() =~= Seq::<Seq<char>>::empty());
        r
    }

    /// Inventory from its two lists.
    pub fn from_parts(unix: Vec<String>, windows: Vec<String>) -> (r: Platforms)
        requires
            unix@.len() + windows@.len() <= usize::MAX,
        ensures
            r.wf(),
            r.unix_view() == texts(unix@),
            r.windows_view() == texts(windows@),
    {
        Platforms { unix, windows }
    }

    /// The Unix targets.
    pub fn unix(&self) -> (r: &Vec<String>)
        ensures
            texts(r@) == self.unix_view(),
    {
        &self.unix
    }

    /// The Windows targets.
    pub fn windows(&self) -> (r: &Vec<String>)
        ensures
            texts(r@) == self.windows_view(),
    {
        &self.windows
    }

    /// Whether `platform` is among the targets.
    pub fn contains(&self, platform: &String) -> (r: bool)
        ensures
            r == self.all().contains(platform@),
    {
        let u = strings_contain(self.unix.as_slice(), platform.as_str());
        let w = strings_contain(self.windows.as_slice(), platform.as_str());
        proof {
            let a = self.all();
            if u {
                let k = choose|k: int| 0 <= k < self.unix_view().len() && self.unix_view()[k] == platform@;
                assert(a[k] == platform@);
            }
            if w {
                let k = choose|k: int| 0 <= k < self.windows_view().len() && self.windows_view()[k] == platform@;
                assert(a[self.unix_view().len() + k] == platform@);
            }
            if a.contains(platform@) {
                let k = choose|k: int| 0 <= k < a.len() && a[k] == platform@;
                if k < self.unix_view().len() {
                    assert(self.unix_view()[k] == platform@);
                } else {
                    assert(self.windows_view()[k - self.unix_view().len()] == platform@);
                }
            }
        }
        u || w
    }

    /// The number of targets.
    pub fn len(&self) -> (r: usize)
        requires
            self.wf(),
        ensures
            r == self.all().len(),
    {
        self.unix.len() + self.windows.len()
    }

    /// The target at position `index` of the Unix-then-Windows order.
    pub fn get(&self, index: usize) -> (r: Option<&String>)
        ensures
            index < self.all().len() ==> (r matches Some(s) && s@ == self.all()[index as int]),
            index >= self.all().len() ==> r is None,
    {
        let unix_len = self.unix.len();
        if index < unix_len {
            Some(&self.unix[index])
        } else if index - unix_len < self.windows.len() {
            Some(&self.windows[index - unix_len])
        } else {
            None
        }
    }

    /// A walk over the targets, Unix ones first.
    pub fn into_iter(&self) -> (r: PlatformsIntoIterator<'_>)
        ensures
            r.platforms == self,
            r.index == 0,
    {
        PlatformsIntoIterator { platforms: self, index: 0 }
    }
}

/// A position in the Unix-then-Windows order of an inventory.
pub struct PlatformsIntoIterator<'a> {
    pub platforms: &'a Platforms,
    pub index: usize,
}

impl<'a> PlatformsIntoIterator<'a> {
    /// The target at the current position, moving past it; `None` once all
    /// have been given.
    pub fn next(&mut self) -> (r: Option<&'a String>)
        requires
            old(self).platforms.wf(),
        ensures
            final(self).platforms == old(self).platforms,
            old(self).index < old(self).platforms.all().len() ==> (r matches Some(s)
                && s@ == old(self).platforms.all()[old(self).index as int]
                && final(self).index == old(self).index + 1),
            old(self).index >= old(self).platforms.all().len() ==> (r is None && final(self).index == old(self).index),
    {
        let r = self.platforms.get(self.index);
        if r.is_some() {
            self.index = self.index + 1;
        }
        r
    }

    /// How many targets are left: the same bound below and above.
    pub fn size_hint(&self) -> (r: (usize, Option<usize>))
        requires
            self.platforms.wf(),
        ensures
            r.0 == if self.index <= self.platforms.all().len() {
                self.platforms.all().len() - self.index
            } else {
                0
            },
            r.1 == Some(r.0),
    {
        let n = self.platforms.len();
        let left = if self.index <= n { n - self.index } else { 0 };
        (left, Some(left))
    }
}

/// Copies of the strings of `v`.
pub fn clone_strings(v: &Vec<String>) -> (r: Vec<String>)
    ensures
        texts(r@) == texts(v@),
{
    let mut r: Vec<String> = Vec::new();
    let mut i: usize = 0;
    while i < v.len()
        invariant
            i <= v.len(),
            texts(r@) == texts(v@).take(i as int),
        decreases v.len() - i,
    {
        let c = v[i].clone();
        assert(c@ == v@[i as int]@);
        let ghost before = r@;
        r.push(c);
        assert(r@ == before.push(c));
        assert(texts(r@) =~= texts(before).push(c@));
        assert(texts(v@).take(i + 1) =~= texts(v@).take(i as int).push(texts(v@)[i as int]));
        i = i + 1;
    }
    assert(texts(v@).take(i as int) =~= texts(v@));
    r
}

/// Whether the string at position `k` of `v` comes before `s`.
fn less_at(v: &Vec<String>, k: usize, s: &[char]) -> (r: bool)
    requires
        k < v@.len(),
    ensures
        r == lex_lt(texts(v@)[k as int], s@),
{
    let vc = to_chars(v[k].as_str());
    lex_less(vc.as_slice(), s)
}

/// Inserts `s` into the strictly sorted `v`, unless it is there already.
fn insert_sorted(v: &mut Vec<String>, s: String)
    requires
        strictly_sorted(texts(old(v)@)),
    ensures
        strictly_sorted(texts(final(v)@)),
        final(v)@.len() <= old(v)@.len() + 1,
        forall|t: Seq<char>| #[trigger] texts(final(v)@).contains(t) <==> (texts(old(v)@).contains(t) || t == s@),
{
    let ghost vv = texts(v@);
    let sc = to_chars(s.as_str());
    let mut k: usize = 0;
    while k < v.len() && less_at(v, k, sc.as_slice())
        invariant
            k <= v.len(),
            vv == texts(v@),
            sc@ == s@,
            forall|j: int| 0 <= j < k ==> lex_lt(#[trigger] vv[j], s@),
        decreases v.len() - k,
    {
        k = k + 1;
    }
    if k < v.len() {
        let vc = to_chars(v[k].as_str());
        if lex_less(sc.as_slice(), vc.as_slice()) {
            proof {
                assert forall|j: int| k < j < vv.len() implies lex_lt(s@, #[trigger] vv[j]) by {
                    lemma_lex_transitive(s@, vv[k as int], vv[j]);
                }
            }
        } else {
            proof {
                lemma_lex_total(vv[k as int], s@);
                assert(vv[k as int] == s@);
                assert(vv.contains(s@));
            }
            return;
        }
    }
    v.insert(k, s);
    proof {
        let nv = texts(v@);
        assert(nv =~= vv.insert(k as int, s@));
        assert forall|i: int, j: int| 0 <= i < j < nv.len() implies lex_lt(#[trigger] nv[i], #[trigger] nv[j]) by {
            if j < k {
                assert(nv[i] == vv[i] && nv[j] == vv[j]);
            } else if j == k {
                assert(nv[i] == vv[i]);
            } else if i < k {
                assert(nv[i] == vv[i] && nv[j] == vv[j - 1]);
                if j - 1 > k {
                    lemma_lex_transitive(s@, vv[k as int], vv[j - 1]);
                }
                lemma_lex_transitive(vv[i], s@, vv[j - 1]);
            } else if i == k {
                assert(nv[j] == vv[j - 1]);
                if j - 1 > k {
                    lemma_lex_transitive(s@, vv[k as int], vv[j - 1]);
                }
            } else {
                assert(nv[i] == vv[i - 1] && nv[j] == vv[j - 1]);
            }
        }
        assert forall|t: Seq<char>| #[trigger] nv.contains(t) <==> (vv.contains(t) || t == s@) by {
            if nv.contains(t) {
                let i = choose|i: int| 0 <= i < nv.len() && nv[i] == t;
                if i < k {
                    assert(vv[i] == t);
                } else if i > k {
                    assert(vv[i - 1] == t);
                }
            }
            if vv.contains(t) {
                let i = choose|i: int| 0 <= i < vv.len() && vv[i] == t;
                if i < k {
                    assert(nv[i] == t);
                } else {
                    assert(nv[i + 1] == t);
                }
            }
            if t == s@ {
                assert(nv[k as int] == t);
            }
        }
    }
}

/// The inventory that a channel manifest's target names give: the Unix
/// targets sorted and without repeats, the synthetic `*` left out, and the
/// well-known Windows targets.
pub fn platform_list(targets: &[String]) -> (r: Platforms)
    requires
        targets@.len() + 5 <= usize::MAX,
    ensures
        r.wf(),
        r.windows_view() == windows_targets(),
        strictly_sorted(r.unix_view()),
        forall|t: Seq<char>| #[trigger] r.unix_view().contains(t) <==> (texts(targets@).contains(t)
            && t != "*"@ && !windows_targets().contains(t)),
{
    let windows = windows_platforms();
    let mut unix: Vec<String> = Vec::new();
    let ghost tv = texts(targets@);
    let mut i: usize = 0;
    while i < targets.len()
        invariant
            i <= targets.len(),
            tv == texts(targets@),
            texts(windows@) == windows_targets(),
            strictly_sorted(texts(unix@)),
            unix@.len() <= i,
            forall|t: Seq<char>| #[trigger] texts(unix@).contains(t) <==> (tv.take(i as int).contains(t)
                && t != "*"@ && !windows_targets().contains(t)),
        decreases targets.len() - i,
    {
        let t = &targets[i];
        let star = str_eq(t.as_str(), "*");
        let win = strings_contain(windows.as_slice(), t.as_str());
        let ghost before = texts(unix@);
        if !star && !win {
            insert_sorted(&mut unix, t.clone());
        }
        proof {
            assert(tv.len() == targets@.len());
            assert(tv[i as int] == t@);
            let pre = tv.take(i as int);
            let post = tv.take(i + 1);
            assert(post =~= pre.push(t@));
            assert forall|x: Seq<char>| #[trigger] post.contains(x) <==> (pre.contains(x) || x == t@) by {
                if post.contains(x) {
                    let j = choose|j: int| 0 <= j < post.len() && post[j] == x;
                    if j < i {
                        assert(pre[j] == x);
                    }
                }
                if pre.contains(x) {
                    let j = choose|j: int| 0 <= j < pre.len() && pre[j] == x;
                    assert(post[j] == x);
                }
                if x == t@ {
                    assert(post[i as int] == x);
                }
            }
            assert forall|x: Seq<char>| #[trigger] texts(unix@).contains(x) <==> (post.contains(x)
                && x != "*"@ && !windows_targets().contains(x)) by {
                assert(post.contains(x) <==> (pre.contains(x) || x == t@));
                assert(before.contains(x) <==> (pre.contains(x) && x != "*"@ && !windows_targets().contains(x)));
            }
        }
        i = i + 1;
    }
    assert(tv.take(i as int) =~= tv);
    assert(texts(windows@).len() == 5);
    Platforms::from_parts(unix, windows)
}

/// The requested targets that `pool` holds, in request order.
pub open spec fn pick(req: Seq<Seq<char>>, pool: Seq<Seq<char>>) -> Seq<Seq<char>>
    decreases req.len(),
{
    if req.len() == 0 {
        Seq::<Seq<char>>::empty()
    } else {
        let p = pick(req.drop_last(), pool);
        if pool.contains(req.last()) {
            p.push(req.last())
        } else {
            p
        }
    }
}

/// The requested targets that `unix` holds and `windows` does not, in
/// request order.
pub open spec fn pick_unix(req: Seq<Seq<char>>, windows: Seq<Seq<char>>, unix: Seq<Seq<char>>) -> Seq<Seq<char>>
    decreases req.len(),
{
    if req.len() == 0 {
        Seq::<Seq<char>>::empty()
    } else {
        let p = pick_unix(req.drop_last(), windows, unix);
        if !windows.contains(req.last()) && unix.contains(req.last()) {
            p.push(req.last())
        } else {
            p
        }
    }
}

/// Why a platform selection failed.
#[derive(Debug, Clone, PartialEq, Eq)]
pub enum PlatformError {
    /// A requested target that the inventory does not hold.
    Unknown(String),
}

impl PlatformError {
    /// The message of the error: `Wrong platform: <target>`.
    pub fn message(&self) -> (r: String)
        ensures
            self matches PlatformError::Unknown(p) && r@ == "Wrong platform: "@ + p@,
    {
        match self {
            PlatformError::Unknown(p) => crate::text::concat("Wrong platform: ", p.as_str()),
        }
    }
}

/// The targets to mirror: every target of the upstream inventory `all` when
/// none is requested; else each requested one, put with the Windows or the
/// Unix targets as `all` has it, in request order. A requested target that
/// `all` does not hold is an error.
pub fn select_platforms(all: &Platforms, requested: &[String]) -> (r: Result<Platforms, PlatformError>)
    requires
        all.wf(),
    ensures
        requested@.len() == 0 ==> (r matches Ok(p) && p.wf() && p.unix_view() == all.unix_view()
            && p.windows_view() == all.windows_view()),
        requested@.len() > 0 ==> (r is Ok <==> forall|i: int| 0 <= i < requested@.len()
            ==> all.all().contains(#[trigger] texts(requested@)[i])),
        requested@.len() > 0 ==> (r matches Ok(p) ==> p.wf()
            && p.windows_view() == pick(texts(requested@), all.windows_view())
            && p.unix_view() == pick_unix(texts(requested@), all.windows_view(), all.unix_view())),
        r matches Err(PlatformError::Unknown(p)) ==> exists|j: int| 0 <= j < requested@.len()
            && #[trigger] texts(requested@)[j] == p@ && !all.all().contains(p@)
            && forall|i: int| 0 <= i < j ==> all.all().contains(#[trigger] texts(requested@)[i]),
{
    if requested.len() == 0 {
        let unix = clone_strings(all.unix());
        let windows = clone_strings(all.windows());
        return Ok(Platforms::from_parts(unix, windows));
    }
    let ghost req = texts(requested@);
    let mut unix: Vec<String> = Vec::new();
    let mut windows: Vec<String> = Vec::new();
    let mut i: usize = 0;
    assert(req.take(0) =~= Seq::<Seq<char>>::empty());
    while i < requested.len()
        invariant
            i <= requested.len(),
            req == texts(requested@),
            texts(windows@) == pick(req.take(i as int), all.windows_view()),
            texts(unix@) == pick_unix(req.take(i as int), all.windows_view(), all.unix_view()),
            windows@.len() + unix@.len() <= i,
            forall|j: int| 0 <= j < i ==> all.all().contains(#[trigger] req[j]),
        decreases requested.len() - i,
    {
        let t = &requested[i];
        let ghost pre = req.take(i as int);
        assert(req.take(i + 1).drop_last() =~= pre);
        assert(req.take(i + 1).last() == t@);
        let in_windows = strings_contain(all.windows().as_slice(), t.as_str());
        if in_windows {
            let ghost before = windows@;
            windows.push(t.clone());
            assert(texts(windows@) =~= texts(before).push(t@));
            proof {
                let k = choose|k: int| 0 <= k < all.windows_view().len() && all.windows_view()[k] == t@;
                assert(all.all()[all.unix_view().len() + k] == t@);
            }
        } else {
            let in_unix = strings_contain(all.unix().as_slice(), t.as_str());
            if in_unix {
                let ghost before = unix@;
                unix.push(t.clone());
                assert(texts(unix@) =~= texts(before).push(t@));
                proof {
                    let k = choose|k: int| 0 <= k < all.unix_view().len() && all.unix_view()[k] == t@;
                    assert(all.all()[k] == t@);
                }
            } else {
                proof {
                    assert(req[i as int] == t@);
                    assert(texts(requested@)[i as int] == t@);
                    if all.all().contains(t@) {
                        let k = choose|k: int| 0 <= k < all.all().len() && all.all()[k] == t@;
                        if k < all.unix_view().len() {
                            assert(all.unix_view()[k] == t@);
                        } else {
                            assert(all.windows_view()[k - all.unix_view().len()] == t@);
                        }
                    }
                }
                return Err(PlatformError::Unknown(t.clone()));
            }
        }
        i = i + 1;
    }
    assert(req.take(i as int) =~= req);
    Ok(Platforms::from_parts(unix, windows))
}

} // verus!
