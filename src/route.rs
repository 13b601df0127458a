//! The server's route table: which handler a request goes to, by its method
//! and path.

use vstd::prelude::*;

use crate::text::{texts, has_prefix, join, join_with, split, split_on, str_eq, strip_prefix};

verus! {

/// The handler that a request goes to.
#[derive(Debug, Clone, PartialEq, Eq)]
pub enum Route {
    /// The version-control bridge, with the path below `/git/index/`.
    Git { tail: String },
    /// A stored `.crate` file, by its path below the crates directory.
    CrateFile { path: Vec<String> },
    /// A download of a crate version: redirected to its `.crate` file.
    Download { name: String, version: String },
    /// A crate publication.
    Publish,
    /// A file of the toolchain tree, by its path below `dist/`.
    Dist { path: Vec<String> },
    /// A `rustup-init` file, by its path below `rustup/`.
    Rustup { path: Vec<String> },
    /// The list of mirrored platforms.
    AvailablePlatforms,
    /// The mirrored channels with their platforms.
    Versions,
    /// An archive to unpack into the registry root.
    LoadPackFile,
    /// The web UI's index page.
    UiIndex,
    /// A file of the web UI, by its path.
    UiAsset { path: String },
    /// No handler.
    NotFound,
}

/// The handler that a request goes to, as far as the decision goes.
pub enum RouteView {
    Git(Seq<char>),
    CrateFile(Seq<Seq<char>>),
    Download(Seq<char>, Seq<char>),
    Publish,
    Dist(Seq<Seq<char>>),
    Rustup(Seq<Seq<char>>),
    AvailablePlatforms,
    Versions,
    LoadPackFile,
    UiIndex,
    UiAsset(Seq<char>),
    NotFound,
}

impl View for Route {
    type V = RouteView;

    open spec fn view(&self) -> RouteView {
        match self {
            Route::Git { tail } => RouteView::Git(tail@),
            Route::CrateFile { path } => RouteView::CrateFile(texts(path@)),
            Route::Download { name, version } => RouteView::Download(name@, version@),
            Route::Publish => RouteView::Publish,
            Route::Dist { path } => RouteView::Dist(texts(path@)),
            Route::Rustup { path } => RouteView::Rustup(texts(path@)),
            Route::AvailablePlatforms => RouteView::AvailablePlatforms,
            Route::Versions => RouteView::Versions,
            Route::LoadPackFile => RouteView::LoadPackFile,
            Route::UiIndex => RouteView::UiIndex,
            Route::UiAsset { path } => RouteView::UiAsset(path@),
            Route::NotFound => RouteView::NotFound,
        }
    }
}

/// The route of a request with method `m` and path segments `s` (the path
/// without its leading `/`, cut at each `/`).
pub open spec fn route_of_segments(m: Seq<char>, s: Seq<Seq<char>>) -> RouteView {
    let get = m == "GET"@;
    let put = m == "PUT"@;
    if s.len() >= 2 && s[0] == "git"@ && s[1] == "index"@ {
        RouteView::Git(join_with(s.skip(2), '/'))
    } else if get && s.len() >= 2 && s[0] == "crates"@ {
        RouteView::CrateFile(s.skip(1))
    } else if get && s.len() == 6 && s[0] == "api"@ && s[1] == "v1"@ && s[2] == "crates"@ && s[5] == "download"@
        && s[3].len() > 0 && s[4].len() > 0 {
        RouteView::Download(s[3], s[4])
    } else if put && s.len() == 4 && s[0] == "api"@ && s[1] == "v1"@ && s[2] == "crates"@ && s[3] == "new"@ {
        RouteView::Publish
    } else if get && s.len() >= 2 && s[0] == "dist"@ {
        RouteView::Dist(s.skip(1))
    } else if get && s.len() >= 2 && s[0] == "rustup"@ {
        RouteView::Rustup(s.skip(1))
    } else if get && s.len() == 2 && s[0] == "api"@ && s[1] == "available-platforms"@ {
        RouteView::AvailablePlatforms
    } else if get && s.len() == 2 && s[0] == "api"@ && s[1] == "versions"@ {
        RouteView::Versions
    } else if put && s.len() == 2 && s[0] == "api"@ && s[1] == "load-pack-file"@ {
        RouteView::LoadPackFile
    } else if get && s.len() == 1 && s[0].len() == 0 {
        RouteView::UiIndex
    } else if get {
        RouteView::UiAsset(join_with(s, '/'))
    } else {
        RouteView::NotFound
    }
}

/// The route of a request with method `m` and path `p`; a path that does not
/// begin with `/` has none.
pub open spec fn route_of(m: Seq<char>, p: Seq<char>) -> RouteView {
    if has_prefix(p, seq!['/']) {
        route_of_segments(m, split_on(p.skip(1), '/'))
    } else {
        RouteView::NotFound
    }
}

/// Whether segment `i` of `s` exists and equals `lit`.
fn seg_is(s: &Vec<String>, i: usize, lit: &str) -> (r: bool)
    ensures
        r == (i < s.deep_view().len() && s.deep_view()[i as int] == lit@),
{
    if i < s.len() {
        str_eq(s[i].as_str(), lit)
    } else {
        false
    }
}

/// The segments of `s` from position `from` on.
fn segments_from(s: &Vec<String>, from: usize) -> (r: Vec<String>)
    requires
        from <= s.len(),
    ensures
        texts(r@) == s.deep_view().skip(from as int),
{
    let mut r: Vec<String> = Vec::new();
    let mut i: usize = from;
    while i < s.len()
        invariant
            from <= i <= s.len(),
            texts(r@) == s.deep_view().subrange(from as int, i as int),
        decreases s.len() - i,
    {
        let ghost before = r@;
        r.push(s[i].clone());
        assert(texts(r@) =~= texts(before).push(s@[i as int]@));
        assert(s.deep_view().subrange(from as int, i + 1) =~= s.deep_view().subrange(from as int, i as int).push(
            s.deep_view()[i as int],
        ));
        i = i + 1;
    }
    assert(s.deep_view().subrange(from as int, i as int) =~= s.deep_view().skip(from as int));
    r
}

/// The handler that a request with method `method` and path `path` goes to.
pub fn route(method: &str, path: &str) -> (r: Route)
    ensures
        r@ == route_of(method@, path@),
{
    let rest = match strip_prefix(path, "/") {
        Some(rest) => rest,
        None => {
            proof {
                reveal_strlit("/");
                assert("/"@ =~= seq!['/']);
            }
            return Route::NotFound;
        },
    };
    proof {
        reveal_strlit("/");
        assert("/"@ =~= seq!['/']);
    }
    let s = split(rest.as_str(), '/');
    let ghost sv = s.deep_view();
    assert(sv == split_on(path@.skip(1), '/'));
    let get = str_eq(method, "GET");
    let put = str_eq(method, "PUT");
    if seg_is(&s, 0, "git") && seg_is(&s, 1, "index") {
        let tail_parts = segments_from(&s, 2);
        return Route::Git { tail: join(tail_parts.as_slice(), '/') };
    }
    if get && s.len() >= 2 && seg_is(&s, 0, "crates") {
        return Route::CrateFile { path: segments_from(&s, 1) };
    }
    if get && s.len() == 6 && seg_is(&s, 0, "api") && seg_is(&s, 1, "v1") && seg_is(&s, 2, "crates")
        && seg_is(&s, 5, "download") && !s[3].as_str().is_empty() && !s[4].as_str().is_empty() {
        return Route::Download { name: s[3].clone(), version: s[4].clone() };
    }
    if put && s.len() == 4 && seg_is(&s, 0, "api") && seg_is(&s, 1, "v1") && seg_is(&s, 2, "crates")
        && seg_is(&s, 3, "new") {
        return Route::Publish;
    }
    if get && s.len() >= 2 && seg_is(&s, 0, "dist") {
        return Route::Dist { path: segments_from(&s, 1) };
    }
    if get && s.len() >= 2 && seg_is(&s, 0, "rustup") {
        return Route::Rustup { path: segments_from(&s, 1) };
    }
    if get && seg_is(&s, 0, "api") && seg_is(&s, 1, "available-platforms") && s.len() == 2 {
        return Route::AvailablePlatforms;
    }
    if get && seg_is(&s, 0, "api") && seg_is(&s, 1, "versions") && s.len() == 2 {
        return Route::Versions;
    }
    if put && seg_is(&s, 0, "api") && seg_is(&s, 1, "load-pack-file") && s.len() == 2 {
        return Route::LoadPackFile;
    }
    if get && s.len() == 1 && s[0].as_str().is_empty() {
        return Route::UiIndex;
    }
    if get {
        let all = segments_from(&s, 0);
        assert(sv.skip(0) =~= sv);
        return Route::UiAsset { path: join(all.as_slice(), '/') };
    }
    Route::NotFound
}

/// A path segment that names a child: not empty, not `.` and not `..`.
pub open spec fn plain_segment(s: Seq<char>) -> bool {
    s.len() > 0 && s != "."@ && s != ".."@
}

/// Whether every segment of a path names a child, so that the path stays
/// below the directory it is taken from.
pub fn plain_segments(path: &[String]) -> (r: bool)
    ensures
        r == forall|i: int| 0 <= i < path@.len() ==> plain_segment(#[trigger] path@[i]@),
{
    let mut i: usize = 0;
    while i < path.len()
        invariant
            i <= path.len(),
            forall|j: int| 0 <= j < i ==> plain_segment(#[trigger] path@[j]@),
        decreases path.len() - i,
    {
        let s = path[i].as_str();
        if s.is_empty() || str_eq(s, ".") || str_eq(s, "..") {
            assert(!plain_segment(path@[i as int]@));
            return false;
        }
        i = i + 1;
    }
    true
}

} // verus!
