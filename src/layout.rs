//! Where a crate's files live: the sharded directory layout that Cargo uses
//! for its index, applied both to index entry files and to `.crate` files.

use vstd::prelude::*;

use crate::text::{
    ascii_lowercase, concat, from_chars, join, lower_ascii_seq, owned, push_str, to_chars,
    join_with,
};

verus! {

/// The shard directories of a lowercased crate name: `1`, `2`, `3/<c>` or
/// `<ab>/<cd>` by its length.
pub open spec fn shard_of(lname: Seq<char>) -> Seq<Seq<char>> {
    if lname.len() == 1 {
        seq![seq!['1']]
    } else if lname.len() == 2 {
        seq![seq!['2']]
    } else if lname.len() == 3 {
        seq![seq!['3'], lname.take(1)]
    } else {
        seq![lname.take(2), lname.subrange(2, 4)]
    }
}

/// The shard directories of a crate name.
pub open spec fn crate_shard(name: Seq<char>) -> Seq<Seq<char>> {
    shard_of(lower_ascii_seq(name))
}

/// `<name>-<version>.crate`.
pub open spec fn crate_file_name_of(name: Seq<char>, version: Seq<char>) -> Seq<char> {
    name + seq!['-'] + version + seq!['.', 'c', 'r', 'a', 't', 'e']
}

/// Path segments of a `.crate` file below the crates directory.
pub open spec fn crate_file_segments(name: Seq<char>, version: Seq<char>) -> Seq<Seq<char>> {
    crate_shard(name).push(crate_file_name_of(name, version))
}

/// Path segments of a crate's entry file below the index root.
pub open spec fn index_entry_segments(name: Seq<char>) -> Seq<Seq<char>> {
    crate_shard(name).push(lower_ascii_seq(name))
}

/// The path that a download of a crate version is redirected to.
pub open spec fn download_location(name: Seq<char>, version: Seq<char>) -> Seq<char> {
    seq!['/', 'c', 'r', 'a', 't', 'e', 's', '/'] + join_with(crate_file_segments(name, version), '/')
}

/// The shard directories of `name`.
pub fn crate_path(name: &str) -> (r: Vec<String>)
    requires
        name@.len() > 0,
    ensures
        r.deep_view() == crate_shard(name@),
{
    let lower = ascii_lowercase(name);
    let cs = to_chars(lower.as_str());
    let ghost l = lower_ascii_seq(name@);
    assert(cs@ == l);
    assert(l.len() == name@.len());
    let mut r: Vec<String> = Vec::new();
    if cs.len() == 1 {
        let one = owned("1");
        proof {
            reveal_strlit("1");
        }
        r.push(one);
    } else if cs.len() == 2 {
        let two = owned("2");
        proof {
            reveal_strlit("2");
        }
        r.push(two);
    } else if cs.len() == 3 {
        let three = owned("3");
        proof {
            reveal_strlit("3");
        }
        r.push(three);
        let first = from_chars(&cs.as_slice()[0..1]);
        assert(first@ =~= l.take(1));
        r.push(first);
    } else {
        let a = from_chars(&cs.as_slice()[0..2]);
        let b = from_chars(&cs.as_slice()[2..4]);
        assert(a@ =~= l.take(2));
        assert(b@ =~= l.subrange(2, 4));
        r.push(a);
        r.push(b);
    }
    assert(r.deep_view() =~~= crate_shard(name@));
    r
}

/// The file name of a crate version's `.crate` file.
pub fn crate_file_name(name: &str, version: &str) -> (r: String)
    ensures
        r@ == crate_file_name_of(name@, version@),
{
    let mut r = concat(name, "-");
    push_str(&mut r, version);
    push_str(&mut r, ".crate");
    proof {
        reveal_strlit("-");
        reveal_strlit(".crate");
    }
    assert(r@ =~= crate_file_name_of(name@, version@));
    r
}

/// Path segments of a crate version's `.crate` file below the crates
/// directory.
pub fn crate_file_path(name: &str, version: &str) -> (r: Vec<String>)
    requires
        name@.len() > 0,
    ensures
        r.deep_view() == crate_file_segments(name@, version@),
{
    let mut r = crate_path(name);
    let ghost before = r.deep_view();
    let file = crate_file_name(name, version);
    r.push(file);
    assert(r.deep_view() =~= before.push(file@));
    r
}

/// Path segments of a crate's entry file below the index root.
pub fn index_entry_path(name: &str) -> (r: Vec<String>)
    requires
        name@.len() > 0,
    ensures
        r.deep_view() == index_entry_segments(name@),
{
    let mut r = crate_path(name);
    let ghost before = r.deep_view();
    let file = ascii_lowercase(name);
    r.push(file);
    assert(r.deep_view() =~= before.push(file@));
    r
}

/// The absolute path that a download request for a crate version is
/// redirected to.
pub fn download_redirect(name: &str, version: &str) -> (r: String)
    requires
        name@.len() > 0,
    ensures
        r@ == download_location(name@, version@),
{
    let segments = crate_file_path(name, version);
    assert(segments@.map_values(|p: String| p@) =~= segments.deep_view());
    let tail = join(segments.as_slice(), '/');
    let r = concat("/crates/", tail.as_str());
    proof {
        reveal_strlit("/crates/");
    }
    assert(r@ =~= download_location(name@, version@));
    r
}

} // verus!
