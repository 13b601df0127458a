//! The index's `config.json`: its canonical form for the advertised server
//! address, and what opening the index does to an existing one.

use vstd::prelude::*;

use crate::entry::opt_view;
use crate::text::{concat, owned, push_str, str_eq};

verus! {

/// The contents of `config.json`.
#[derive(Debug, Clone, PartialEq, Eq)]
pub struct IndexConfig {
    /// The download URL template, holding `{crate}` and `{version}`.
    pub dl: String,
    /// The API base URL, if any.
    pub api: Option<String>,
}

/// What a `config.json` holds.
pub struct IndexConfigView {
    pub dl: Seq<char>,
    pub api: Option<Seq<char>>,
}

impl View for IndexConfig {
    type V = IndexConfigView;

    open spec fn view(&self) -> IndexConfigView {
        IndexConfigView { dl: self.dl@, api: opt_view(self.api) }
    }
}

/// `http://<addr>`.
pub open spec fn api_url(addr: Seq<char>) -> Seq<char> {
    seq!['h', 't', 't', 'p', ':', '/', '/'] + addr
}

/// `http://<addr>/api/v1/crates/{crate}/{version}/download`.
pub open spec fn dl_template(addr: Seq<char>) -> Seq<char> {
    api_url(addr) + "/api/v1/crates/{crate}/{version}/download"@
}

/// The canonical configuration for the advertised address `addr`.
pub open spec fn canonical(addr: Seq<char>) -> IndexConfigView {
    IndexConfigView { dl: dl_template(addr), api: Some(api_url(addr)) }
}

/// What opening the index does to `config.json`.
#[derive(Debug, Clone, PartialEq, Eq)]
pub enum ConfigAction {
    /// The file is up to date: nothing is written or committed.
    Keep,
    /// Write this configuration and commit it with this message.
    Write { config: IndexConfig, message: String },
}

/// The commit message when `config.json` is created.
pub open spec fn add_config_message() -> Seq<char> {
    "Add initial config.json"@
}

/// The commit message when `config.json` is rewritten.
pub open spec fn update_config_message() -> Seq<char> {
    "Update config.json"@
}

/// Opening the index with `current` as `config.json` (`None` when it is
/// missing): the configuration afterwards and the number of commits added.
pub open spec fn open_config(current: Option<IndexConfigView>, addr: Seq<char>) -> (IndexConfigView, nat) {
    match current {
        None => (canonical(addr), 1),
        Some(c) => if c == canonical(addr) {
            (c, 0)
        } else {
            (canonical(addr), 1)
        },
    }
}

/// The configuration and commit count that an action gives.
pub open spec fn action_outcome(current: Option<IndexConfigView>, a: ConfigAction) -> (Option<IndexConfigView>, nat) {
    match a {
        ConfigAction::Keep => (current, 0),
        ConfigAction::Write { config, .. } => (Some(config@), 1),
    }
}

/// The canonical configuration for the advertised address `addr`.
pub fn canonical_config(addr: &str) -> (r: IndexConfig)
    ensures
        r@ == canonical(addr@),
{
    let api = concat("http://", addr);
    let mut dl = owned(api.as_str());
    push_str(&mut dl, "/api/v1/crates/{crate}/{version}/download");
    proof {
        reveal_strlit("http://");
    }
    assert(api@ =~= api_url(addr@));
    IndexConfig { dl, api: Some(api) }
}

/// What opening the index does to `config.json`, given what it holds now
/// (`None` when the file is missing): create it, rewrite it when it is not
/// the canonical one for `addr`, or keep it.
pub fn config_action(current: Option<&IndexConfig>, addr: &str) -> (r: ConfigAction)
    ensures
        ({
            let cur = match current {
                Some(c) => Some(c@),
                None => None,
            };
            let out = action_outcome(cur, r);
            out.0 == Some(open_config(cur, addr@).0) && out.1 == open_config(cur, addr@).1
        }),
        r matches ConfigAction::Write { message, .. } ==> message@ == (if current is None {
            add_config_message()
        } else {
            update_config_message()
        }),
{
    let fresh = canonical_config(addr);
    match current {
        None => {
            let message = owned("Add initial config.json");
            ConfigAction::Write { config: fresh, message }
        },
        Some(c) => {
            let api_same = match (&c.api, &fresh.api) {
                (Some(a), Some(b)) => str_eq(a.as_str(), b.as_str()),
                _ => false,
            };
            if str_eq(c.dl.as_str(), fresh.dl.as_str()) && api_same {
                assert(c@ == canonical(addr@));
                ConfigAction::Keep
            } else {
                let message = owned("Update config.json");
                ConfigAction::Write { config: fresh, message }
            }
        },
    }
}

/// A `config.json` that is not the canonical one for `addr` is rewritten to
/// exactly the canonical form, with exactly one commit.
pub proof fn lemma_stale_config_rewritten(current: IndexConfigView, addr: Seq<char>)
    requires
        current != canonical(addr),
    ensures
        open_config(Some(current), addr) == (canonical(addr), 1nat),
{
}

/// Opening the index twice with the same address: the second opening finds
/// the canonical configuration and adds no commit.
pub proof fn lemma_reopen_adds_no_commit(current: Option<IndexConfigView>, addr: Seq<char>)
    ensures
        open_config(Some(open_config(current, addr).0), addr) == (canonical(addr), 0nat),
        open_config(current, addr).0 == canonical(addr),
{
}

/// The message of the empty commit that a new index starts with.
pub open spec fn initial_commit_message() -> Seq<char> {
    "Create new repository for cargo registry"@
}

/// The empty commit that opening an index makes when it has no commit yet.
pub fn initial_commit(is_empty: bool) -> (r: Option<String>)
    ensures
        r is Some <==> is_empty,
        r matches Some(m) ==> m@ == initial_commit_message(),
{
    if is_empty {
        Some(owned("Create new repository for cargo registry"))
    } else {
        None
    }
}

/// Opening an index that has a commit or not and holds `config` as
/// `config.json`: afterwards it has a commit, this configuration, and this
/// many commits more.
pub open spec fn open_index(has_commit: bool, config: Option<IndexConfigView>, addr: Seq<char>) -> (bool, IndexConfigView, nat) {
    let initial: nat = if has_commit {
        0
    } else {
        1
    };
    (true, open_config(config, addr).0, initial + open_config(config, addr).1)
}

/// Opening an index twice in succession with the same address: both times
/// it ends with a head commit and the canonical configuration, and the
/// second opening adds no commit.
pub proof fn lemma_open_twice(has_commit: bool, config: Option<IndexConfigView>, addr: Seq<char>)
    ensures
        ({
            let first = open_index(has_commit, config, addr);
            let second = open_index(first.0, Some(first.1), addr);
            &&& first.0 && first.1 == canonical(addr)
            &&& second == (true, canonical(addr), 0nat)
        }),
{
    lemma_reopen_adds_no_commit(config, addr);
}

} // verus!
