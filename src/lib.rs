//! An offline Cargo registry mirror: the verified core of the registry index,
//! the publish and serve data plane, and the toolchain snapshot pipeline.
//!
//! - [`text`]: character-level helpers every other module builds on.
//! - [`layout`]: the sharded directory layout of crate files and index entries.
//! - [`entry`]: index entry records, the per-crate set of records, and the
//!   line-per-record entry file.
//! - [`checksum`]: SHA-256 checksums of `.crate` files in hex.
//! - [`publish`]: the publish request body, its checks, and what a publish writes.
//! - [`config`]: the index's `config.json` and what opening the index does to it.
//! - [`cgi`]: the environment and response head of the version-control CGI backend.
//! - [`route`]: the server's route table.
//! - [`errors`]: the registry's JSON error body.
//! - [`platforms`]: the platform inventory and the selection of platforms to mirror.
//! - [`channel`]: channel manifests, their download lists, and channel histories.
//! - [`download`]: the download engine's per-attempt decisions and batch outcome.
//! - [`pack`]: snapshot options and the decisions of a snapshot run.

pub mod cgi;
pub mod channel;
pub mod checksum;
pub mod config;
pub mod download;
pub mod entry;
pub mod errors;
pub mod layout;
pub mod pack;
pub mod platforms;
pub mod publish;
pub mod route;
pub mod text;
