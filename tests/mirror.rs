use crates_registry::channel::{
    channel_platforms, channel_source, channel_well_formed, download_list, history_channel,
    history_file_name, history_platforms, platform_of_history_path, relative_path, Channel,
    ChannelHistoryFile, Pkg, Target, TargetUrls,
};
use crates_registry::download::{
    after_attempt, backoff_delay, batch_outcome, part_path, rustup_init_files, rustup_release_url,
    sha256_file_hash, target_download, Attempt, DownloadError, DownloadStep, SyncError,
};
use crates_registry::pack::{channel_failure_ends_pack, PackArgs};
use crates_registry::platforms::{platform_list, select_platforms, windows_platforms, PlatformError, Platforms};

fn strings(v: &[&str]) -> Vec<String> {
    v.iter().map(|s| s.to_string()).collect()
}

fn target(xz_url: Option<&str>, hash: &str) -> Target {
    Target {
        available: xz_url.is_some(),
        target_urls: xz_url.map(|u| TargetUrls {
            url: u.replace(".tar.xz", ".tar.gz"),
            hash: "gz".to_string(),
            xz_url: u.to_string(),
            xz_hash: hash.to_string(),
        }),
    }
}

fn sample_channel() -> Channel {
    let base = "https://static.rust-lang.org/dist/2023-02-09";
    Channel {
        manifest_version: "2".to_string(),
        date: "2023-02-09".to_string(),
        pkg: vec![
            (
                "cargo".to_string(),
                Pkg {
                    version: "0.68.0".to_string(),
                    target: vec![
                        (
                            "x86_64-unknown-linux-gnu".to_string(),
                            target(Some(&format!("{base}/cargo-1.67.1-x86_64-unknown-linux-gnu.tar.xz")), "h1"),
                        ),
                        (
                            "aarch64-apple-darwin".to_string(),
                            target(Some(&format!("{base}/cargo-1.67.1-aarch64-apple-darwin.tar.xz")), "h2"),
                        ),
                        ("x86_64-pc-windows-msvc".to_string(), target(None, "")),
                    ],
                },
            ),
            (
                "rust-src".to_string(),
                Pkg {
                    version: "1.67.1".to_string(),
                    target: vec![("*".to_string(), target(Some(&format!("{base}/rust-src-1.67.1.tar.xz")), "h3"))],
                },
            ),
            (
                "rustc-dev".to_string(),
                Pkg {
                    version: "1.67.1".to_string(),
                    target: vec![(
                        "x86_64-unknown-linux-gnu".to_string(),
                        target(Some(&format!("{base}/rustc-dev-1.67.1-x86_64-unknown-linux-gnu.tar.xz")), "h4"),
                    )],
                },
            ),
        ],
    }
}

#[test]
fn platform_inventory_from_manifest_targets() {
    let targets = strings(&[
        "x86_64-unknown-linux-gnu",
        "*",
        "aarch64-apple-darwin",
        "x86_64-pc-windows-msvc",
        "x86_64-unknown-linux-gnu",
        "aarch64-unknown-linux-gnu",
    ]);
    let p = platform_list(&targets);
    assert_eq!(
        p.unix(),
        &strings(&["aarch64-apple-darwin", "aarch64-unknown-linux-gnu", "x86_64-unknown-linux-gnu"])
    );
    assert_eq!(p.windows(), &windows_platforms());
    assert_eq!(p.windows().len(), 5);
    assert_eq!(p.len(), 8);
    assert!(p.contains(&"i586-pc-windows-msvc".to_string()));
    assert!(!p.contains(&"*".to_string()));
    let mut it = p.into_iter();
    assert_eq!(it.size_hint(), (8, Some(8)));
    assert_eq!(it.next().map(|s| s.as_str()), Some("aarch64-apple-darwin"));
    let rest: Vec<&String> = std::iter::from_fn(|| it.next()).collect();
    assert_eq!(rest.len(), 7);
    assert_eq!(rest[2].as_str(), "i586-pc-windows-msvc");
    assert!(it.next().is_none());
    assert_eq!(platform_list(&[]).len(), 5);
}

#[test]
fn platform_selection() {
    let all = platform_list(&strings(&["x86_64-unknown-linux-gnu", "aarch64-apple-darwin"]));
    let chosen = select_platforms(&all, &strings(&["x86_64-pc-windows-msvc", "x86_64-unknown-linux-gnu"])).unwrap();
    assert_eq!(chosen.unix(), &strings(&["x86_64-unknown-linux-gnu"]));
    assert_eq!(chosen.windows(), &strings(&["x86_64-pc-windows-msvc"]));
    let everything = select_platforms(&all, &[]).unwrap();
    assert_eq!(everything, all);
    let err = select_platforms(&all, &strings(&["x86_64-unknown-linux-gnu", "sparc-sun-solaris"])).unwrap_err();
    assert_eq!(err, PlatformError::Unknown("sparc-sun-solaris".to_string()));
    assert_eq!(err.message(), "Wrong platform: sparc-sun-solaris");
    let first = select_platforms(&all, &strings(&["mips-x", "x86_64-unknown-linux-gnu", "sparc-y"])).unwrap_err();
    assert_eq!(first, PlatformError::Unknown("mips-x".to_string()));
    let empty = Platforms::new();
    assert_eq!(empty.len(), 0);
}

#[test]
fn download_list_of_manifest() {
    let channel = sample_channel();
    assert!(channel_well_formed(&channel));
    let plats = select_platforms(
        &platform_list(&strings(&["x86_64-unknown-linux-gnu", "aarch64-apple-darwin"])),
        &strings(&["x86_64-unknown-linux-gnu"]),
    )
    .unwrap();
    let (date, files) = download_list(&channel, &plats);
    assert_eq!(date, "2023-02-09");
    assert_eq!(
        files,
        vec![
            (
                "dist/2023-02-09/cargo-1.67.1-x86_64-unknown-linux-gnu.tar.xz".to_string(),
                "h1".to_string()
            ),
            ("dist/2023-02-09/rust-src-1.67.1.tar.xz".to_string(), "h3".to_string()),
        ]
    );
    assert_eq!(relative_path("https://host/a/b"), "a/b");
    assert_eq!(relative_path("https://host"), "");
    let mut bad = sample_channel();
    bad.pkg[0].1.target[0].1 = target(Some("no-host"), "h");
    assert!(!channel_well_formed(&bad));
}

#[test]
fn channel_sources() {
    let named = channel_source("https://static.rust-lang.org", "1.67.1");
    assert_eq!(named.url, "https://static.rust-lang.org/dist/channel-rust-1.67.1.toml");
    assert_eq!(named.path, "dist/channel-rust-1.67.1.toml");
    assert!(named.extra_files.is_empty());
    let dated = channel_source("https://static.rust-lang.org", "nightly-2024-01-15");
    assert_eq!(dated.url, "https://static.rust-lang.org/dist/2024-01-15/channel-rust-nightly.toml");
    assert_eq!(dated.path, "dist/2024-01-15/channel-rust-nightly.toml");
    assert_eq!(
        dated.extra_files,
        strings(&[
            "dist/2024-01-15/channel-rust-nightly.toml",
            "dist/2024-01-15/channel-rust-nightly.toml.sha256"
        ])
    );
    assert_eq!(history_file_name("nightly-2024-01-15"), "mirror-nightly-2024-01-15-history.toml");
    assert_eq!(history_file_name("1.67.1"), "mirror-1.67.1-history.toml");
}

#[test]
fn history_records_one_snapshot_per_date() {
    let mut h = ChannelHistoryFile::new();
    let files = vec![("dist/a.tar.xz".to_string(), "h".to_string())];
    h.record("2023-02-09", &files, &strings(&["dist/channel.toml"]));
    assert_eq!(h.versions.len(), 1);
    assert_eq!(h.versions[0].1, strings(&["dist/a.tar.xz", "dist/channel.toml"]));
    h.record("2023-02-09", &[], &[]);
    assert_eq!(h.versions.len(), 1);
    assert!(h.versions[0].1.is_empty());
    h.record("2023-03-01", &files, &[]);
    assert_eq!(h.versions.len(), 2);
}

#[test]
fn history_channels_and_platforms() {
    let nightly = history_channel("mirror-nightly-2024-01-15-history.toml").unwrap();
    assert_eq!(nightly.name, "nightly");
    assert_eq!(nightly.id, "nightly-2024-01-15");
    let stable = history_channel("mirror-stable-history.toml").unwrap();
    assert_eq!(stable.name, "stable");
    assert_eq!(stable.id, "stable");
    let latest_nightly = history_channel("mirror-nightly-history.toml").unwrap();
    assert_eq!(latest_nightly.name, "nightly");
    assert_eq!(latest_nightly.id, "nightly");
    let other = history_channel("mirror-beta-nightly-history.toml").unwrap();
    assert_eq!(other.name, "beta-nightly");
    assert_eq!(other.id, "beta-nightly");
    assert!(history_channel("config.toml").is_none());
    assert_eq!(
        platform_of_history_path("dist/2024-01-15/cargo-nightly-x86_64-unknown-linux-gnu.tar.xz", "nightly"),
        Some("x86_64-unknown-linux-gnu.".to_string())
    );
    assert_eq!(platform_of_history_path("dist/2024-01-15/rust-src-nightly.tar.xz", "nightly"), None);
    assert_eq!(platform_of_history_path("dist/cargo-nightly-x.tar.gz", "nightly"), None);
    let h = ChannelHistoryFile {
        versions: vec![(
            "2024-01-15".to_string(),
            strings(&[
                "dist/2024-01-15/cargo-nightly-x86_64-unknown-linux-gnu.tar.xz",
                "dist/2024-01-15/rust-src-nightly.tar.xz",
                "dist/2024-01-15/cargo-nightly-aarch64-apple-darwin.tar.xz",
            ]),
        )],
    };
    assert_eq!(
        history_platforms(&h, "nightly"),
        strings(&["x86_64-unknown-linux-gnu.", "aarch64-apple-darwin."])
    );
    let (id, plats) = channel_platforms("mirror-nightly-2024-01-15-history.toml", &h).unwrap();
    assert_eq!(id, "nightly-2024-01-15");
    assert_eq!(plats.len(), 2);
}

#[test]
fn download_attempts() {
    assert!(matches!(
        after_attempt(0, 5, None, Attempt::NotFound),
        DownloadStep::Finish(Err(DownloadError::NotFound))
    ));
    assert_eq!(
        after_attempt(0, 5, None, Attempt::Transport { message: "reset".to_string() }),
        DownloadStep::Retry { next_attempt: 1, delay_ms: 250 }
    );
    assert_eq!(
        after_attempt(5, 5, None, Attempt::Transport { message: "reset".to_string() }),
        DownloadStep::Finish(Err(DownloadError::Transport { message: "reset".to_string() }))
    );
    assert_eq!(
        after_attempt(2, 5, Some("abc"), Attempt::Fetched { sha256: "abc".to_string() }),
        DownloadStep::Finish(Ok(()))
    );
    assert_eq!(
        after_attempt(0, 5, Some("abc"), Attempt::Fetched { sha256: "abd".to_string() }),
        DownloadStep::Finish(Err(DownloadError::ChecksumMismatch {
            expected: "abc".to_string(),
            actual: "abd".to_string()
        }))
    );
    assert_eq!(
        after_attempt(0, 0, None, Attempt::Fetched { sha256: "x".to_string() }),
        DownloadStep::Finish(Ok(()))
    );
}

#[test]
fn transient_failures_then_success() {
    let retries = 5;
    let mut attempt = 0;
    let outcomes = vec![
        Attempt::Transport { message: "a".to_string() },
        Attempt::Transport { message: "b".to_string() },
        Attempt::Transport { message: "c".to_string() },
        Attempt::Fetched { sha256: "ok".to_string() },
    ];
    let mut delays = Vec::new();
    let mut result = None;
    for o in outcomes {
        match after_attempt(attempt, retries, Some("ok"), o) {
            DownloadStep::Retry { next_attempt, delay_ms } => {
                attempt = next_attempt;
                delays.push(delay_ms);
            }
            DownloadStep::Finish(r) => {
                result = Some(r);
                break;
            }
        }
    }
    assert_eq!(result, Some(Ok(())));
    assert_eq!(attempt, 3);
    assert_eq!(delays, vec![250, 500, 1000]);
}

#[test]
fn backoff_is_capped() {
    assert_eq!(backoff_delay(0), 250);
    assert_eq!(backoff_delay(4), 4000);
    assert_eq!(backoff_delay(5), 8000);
    assert_eq!(backoff_delay(60), 8000);
}

#[test]
fn batch_failures_are_counted() {
    assert_eq!(batch_outcome(&[]), Ok(()));
    assert_eq!(batch_outcome(&[Ok(()), Err(DownloadError::NotFound)]), Ok(()));
    assert_eq!(
        batch_outcome(&[
            Err(DownloadError::Transport { message: "x".to_string() }),
            Err(DownloadError::NotFound),
            Err(DownloadError::ChecksumMismatch { expected: "a".to_string(), actual: "b".to_string() }),
            Ok(()),
        ]),
        Err(SyncError::FailedDownloads { count: 2 })
    );
}

#[test]
fn mirror_file_locations() {
    assert_eq!(part_path("dist/a.toml"), "dist/a.toml.part");
    assert_eq!(sha256_file_hash("abc123  channel-rust-stable.toml\n"), "abc123");
    assert_eq!(sha256_file_hash("abc123\n"), "abc123");
    assert_eq!(sha256_file_hash(""), "");
    let (url, segments) = target_download("https://static.rust-lang.org", "dist/2023-02-09/x.tar.xz");
    assert_eq!(url, "https://static.rust-lang.org/dist/2023-02-09/x.tar.xz");
    assert_eq!(segments, strings(&["dist", "2023-02-09", "x.tar.xz"]));
    let init = rustup_init_files("https://s", "x86_64-pc-windows-msvc", true, "1.26.0");
    assert_eq!(init.url, "https://s/rustup/dist/x86_64-pc-windows-msvc/rustup-init.exe");
    assert_eq!(
        init.archive_path,
        strings(&["rustup", "archive", "1.26.0", "x86_64-pc-windows-msvc", "rustup-init.exe"])
    );
    assert_eq!(init.dist_path, strings(&["rustup", "dist", "x86_64-pc-windows-msvc", "rustup-init.exe"]));
    let unix = rustup_init_files("https://s", "x86_64-unknown-linux-gnu", false, "1.26.0");
    assert_eq!(unix.dist_path, strings(&["rustup", "dist", "x86_64-unknown-linux-gnu", "rustup-init"]));
    assert_eq!(rustup_release_url("https://s"), "https://s/rustup/release-stable.toml");
}

#[test]
fn pack_channels_and_fatal_failures() {
    let mut args = PackArgs {
        pack_file: "out.tar".to_string(),
        rust_versions: Vec::new(),
        platforms: Vec::new(),
        threads: 16,
        source: "https://static.rust-lang.org".to_string(),
        retries: 5,
    };
    assert_eq!(args.channels(), strings(&["stable", "nightly"]));
    args.rust_versions = strings(&["1.67.1", "nightly-2024-01-15"]);
    assert_eq!(args.channels(), strings(&["1.67.1", "nightly-2024-01-15"]));
    let missing = SyncError::Download(DownloadError::NotFound);
    assert!(channel_failure_ends_pack(true, &missing));
    assert!(!channel_failure_ends_pack(false, &missing));
    assert!(!channel_failure_ends_pack(true, &SyncError::FailedDownloads { count: 1 }));
}

#[test]
fn versions_of_default_snapshot_histories() {
    let h = ChannelHistoryFile {
        versions: vec![(
            "2024-01-15".to_string(),
            strings(&["dist/2024-01-15/cargo-nightly-x86_64-unknown-linux-gnu.tar.xz"]),
        )],
    };
    let (id, plats) = channel_platforms("mirror-nightly-history.toml", &h).unwrap();
    assert_eq!(id, "nightly");
    assert_eq!(plats, strings(&["x86_64-unknown-linux-gnu."]));
    let (id, plats) = channel_platforms("mirror-stable-history.toml", &h).unwrap();
    assert_eq!(id, "stable");
    assert!(plats.is_empty());
    assert!(channel_platforms("config.toml", &h).is_none());
}
