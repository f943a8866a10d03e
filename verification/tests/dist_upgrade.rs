use apt_fetcher::dist::sources::SourceEntry;
use apt_fetcher::dist::update::DistUpdateError;
use apt_fetcher::dist::upgrade::{
    head_all_release_files, head_release_files, partition_results, DistUpgradeError,
    DistUpgradeStep, UpgradeRequest, Upgrader,
};
use apt_fetcher::keyring::AptKeyring;
use apt_fetcher::text::replace;
use std::sync::Arc;

fn entry(url: &str, suite: &str) -> SourceEntry {
    SourceEntry {
        enabled: true,
        source: false,
        options: vec!["arch=amd64".to_string()],
        url: url.to_string(),
        suite: suite.to_string(),
        components: vec!["main".to_string()],
    }
}

fn list() -> Vec<SourceEntry> {
    vec![
        entry("http://a", "bionic"),
        entry("https://b", "bionic-updates"),
        entry("file:/c", "bionic"),
        entry("http://d", "xenial"),
    ]
}

fn unreachable_url() -> reqwest::Error {
    reqwest::Client::new().get("no url").build().err().unwrap()
}

fn upgrader() -> Upgrader {
    let request = UpgradeRequest::new(list());
    request.send("bionic".to_string(), "cosmic".to_string(), vec![Ok(()), Ok(())]).ok().unwrap()
}

fn io_error() -> std::io::Error {
    std::io::Error::new(std::io::ErrorKind::Other, "failed")
}

#[test]
fn required_files_are_asked_for() {
    let expected = vec!["http://a/InRelease", "http://a/Release", "http://a/Release.gpg"];
    assert_eq!(head_release_files("http://a".to_string()), expected);
    assert_eq!(head_release_files("http://a/".to_string()), expected);
}

#[test]
fn suites_are_moved() {
    let entries = head_all_release_files(&list(), "bionic", "cosmic");
    let suites: Vec<&str> = entries.iter().map(|e| e.suite.as_str()).collect();
    assert_eq!(suites, vec!["cosmic", "cosmic-updates"]);
    assert_eq!(entries[1].url, "https://b");
    assert_eq!(entries[0].options, vec!["arch=amd64"]);
    assert_eq!(entries[0].components, vec!["main"]);
}

#[test]
fn moved_suites_start_with_the_target() {
    for (from, to) in vec![("bionic", "cosmic"), ("", "x"), ("b", "bb")] {
        for e in head_all_release_files(&list(), from, to) {
            assert!(e.suite.starts_with(to));
        }
    }
}

#[test]
fn results_are_taken_apart() {
    let results = vec![
        (entry("a", ""), Ok(())),
        (entry("b", ""), Ok(())),
        (entry("c", ""), Ok(())),
        (entry("a", ""), Err(1)),
        (entry("d", ""), Err(2)),
        (entry("b", ""), Ok(())),
        (entry("a", ""), Ok(())),
        (entry("a", ""), Err(3)),
    ];
    let (success, failure) = partition_results(results);
    assert_eq!(success, vec!["c", "b"]);
    assert_eq!(failure, vec![("a".to_string(), 1), ("d".to_string(), 2)]);
}

#[test]
fn upgrade_is_possible_where_all_is_reached() {
    let keyring = Arc::new(AptKeyring::new(Vec::new()).ok().unwrap());
    let request = UpgradeRequest::new(list()).keyring(keyring);
    let upgrader =
        request.send("bionic".to_string(), "cosmic".to_string(), vec![Ok(()), Ok(())]).ok().unwrap();
    assert!(upgrader.keyring().is_some());
    assert!(self::upgrader().keyring().is_none());
}

#[test]
fn unreached_sources_make_upgrade_impossible() {
    let request = UpgradeRequest::new(list());
    let outcomes = vec![Ok(()), Err(unreachable_url())];
    match request.send("bionic".to_string(), "cosmic".to_string(), outcomes) {
        Err(DistUpgradeError::SourcesUnavailable { success, failure }) => {
            assert_eq!(success, vec!["http://a"]);
            assert_eq!(failure.len(), 1);
            assert_eq!(failure[0].0, "https://b");
        }
        _ => panic!(),
    }
}

#[test]
fn sources_are_overwritten_first() {
    match upgrader().dist_upgrade() {
        DistUpgradeStep::Overwrite(upgrader, change) => {
            assert_eq!(upgrader.revert_apt_sources().to, "bionic");
            assert_eq!((change.from.as_str(), change.to.as_str()), ("bionic", "cosmic"));
        }
        _ => panic!(),
    }
    assert!(matches!(upgrader().overwritten(Ok(())), DistUpgradeStep::Update(_)));
    assert!(matches!(
        upgrader().overwritten(Err(io_error())),
        DistUpgradeStep::Failed(_, DistUpgradeError::AptFileOverwrite { .. })
    ));
}

#[test]
fn outcomes_end_the_upgrade() {
    let outcomes = vec![("a".to_string(), Ok(()))];
    match upgrader().update_dist_files(Ok(outcomes)) {
        DistUpgradeStep::Done(outcomes) => assert_eq!(outcomes.len(), 1),
        _ => panic!(),
    }
}

#[test]
fn failed_update_restores_the_sources() {
    match upgrader().update_dist_files(Err(DistUpdateError::DistFetch)) {
        DistUpgradeStep::Restore(upgrader, change, why) => {
            assert_eq!((change.from.as_str(), change.to.as_str()), ("cosmic", "bionic"));
            assert!(matches!(
                upgrader.restored(why, Ok(())),
                DistUpgradeStep::Failed(
                    _,
                    DistUpgradeError::AptFileUpdate { why: DistUpdateError::DistFetch }
                )
            ));
        }
        _ => panic!(),
    }
    match upgrader().restored(DistUpdateError::DistFetch, Err(io_error())) {
        DistUpgradeStep::Failed(
            upgrader,
            DistUpgradeError::AptFileUpdateRestore { why, file_why },
        ) => {
            assert_eq!(upgrader.overwrite_apt_sources().to, "cosmic");
            assert!(matches!(why, DistUpdateError::DistFetch));
            assert!(matches!(*file_why, DistUpgradeError::AptFileOverwrite { .. }));
        }
        _ => panic!(),
    }
}

#[test]
fn reverting_is_the_reverse_of_overwriting() {
    let forth = upgrader().overwrite_apt_sources();
    let back = upgrader().revert_apt_sources();
    for suite in vec!["bionic", "bionic-updates"] {
        let upgraded = replace(suite, &forth.from, &forth.to);
        assert!(upgraded.starts_with("cosmic"));
        assert_eq!(replace(&upgraded, &back.from, &back.to), suite);
    }
    let suite = "xenial-updates";
    assert_eq!(replace(suite, &forth.from, &forth.to), suite);
    assert_eq!(replace(suite, &back.from, &back.to), suite);
    let suite = "x/bionic-bionic";
    let upgraded = replace(suite, &forth.from, &forth.to);
    assert_eq!(upgraded, "x/cosmic-cosmic");
    assert_eq!(replace(&upgraded, &back.from, &back.to), suite);
    assert_eq!((forth.from, forth.to), (back.to, back.from));
    assert!(upgrader().reverted(Ok(())).is_ok());
    match upgrader().reverted(Err(io_error())) {
        Err(DistUpgradeError::AptFileOverwrite { why }) => assert_eq!(why.to_string(), "failed"),
        _ => panic!(),
    }
}

#[test]
fn upgrade_errors_are_put_in_words() {
    let words = |error: DistUpgradeError| error.message();
    assert_eq!(
        words(DistUpgradeError::Tokio { what: "spawning", why: io_error() }),
        "tokio error: failure spawning: failed"
    );
    assert_eq!(
        words(DistUpgradeError::SourcesUnavailable { success: vec![], failure: vec![] }),
        "some apt sources could not be reached"
    );
    assert_eq!(
        words(DistUpgradeError::Request { why: unreachable_url() }),
        format!("http/s request failed: {}", unreachable_url())
    );
    assert_eq!(
        words(DistUpgradeError::AptFileOverwrite { why: io_error() }),
        "failed to overwrite apt source files: failed"
    );
    assert_eq!(
        words(DistUpgradeError::AptFileUpdate { why: DistUpdateError::DistFetch }),
        "failed to fetch apt sources: failed to fetch distribution file(s)"
    );
    assert_eq!(
        words(DistUpgradeError::AptFileUpdateRestore {
            why: DistUpdateError::FetchUpdates,
            file_why: Box::new(DistUpgradeError::AptFileOverwrite { why: io_error() }),
        }),
        "failed to fetch apt sources[0] and restore apt files[1]: \n\t[0] failed to fetch \
         updates\n\t[1] failed to overwrite apt source files: failed"
    );
}
