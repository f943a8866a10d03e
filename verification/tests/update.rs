use apt_fetcher::dist::checksum::FetchError;
use apt_fetcher::dist::entries::{ChecksumKind, Compression, EntryRequest};
use apt_fetcher::dist::sources::{LocatedEntry, SourceEntry};
use apt_fetcher::dist::update::{
    add_slash, check_schemes, describe, entries_outcome, join_outcomes, parse_message, DistUpdateError, ReleaseData,
    ReleaseFetched, ReleaseFetcher, ReleaseInfo, Updater, ValidatedRelease,
};
use apt_fetcher::keyring::{AptKeyring, KeyFile};
use apt_fetcher::release::{DistRelease, EntryComponents};
use std::sync::Arc;

const KEY: &str = "\
    99010d0459682f00010800c330738c50a378738d407990a69b25128ff9e26defac80a0cd75cf68a30d7e7ac3\
    c3494f176cbe54ab9a197c01c9ed9a1c0d1306d1563d97f0b718209342279933498c9b2376bbbd827e127db3\
    866dcc8a0a6254b1fa05dba6ad2d2f797cfb912c8a4cd1f860c5a7d5285f6437e3c9821f47a7c3a130198ea6\
    9cef2a3027eb0ce9aceb47f7278eece2d4a3aa3cbaa7f63cc32438d81f682785042de13d3fa1317ec40740ac\
    8fe240ec680e53e420360f5b8626ed9b290b563ccc1c9ac984e538f8f1d91c35dff2badbc5a04abaf6b799de\
    2a57d9904895ffde93f6cc068f965c59b68602414565fb6d087eeabf32b81140e22f2db38e18347c04d25837\
    9e7c330011010001";

const IN_RELEASE: &str = "-----BEGIN PGP SIGNED MESSAGE-----
Hash: SHA256

Origin: Test
Label: Test
Suite: stable
Version: 1.0
Codename: test
Date: Sat, 01 Jun 2019 10:00:00 UTC
Architectures: amd64 i386
Components: main universe
Description: Test release
SHA256:
 465f570eb3cea58ad8ab1b02aea67ef8bd2788d0d2892482483f7032d8584d49 28 main/binary-amd64/Packages
 fd6efb13f823422a342ce8b3c0b172be2a6657c8bc45b37bb81bcf9f809e3c4c 48 main/binary-amd64/Packages.gz
 48c7d1496808e956de61745b2662b359e59f51f33a5aa0fabddaeeea040a21d6 84 main/binary-amd64/Packages.xz
 dcfe83f89f01bf7858bac6f03be1c14a5d03eef68b7d24116d5a80111445189c 4 main/binary-i386/Packages.xz
 dbd3a49d0d906b4ed9216b73330d2fb080ef2f758c12f3885068222e5e17151c 2 main/i18n/Translation-en.xz
 25a6634263c1b1f6fc4697a04e2b9904ea4b042a89af59dc93ec1f5d44848a26 3 universe/source/Sources.xz
 0cc1c74193b578d2351e3637ab6276696391a270f7bec2445a3668ee9b590c7e 4 Contents-amd64.gz
-----BEGIN PGP SIGNATURE-----

iQEcBAEBCAAGBQJZaC9kAAoJEDVxbJqpu5dVLTMH/0kqsFVWaC4SZBgbNEtC9dB2
wWZWpE3s9t0OsUlWsO2CuNFu1qybMH7i2rk+Bg9L06aFKhlNUyI1kogbyr4RR7+l
Lq4NV1uQPuYLSa/PGCQfZicAbbqOkGD3erLv/o5gl+qd86LiTxZa1imKV1p+IckN
cfzk4RQzLfCZ8RdOmGTdaP4ZZCMmd2VGOR/1DNBbDkZiyYK3ql93vLah9LQsIZ8A
bpDOqcz3t8YTx3bADPZs8xq96mu3ySFYdPtJsPaAThsTtJoznKRXP/tULRhLmvg7
9bFXI8fpQmLUvgmEdiV7+E3nBCzWfM+X4IH8BgiJ5/7JM8rrb/XH1yi+lKorXjI=
-----END PGP SIGNATURE-----
";

/// A signed message that is no release file.
const NO_RELEASE: &str = "-----BEGIN PGP SIGNED MESSAGE-----
Hash: SHA256

Origin: Test
Nonsense
-----BEGIN PGP SIGNATURE-----

iQEcBAEBCAAGBQJZaC9kAAoJEDVxbJqpu5dV6IcIAK1Hrt+fBUZaj93a2tfFv0lt
tppQ7Jo2E7F3z1ITLX2c4B/kF6jdwjGC5rWNetuRAz6WgiP5YIg5xkfxQWfdPpWg
7Tv2K927R8MEM+I7c1grEkEKo9RE9ejl1YKQaT0DegtGzz5olISxO5ZKYV61Wlud
CURWUKxbedmvUSQBdS4Gg+ysRgyqVEPs+TDU0cE5nIuFrKLGRNeU1oNzd5XVOe2g
3BsvAOh6zgVH0mKEtJpOAZ5Ovn5Zuo4FW1vaMbbwYeumZz6jgbK8J6Qjb8fpCv5d
e4xxRhR86cpSeYF+pb+1Iv9qYEN1h/5QQIekQK0RZ4wspd219Qquwrp9ror10Bk=
-----END PGP SIGNATURE-----
";

/// A signed message that breaks off.
const BROKEN_OFF: &str = "-----BEGIN PGP SIGNED MESSAGE-----
Hash: SHA256

Origin: Test
-----BEGIN PGP SIGNATURE-----

iQEcBAEBCAAGBQJZaC9kAAoJEDVxbJqpu5dVIeMH/1SAR3d73BbNxX8qEVo2sj2e
MN2Ic+VBhIz4267LSjebkwdc6bkldiwElNVsVk5y5FwHz00Mq55cePInBRPKMVG2
JsBPMYe2b9Bal9hWTQfo4nxYaQ5IrQnqV5NMnbgIm/KFGs6tk36bPsDBkk7ADOEq
Wfe9+7WMfFWwEYa4H9b0VpenVa1N0f6TeJYdk5SSX8wTzi13r4dwKZ5Q+G3mOfgl
bj6lsTMrtj6hHgVxnwKXO56Z88V7oOEx2DGo4duJn0yrOpR88C/2mqkGWimsFVDT
drwY8mfEMRBGeBwJ52noMD4ST/T6ZGVQL1hYK1W4YZGxC8hiLK+a0Bk/xXo3234=
-----END PGP SIGNATURE-----
";

/// A message whose signature names a signer with another id.
const FOREIGN: &str = "-----BEGIN PGP SIGNED MESSAGE-----
Hash: SHA256

Hello
-----BEGIN PGP SIGNATURE-----

iQEcBAEBCAAGBQJZaC9kAAoJEAAAAAAAAAAA/AQH/3jgwCEs8l3aKG6cQyj7eBYY
MnOcSPoIiATkFq9+a8DbvSu6XAPCaVDR5nq90Wqr+647K/39/kIq3u+mMiVW42hx
bKqZccjfklepoMALfK2awuXaaykEjU2Cq80QbUshVoiVDIVAx0YKugGGVB+yGJBe
LyeCanGEzySEcpMC0ye5BdCAnvDLZxnxTQih8zFn+X+7EZA1BX8GI03wVFO/ioIU
l0ONSvSWICC+zJURuT4z5ZAHhPUF7wmhTEzFpieUfHVwq8FbCDwql5cpL0Gju+8g
6tLc2IkEztDdqgum7kHmN+R9xynHRQlrBHA7PXgE83fFC32xJXpSgseZnuGr2F8=
-----END PGP SIGNATURE-----
";

fn bytes(hex: &str) -> Vec<u8> {
    (0..hex.len() / 2).map(|i| u8::from_str_radix(&hex[2 * i..2 * i + 2], 16).unwrap()).collect()
}

fn ring() -> Arc<AptKeyring> {
    let file = KeyFile { path: "key".to_string(), content: Ok(bytes(KEY)) };
    Arc::new(AptKeyring::new(vec![file]).ok().unwrap())
}

fn strings(list: &[&str]) -> Vec<String> {
    list.iter().map(|s| s.to_string()).collect()
}

fn located(enabled: bool, source: bool, options: &[&str]) -> LocatedEntry {
    LocatedEntry {
        entry: SourceEntry {
            enabled,
            source,
            options: strings(options),
            url: "http://host/ubuntu".to_string(),
            suite: "bionic".to_string(),
            components: strings(&["main", "universe"]),
        },
        dist_path: "http://host/ubuntu/dists/bionic".to_string(),
    }
}

fn data() -> ReleaseData {
    ReleaseData {
        trusted: false,
        base_url: "http://host/ubuntu/dists/bionic".to_string(),
        path: "p".to_string(),
        components: strings(&["main", "universe"]),
    }
}

fn validate(contents: &str) -> Option<ValidatedRelease> {
    ReleaseFetched::new(Ok(data()), Some(ring())).try_validate_releases(contents.as_bytes())
}

fn info() -> ReleaseInfo {
    validate(IN_RELEASE).unwrap().into_future().ok().unwrap()
}

#[test]
fn release_files_are_located() {
    let list = vec![
        located(true, false, &["arch=amd64", "trusted=yes"]),
        located(false, false, &[]),
        located(true, true, &[]),
        located(true, false, &["trusted=no"]),
    ];
    let requests = ReleaseFetcher::new().fetch_updates(&list);
    assert_eq!(requests.len(), 2);
    assert!(requests[0].data.trusted && !requests[1].data.trusted);
    let first = &requests[0];
    assert_eq!(first.url, "http://host/ubuntu/dists/bionic/InRelease");
    assert_eq!(first.data.path, "var/lib/apt/lists/host_ubuntu_dists_bionic_InRelease");
    assert_eq!(first.partial, "var/lib/apt/lists/partial/host_ubuntu_dists_bionic_InRelease");
    assert_eq!(first.data.base_url, "http://host/ubuntu/dists/bionic");
    assert_eq!(first.data.components, strings(&["main", "universe"]));
}

#[test]
fn update_is_planned_for_the_architectures() {
    let list = vec![located(true, false, &[])];
    let updater = Updater::new(&list).keyring(ring());
    let plan = updater.tokio_update(Ok(strings(&["amd64"]))).ok().unwrap();
    assert_eq!(plan.architectures, strings(&["amd64"]));
    assert_eq!(plan.requests.len(), 1);
    assert!(plan.fetcher.keyring.is_some());
    assert!(Updater::new(&list).tokio_update(Ok(vec![])).ok().unwrap().fetcher.keyring.is_none());
}

#[test]
fn missing_architectures_are_an_error() {
    let mut short = located(true, false, &[]);
    short.dist_path = "x".to_string();
    for list in vec![Vec::new(), vec![short]] {
        let why = std::io::Error::new(std::io::ErrorKind::NotFound, "gone");
        match Updater::new(&list).tokio_update(Err(why)) {
            Err(DistUpdateError::Architectures { why }) => {
                assert_eq!(why.kind(), std::io::ErrorKind::NotFound)
            }
            _ => panic!(),
        }
    }
}

#[test]
fn apt_makes_an_update() {
    let list = Vec::new();
    let updater = Updater::new(&list);
    let command = updater.update();
    assert_eq!(command.program, "apt");
    assert_eq!(command.args, vec!["update"]);
    assert!(updater.updated(Ok(())).is_ok());
    let why = std::io::Error::new(std::io::ErrorKind::Other, "failed");
    assert!(matches!(updater.updated(Err(why)), Err(DistUpdateError::AptUpdate { .. })));
}

#[test]
fn failed_release_concludes_with_an_error() {
    let outcomes = vec![
        ("a".to_string(), Ok(())),
        ("b".to_string(), Err(DistUpdateError::InvalidUtf8)),
    ];
    assert!(matches!(Updater::conclude(Some(outcomes)), Err(DistUpdateError::DistFetch)));
    assert!(matches!(Updater::conclude(None), Err(DistUpdateError::FetchUpdates)));
}

#[test]
fn outcomes_are_handed_out_where_no_release_failed() {
    let outcomes = vec![("a".to_string(), Ok(())), ("b".to_string(), Ok(()))];
    let r = Updater::conclude(Some(outcomes)).ok().unwrap();
    let names: Vec<&str> = r.iter().map(|o| o.0.as_str()).collect();
    assert_eq!(names, vec!["a", "b"]);
    assert!(r.iter().all(|o| o.1.is_ok()));
    assert!(Updater::conclude(Some(vec![])).ok().unwrap().is_empty());
}

#[test]
fn failed_fetch_is_passed_on() {
    let list = vec![located(true, false, &[])];
    let fetcher = ReleaseFetcher::new().with_keyring(ring());
    let request = fetcher.fetch_updates(&list).pop().unwrap();
    let fetched = fetcher.fetched(request, Err(FetchError::FetchedChecksum));
    let validated = fetched.try_validate_releases(b"").unwrap();
    let entries = validated.try_fetch_entries(&vec![]).unwrap();
    assert!(matches!(
        entries,
        Err(DistUpdateError::Fetcher { why: FetchError::FetchedChecksum })
    ));
}

#[test]
fn signed_release_is_parsed() {
    let list = vec![located(true, false, &[])];
    let fetcher = ReleaseFetcher::new().with_keyring(ring());
    let request = fetcher.fetch_updates(&list).pop().unwrap();
    let fetched = fetcher.fetched(request, Ok(()));
    let validated = fetched.validate_releases(IN_RELEASE.as_bytes());
    let info = validated.into_future().ok().unwrap();
    assert_eq!(info.base_url, "http://host/ubuntu/dists/bionic");
    assert_eq!(info.components, strings(&["main", "universe"]));
    assert_eq!(info.release.sums.len(), 1);
    let sums = &info.release.sums[0];
    assert_eq!(sums.method, "SHA256");
    assert_eq!(sums.base.len(), 1);
    assert_eq!(sums.base[0].name, "Contents-amd64");
    let names: Vec<&str> = sums.components.iter().map(|c| c.name.as_str()).collect();
    assert_eq!(names, vec!["main", "universe"]);
    let item = &sums.components[0].items[0];
    assert_eq!(item.name, "main/binary-amd64/Packages");
    let paths: Vec<&str> = item.entries.iter().map(|e| e.path.as_str()).collect();
    assert_eq!(
        paths,
        vec!["binary-amd64/Packages", "binary-amd64/Packages.gz", "binary-amd64/Packages.xz"]
    );
    assert_eq!(item.entries[0].size, 28);
}

#[test]
fn tampered_release_is_refused() {
    let tampered = IN_RELEASE.replace("Suite: stable", "Suite: oldest");
    let r = validate(&tampered).unwrap().into_future();
    assert!(matches!(r, Err(DistUpdateError::GpgValidation { .. })));
    let r = validate("nothing").unwrap().into_future();
    assert!(matches!(r, Err(DistUpdateError::GpgValidation { .. })));
}

#[test]
fn unknown_signer_is_refused() {
    let r = validate(FOREIGN).unwrap().into_future();
    assert!(matches!(r, Err(DistUpdateError::GpgValidation { .. })));
    let empty = Arc::new(AptKeyring::new(Vec::new()).ok().unwrap());
    let fetched = ReleaseFetched::new(Ok(data()), Some(empty));
    let r = fetched.try_validate_releases(IN_RELEASE.as_bytes()).unwrap().into_future();
    assert!(matches!(r, Err(DistUpdateError::GpgValidation { .. })));
}

#[test]
fn other_message_is_no_release() {
    let r = validate(NO_RELEASE).unwrap().into_future();
    assert!(matches!(r, Err(DistUpdateError::InvalidReleaseData { .. })));
}

#[test]
fn release_that_cannot_be_dealt_with_is_left() {
    assert!(validate(BROKEN_OFF).is_none());
    let unkeyed = ReleaseFetched::new(Ok(data()), None);
    assert!(unkeyed.try_validate_releases(IN_RELEASE.as_bytes()).is_none());
    assert!(trust(b"Origin: Test").is_none());
}

fn trust(contents: &[u8]) -> Option<Result<ReleaseInfo, DistUpdateError>> {
    let trusted = ReleaseData { trusted: true, ..data() };
    let fetched = ReleaseFetched::new(Ok(trusted), None);
    fetched.try_validate_releases(contents).map(|r| r.into_future())
}

#[test]
fn trusted_release_requires_no_keyring() {
    for contents in vec![
        IN_RELEASE.to_string(),
        IN_RELEASE.replace("Suite: stable", "Suite: oldest"),
        "Origin: Test\nSHA256:\n 00 1 Contents-amd64.gz\n".to_string(),
    ] {
        let info = trust(contents.as_bytes()).unwrap().ok().unwrap();
        assert_eq!(info.release.sums[0].method, "SHA256");
        assert_eq!(info.release.sums[0].base[0].name, "Contents-amd64");
        assert_eq!(info.base_url, "http://host/ubuntu/dists/bionic");
    }
    let r = trust(b"Nonsense").unwrap();
    assert!(matches!(r, Err(DistUpdateError::InvalidReleaseData { .. })));
    assert!(matches!(trust(&[0xff]).unwrap(), Err(DistUpdateError::InvalidUtf8)));
}

#[test]
fn bad_date_is_an_error_wherever_the_head_breaks_off() {
    for date in vec!["Date: yesterday", "Date: Sat, 99 Jun 2019 10:00:00 UTC"] {
        let r = trust(format!("Origin: Test\n{}", date).as_bytes()).unwrap();
        assert!(matches!(r, Err(DistUpdateError::InvalidReleaseData { .. })));
    }
    assert!(trust(b"Origin: Test\nDate: Sat, 01 Jun 2019 10:00:00 UTC").is_none());
}

#[test]
fn message_is_parsed() {
    let text = b"Origin: x\nMD5Sum:\n 00 1 main/source/Sources\n".to_vec();
    let info = parse_message(data(), text).ok().unwrap();
    assert_eq!(info.release.sums[0].method, "MD5Sum");
    assert_eq!(info.release.sums[0].components[0].name, "main");
    assert_eq!(info.release.sums[0].components[0].items[0].entries[0].path, "source/Sources");
    let r = parse_message(data(), vec![0xff]);
    assert!(matches!(r, Err(DistUpdateError::InvalidUtf8)));
    let r = parse_message(data(), b"Unknown: x".to_vec());
    assert!(matches!(r, Err(DistUpdateError::InvalidReleaseData { .. })));
}

#[test]
fn parsed_release_is_described() {
    let empty = DistRelease { sums: Vec::new() };
    let described = describe(data(), Ok(empty)).ok().unwrap();
    assert_eq!(described.base_url, "http://host/ubuntu/dists/bionic");
    let why = std::io::Error::new(std::io::ErrorKind::InvalidData, "bad");
    assert!(matches!(describe(data(), Err(why)), Err(DistUpdateError::InvalidReleaseData { .. })));
}

#[test]
fn needed_files_of_a_release_are_requested() {
    let release = ValidatedRelease { future: Ok(info()) };
    let requests = release.try_fetch_entries(&strings(&["amd64"])).unwrap().ok().unwrap();
    let urls: Vec<&str> = requests.iter().map(|r| r.url.as_str()).collect();
    assert_eq!(
        urls,
        vec![
            "http://host/ubuntu/dists/bionic/main/binary-amd64/Packages.xz",
            "http://host/ubuntu/dists/bionic/universe/source/Sources.xz",
            "http://host/ubuntu/dists/bionic/Contents-amd64.gz",
        ]
    );
    let packages: &EntryRequest = &requests[0];
    assert_eq!(packages.kind, ChecksumKind::Sha256);
    assert_eq!(packages.compression, Some(Compression::Xz));
    assert_eq!(
        packages.dest,
        "var/lib/apt/lists/host_ubuntu_dists_bionic_main_binary-amd64_Packages"
    );
    assert_eq!(
        packages.partial,
        "var/lib/apt/lists/partial/host_ubuntu_dists_bionic_main_binary-amd64_Packages.xz"
    );
    assert_eq!(
        packages.fetched_checksum,
        "48c7d1496808e956de61745b2662b359e59f51f33a5aa0fabddaeeea040a21d6"
    );
    assert_eq!(
        packages.dest_checksum,
        "465f570eb3cea58ad8ab1b02aea67ef8bd2788d0d2892482483f7032d8584d49"
    );
    let sources = &requests[1];
    assert_eq!(sources.compression, None);
    assert_eq!(
        sources.dest,
        "var/lib/apt/lists/host_ubuntu_dists_bionic_universe_source_Sources.xz"
    );
    assert_eq!(sources.fetched_checksum, sources.dest_checksum);
}

#[test]
fn architectures_decide_what_is_needed() {
    let release = ValidatedRelease { future: Ok(info()) };
    let requests = release.fetch_entries(&strings(&["i386"])).ok().unwrap();
    let urls: Vec<&str> = requests.iter().map(|r| r.url.as_str()).collect();
    assert_eq!(
        urls,
        vec![
            "http://host/ubuntu/dists/bionic/main/binary-i386/Packages.xz",
            "http://host/ubuntu/dists/bionic/universe/source/Sources.xz",
        ]
    );
}

#[test]
fn components_decide_what_is_fetched() {
    let only_main = ReleaseInfo { components: strings(&["main"]), ..info() };
    let release = ValidatedRelease { future: Ok(only_main) };
    let requests = release.fetch_entries(&strings(&["amd64"])).ok().unwrap();
    assert_eq!(requests.len(), 2);
    assert!(requests.iter().all(|r| !r.url.contains("universe")));
}

#[test]
fn release_without_checksums_is_an_error() {
    let unknown = EntryComponents {
        method: "SHA512".to_string(),
        base: Vec::new(),
        components: Vec::new(),
    };
    for sums in vec![Vec::new(), vec![unknown]] {
        let bare = ReleaseInfo { release: DistRelease { sums }, ..info() };
        let r = ValidatedRelease { future: Ok(bare) }.try_fetch_entries(&vec![]).unwrap();
        match r {
            Err(DistUpdateError::NoEntriesFound { repo }) => {
                assert_eq!(repo, "http://host/ubuntu/dists/bionic/");
            }
            _ => panic!(),
        }
    }
}

#[test]
fn files_without_a_scheme_cannot_be_dealt_with() {
    let short = ReleaseInfo { base_url: "ä:ä/ä/".to_string(), ..info() };
    assert!(!"ä:ä/ä/main".is_char_boundary(7));
    let release = ValidatedRelease { future: Ok(short) };
    assert!(release.try_fetch_entries(&strings(&["amd64"])).is_none());
}

#[test]
fn slash_is_added_where_it_lacks() {
    assert_eq!(add_slash("a".to_string()), "a/");
    assert_eq!(add_slash("a/".to_string()), "a/");
    assert_eq!(add_slash(String::new()), "/");
}

#[test]
fn first_failure_is_the_outcome() {
    assert!(entries_outcome(vec![Ok(()), Ok(())]).is_ok());
    assert!(entries_outcome(vec![]).is_ok());
    let outcomes = vec![Ok(()), Err(FetchError::DestinationChecksum), Err(FetchError::FetchedChecksum)];
    assert!(matches!(
        entries_outcome(outcomes),
        Err(DistUpdateError::Fetcher { why: FetchError::DestinationChecksum })
    ));
    assert_eq!(join_outcomes(vec![Ok(()), Err(2), Err(3)]), Err(2));
}

#[test]
fn schemes_of_release_files_are_tested() {
    let mut short = located(true, false, &[]);
    short.dist_path = "ä:ä/ä".to_string();
    assert!(check_schemes(&vec![]));
    assert!(check_schemes(&vec![located(true, false, &[])]));
    assert!(!check_schemes(&vec![located(true, false, &[]), short]));
    for (enabled, source) in vec![(false, false), (true, true)] {
        let mut unused = located(enabled, source, &[]);
        unused.dist_path = "ä:ä/ä".to_string();
        assert!(check_schemes(&vec![unused]));
    }
}

#[test]
fn update_errors_are_put_in_words() {
    let why = || std::io::Error::new(std::io::ErrorKind::Other, "failed");
    let refused = validate("nothing").unwrap().into_future().err().unwrap();
    let text = match &refused {
        DistUpdateError::GpgValidation { why } => why.to_string(),
        _ => panic!(),
    };
    let request = || reqwest::Client::new().get("no url").build().err().unwrap();
    for (error, words) in vec![
        (
            DistUpdateError::Tokio { what: "spawning", why: why() },
            "tokio error: failure spawning: failed".to_string(),
        ),
        (
            DistUpdateError::Request { why: request() },
            format!("http/s request failed: {}", request()),
        ),
        (
            DistUpdateError::AptUpdate { why: why() },
            "failed to exec 'apt update': failed".to_string(),
        ),
        (DistUpdateError::Decoder { why: why() }, "decoder error: failed".to_string()),
        (refused, format!("failed to validate GPG signature: {}", text)),
        (
            DistUpdateError::LocalRepo { why: why() },
            "failed to read local apt repo: failed".to_string(),
        ),
        (DistUpdateError::InvalidUtf8, "release file had invalid UTF-8".to_string()),
        (
            DistUpdateError::InvalidReleaseData { why: why() },
            "invalid release data: failed".to_string(),
        ),
        (
            DistUpdateError::NoEntriesFound { repo: "http://a/".to_string() },
            "no entries were found for the repository at http://a/".to_string(),
        ),
        (
            DistUpdateError::Architectures { why: why() },
            "failed to fetch available architectures: failed".to_string(),
        ),
        (
            DistUpdateError::Decompressor { why: why() },
            "failed to initialize decompressor: failed".to_string(),
        ),
        (
            DistUpdateError::Fetcher { why: FetchError::FetchedChecksum },
            "failed to fetch file: checksum of the fetched file does not match".to_string(),
        ),
        (DistUpdateError::FetchUpdates, "failed to fetch updates".to_string()),
        (DistUpdateError::DistFetch, "failed to fetch distribution file(s)".to_string()),
    ] {
        assert_eq!(error.message(), words);
    }
}

#[test]
fn errors_are_those_of_the_refusal() {
    let refused = |r: Result<ReleaseInfo, DistUpdateError>| match r {
        Err(DistUpdateError::GpgValidation { why }) => why.to_string(),
        Err(DistUpdateError::InvalidReleaseData { why }) => why.to_string(),
        _ => panic!(),
    };
    let mut text = Vec::new();
    let foreign = gpgrv::verify_clearsign_armour(FOREIGN.as_bytes(), &mut text, &ring());
    assert_eq!(
        refused(validate(FOREIGN).unwrap().into_future()),
        foreign.err().unwrap().to_string()
    );
    let nonsense = "Nonsense".parse::<apt_release_file::DistRelease>().err().unwrap();
    assert_eq!(refused(trust(b"Nonsense").unwrap()), nonsense.to_string());
}
