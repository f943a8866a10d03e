use apt_fetcher::uris::DebUri;
use apt_fetcher::{fetch_updates, locate, ARCHIVES, PARTIAL};

fn package(uri: &str, name: &str) -> DebUri {
    DebUri { uri: uri.to_string(), name: name.to_string(), size: 1, md5sum: String::new() }
}

#[test]
fn package_goes_to_the_archives() {
    let source = locate(package("http://a/b.deb", "b.deb"));
    assert_eq!(source.urls, vec!["http://a/b.deb"]);
    assert_eq!(source.dest, "/var/cache/apt/archives/b.deb");
    assert_eq!(source.part, Some("/var/cache/apt/archives/partial/b.deb".to_string()));
}

#[test]
fn paths_are_joined_as_std_joins_them() {
    for name in vec!["b.deb", "", "/abs/b.deb", "x/y", "..", "/"] {
        let source = locate(package("u", name));
        let dest = std::path::Path::new(ARCHIVES).join(name);
        let part = std::path::Path::new(PARTIAL).join(name);
        assert_eq!(source.dest, dest.to_str().unwrap());
        assert_eq!(source.part.unwrap(), part.to_str().unwrap());
    }
}

#[test]
fn packages_are_located_in_order() {
    let sources = fetch_updates(vec![package("u1", "a"), package("u2", "b")]);
    let urls: Vec<String> = sources.iter().map(|s| s.urls[0].clone()).collect();
    assert_eq!(urls, vec!["u1", "u2"]);
    assert!(fetch_updates(Vec::new()).is_empty());
}
