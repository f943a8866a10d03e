use apt_fetcher::dist::entries::{
    find_preferred, find_shortest, find_strongest, list_candidates, plan_requests,
    preferred_request, supports, Candidate, ChecksumKind, Compression,
};
use apt_fetcher::release::{
    has_variant_defined, is_header_complete, split_lines, EntryComponents, EntryVariant,
    ReleaseComponent, ReleaseEntry, ReleaseItem,
};

fn entry(path: &str) -> ReleaseEntry {
    ReleaseEntry { sum: format!("sum of {}", path), size: path.len() as u64, path: path.to_string() }
}

fn item(name: &str, paths: &[&str]) -> ReleaseItem {
    ReleaseItem { name: name.to_string(), entries: paths.iter().map(|p| entry(p)).collect() }
}

fn sums(method: &str, base: Vec<ReleaseItem>) -> EntryComponents {
    EntryComponents { method: method.to_string(), base, components: Vec::new() }
}

fn strings(list: &[&str]) -> Vec<String> {
    list.iter().map(|s| s.to_string()).collect()
}

fn urls(base: Vec<ReleaseItem>, archs: &[&str]) -> Option<Vec<String>> {
    let lists = sums("SHA256", base);
    let archs = strings(archs);
    let requests = plan_requests("http://h/", ChecksumKind::Sha256, &lists, &vec![], &archs)?;
    Some(requests.into_iter().map(|r| r.url).collect())
}

#[test]
fn strongest_method_is_found() {
    let all = vec![sums("MD5Sum", vec![]), sums("SHA1", vec![]), sums("SHA256", vec![])];
    assert_eq!(find_strongest(&all).unwrap().0, ChecksumKind::Sha256);
    assert_eq!(find_strongest(&all).unwrap().1.method, "SHA256");
    assert_eq!(find_strongest(&all[..2].to_vec_of()).unwrap().0, ChecksumKind::Sha1);
    assert_eq!(find_strongest(&all[..1].to_vec_of()).unwrap().0, ChecksumKind::Md5);
    assert!(find_strongest(&vec![sums("SHA512", vec![])]).is_none());
}

trait ToVecOf {
    fn to_vec_of(&self) -> Vec<EntryComponents>;
}

impl ToVecOf for [EntryComponents] {
    fn to_vec_of(&self) -> Vec<EntryComponents> {
        self.iter().map(|s| sums(&s.method, vec![])).collect()
    }
}

#[test]
fn candidates_are_those_of_wanted_components() {
    let component = |name: &str| ReleaseComponent {
        name: name.to_string(),
        items: vec![item("x", &["x.xz"])],
    };
    let lists = EntryComponents {
        method: "SHA256".to_string(),
        base: vec![item("b", &["b"])],
        components: vec![component("main"), component("universe"), component("multiverse")],
    };
    let wanted = strings(&["multiverse", "main", "other"]);
    let found: Vec<Option<&str>> =
        list_candidates(&lists, &wanted).iter().map(|c| c.component).collect();
    assert_eq!(found, vec![Some("main"), Some("multiverse"), None]);
}

#[test]
fn xz_is_preferred() {
    let of = |paths: &[&str]| find_preferred(&item("i", paths).entries);
    assert_eq!(of(&["a", "a.gz", "a.xz", "b.xz"]), 2);
    assert_eq!(of(&["a", "a.gz", "a.bz2"]), 1);
    assert_eq!(of(&["a", "a.bz2", "a.lz4"]), 2);
    assert_eq!(of(&["a"]), 0);
}

#[test]
fn shortest_path_is_found() {
    let of = |paths: &[&str]| find_shortest(&item("i", paths).entries);
    assert_eq!(of(&["aaa", "bb", "cc"]), 1);
    assert_eq!(of(&["a", "bb"]), 0);
    assert_eq!(of(&["ää", "bbb"]), 1);
}

#[test]
fn compressed_index_is_requested() {
    let index = item("main/binary-amd64/Packages", &["binary-amd64/Packages", "binary-amd64/Packages.gz"]);
    let candidate = Candidate { component: Some("main"), item: &index };
    let variant = Some(EntryVariant::Packages(Some("gz".to_string()), "amd64".to_string()));
    assert!(supports(&candidate, &variant));
    let preferred = preferred_request(&candidate, &variant);
    assert_eq!(preferred.path, "main/binary-amd64/Packages.gz");
    assert_eq!(preferred.path_trim, 3);
    assert_eq!(preferred.compression, Some(Compression::Gz));
    assert_eq!(preferred.checksum, "sum of binary-amd64/Packages.gz");
    assert_eq!(preferred.checksum_decompressed, Some("sum of binary-amd64/Packages".to_string()));
    assert_eq!(preferred.size, 24);
}

#[test]
fn other_files_are_requested_as_they_are() {
    let index = item("Contents-amd64", &["Contents-amd64.gz"]);
    let candidate = Candidate { component: None, item: &index };
    let variant = Some(EntryVariant::Contents("amd64".to_string()));
    let preferred = preferred_request(&candidate, &variant);
    assert_eq!(preferred.path, "Contents-amd64.gz");
    assert_eq!(preferred.path_trim, 0);
    assert_eq!(preferred.compression, None);
    assert_eq!(preferred.checksum_decompressed, None);
}

#[test]
fn unknown_compression_of_an_index_is_not_supported() {
    let index = item("main/binary-amd64/Packages", &["binary-amd64/Packages.bz2"]);
    let candidate = Candidate { component: Some("main"), item: &index };
    let packages =
        |ext: Option<&str>| Some(EntryVariant::Packages(ext.map(|e| e.to_string()), "amd64".to_string()));
    assert!(!supports(&candidate, &packages(Some("bz2"))));
    assert!(!supports(&candidate, &packages(None)));
    assert!(supports(&candidate, &packages(Some("xz"))));
    assert!(supports(&candidate, &None));
}

#[test]
fn kinds_decide_what_is_needed() {
    let one = |path: &str| urls(vec![item("i", &[path])], &["amd64"]).unwrap().len();
    assert_eq!(one("binary-amd64/Release"), 1);
    assert_eq!(one("binary-i386/Release"), 0);
    assert_eq!(one("binary-z80/Release"), 0);
    assert_eq!(one("Contents-amd64.gz"), 1);
    assert_eq!(one("Contents-i386.gz"), 0);
    assert_eq!(one("dep11/Components-amd64.yml.xz"), 1);
    assert_eq!(one("dep11/Components-i386.yml.xz"), 0);
    assert_eq!(one("dep11/icons-48x48.tar.gz"), 1);
    assert_eq!(one("source/Sources.xz"), 1);
    assert_eq!(one("i18n/Translation-en.xz"), 0);
    assert_eq!(one("Release"), 0);
    assert_eq!(one("debian-installer/binary-amd64/Packages.xz"), 0);
}

#[test]
fn index_in_a_base_directory_is_decompressed() {
    let index = item("binary-amd64/Packages", &["binary-amd64/Packages", "binary-amd64/Packages.xz"]);
    let lists = sums("SHA1", vec![index]);
    let archs = strings(&["amd64"]);
    let requests = plan_requests("http://h/", ChecksumKind::Sha1, &lists, &vec![], &archs).unwrap();
    assert_eq!(requests[0].dest, "var/lib/apt/lists/h_binary-amd64_Packages");
    assert_eq!(requests[0].partial, "var/lib/apt/lists/partial/h_binary-amd64_Packages.xz");
    assert_eq!(requests[0].kind, ChecksumKind::Sha1);
    assert!(!requests[0].dest["var/lib/apt/lists/".len()..].contains('/'));
}

#[test]
fn files_that_cannot_be_dealt_with_stop_the_plan() {
    let bad = item("binary-amd64/Packages", &["binary-amd64/Packages.bz2"]);
    assert!(urls(vec![bad], &["amd64"]).is_none());
    let bad = item("binary-amd64/Packages", &["binary-amd64/Packages.bz2"]);
    assert_eq!(urls(vec![bad], &["i386"]), Some(vec![]));
    let translation = item("i18n/Translation", &["i18n/Translation"]);
    assert!(urls(vec![translation], &["amd64"]).is_none());
    assert_eq!(urls(vec![item("empty", &[])], &["amd64"]), Some(vec![]));
}

#[test]
fn kinds_can_be_told_of_ordinary_paths() {
    assert!(has_variant_defined("main/binary-amd64/Packages.xz"));
    assert!(has_variant_defined("Contents-ä"));
    assert!(has_variant_defined("binary-z80/Packagesä"));
    assert!(!has_variant_defined("binary-amd64/Packagesä"));
    assert!(!has_variant_defined("source/Sourcesä"));
    assert!(!has_variant_defined("i18n/Translation"));
    assert!(has_variant_defined("i18n/Translation-"));
}

#[test]
fn lines_are_split() {
    assert_eq!(split_lines("a\r\nb\n\nc"), vec!["a", "b", "", "c"]);
    assert_eq!(split_lines("a\n"), vec!["a"]);
    assert!(split_lines("").is_empty());
    assert_eq!(split_lines("a\r"), vec!["a\r"]);
}

#[test]
fn head_of_a_release_file_must_end() {
    assert!(is_header_complete("Origin: x\nSHA256:"));
    assert!(is_header_complete("Unknown: x"));
    assert!(!is_header_complete("Origin: x\nLabel: y"));
    assert!(!is_header_complete(""));
    assert!(!is_header_complete("  SHA256:"));
    assert!(is_header_complete(" SHA256:"));
}
