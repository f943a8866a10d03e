use apt_fetcher::uris::{
    check_line, print_uris_command, read_line, update_uris, DebUri, Error, LineStep,
};
use std::collections::hash_map::DefaultHasher;
use std::collections::HashSet;
use std::hash::{Hash, Hasher};

const LINE: &str = "'http://archive.ubuntu.com/pool/main/b/bash/bash_5.0_amd64.deb' bash_5.0_amd64.deb 1024 MD5Sum:0123456789abcdef0123456789abcdef\n";

fn lines(text: &str) -> Vec<String> {
    text.lines().map(|line| format!("{}\n", line)).collect()
}

#[test]
fn package_is_parsed() {
    let package = DebUri::from_str(LINE).ok().unwrap();
    assert_eq!(package.uri, "http://archive.ubuntu.com/pool/main/b/bash/bash_5.0_amd64.deb");
    assert_eq!(package.name, "bash_5.0_amd64.deb");
    assert_eq!(package.size, 1024);
    assert_eq!(package.md5sum, "0123456789abcdef0123456789abcdef");
}

#[test]
fn words_after_the_checksum_are_ignored() {
    let package = DebUri::from_str("'ab' n 7 MD5Sum: more words").ok().unwrap();
    assert_eq!(package.uri, "ab");
    assert_eq!(package.name, "n");
    assert_eq!(package.size, 7);
    assert_eq!(package.md5sum, "");
}

#[test]
fn quotes_are_not_looked_at() {
    let package = DebUri::from_str("<abc> n 7 MD5Sum:x").ok().unwrap();
    assert_eq!(package.uri, "abc");
}

#[test]
fn missing_uri_is_an_error() {
    let why = DebUri::from_str(" \n").err().unwrap();
    assert!(matches!(&why, Error::UriNotFound(line) if line == " \n"));
    assert_eq!(why.message(), "uri not found in output:  \n");
}

#[test]
fn short_uri_is_an_error() {
    let why = DebUri::from_str("'a' n 1 MD5Sum:x").err().unwrap();
    assert!(matches!(&why, Error::UriInvalid(word) if word == "'a'"));
    assert_eq!(why.message(), "invalid URI value: 'a'");
}

#[test]
fn missing_name_is_an_error() {
    let why = DebUri::from_str("'ab'").err().unwrap();
    assert!(matches!(&why, Error::NameNotFound(line) if line == "'ab'"));
    assert_eq!(why.message(), "name not found in output: 'ab'");
}

#[test]
fn missing_size_is_an_error() {
    let why = DebUri::from_str("'ab' n").err().unwrap();
    assert!(matches!(&why, Error::SizeNotFound(line) if line == "'ab' n"));
    assert_eq!(why.message(), "size not found in output: 'ab' n");
}

#[test]
fn bad_size_is_an_error() {
    let why = DebUri::from_str("'ab' n 1k").err().unwrap();
    assert!(matches!(&why, Error::SizeParse(word) if word == "1k"));
    assert_eq!(why.message(), "size in output could not be parsed as an integer: 1k");
}

#[test]
fn missing_checksum_is_an_error() {
    let why = DebUri::from_str("'ab' n 1").err().unwrap();
    assert!(matches!(&why, Error::Md5NotFound(line) if line == "'ab' n 1"));
    assert_eq!(why.message(), "md5sum not found in output: 'ab' n 1");
}

#[test]
fn other_checksum_is_an_error() {
    let why = DebUri::from_str("'ab' n 1 SHA256:x").err().unwrap();
    assert!(matches!(&why, Error::Md5Prefix(word) if word == "SHA256:x"));
    assert_eq!(why.message(), "md5 prefix (MD5Sum:) not found in md5sum: SHA256:x");
}

#[test]
fn failed_command_is_described() {
    let why = std::io::Error::new(std::io::ErrorKind::NotFound, "gone");
    assert_eq!(Error::Command(why).message(), "apt command failed: gone");
}

#[test]
fn printed_packages_are_read_back() {
    for (uri, name, size, sum) in vec![
        ("http://a/b", "b", 0u64, "00ff"),
        ("file:/ä", "ä_1%3a2.deb", u64::max_value(), ""),
    ] {
        let line = format!("'{}' {} {} MD5Sum:{}\n", uri, name, size, sum);
        let package = DebUri::from_str(&line).ok().unwrap();
        assert_eq!(package.uri, uri);
        assert_eq!(package.name, name);
        assert_eq!(package.size, size);
        assert_eq!(package.md5sum, sum);
    }
}

#[test]
fn lines_are_told_apart() {
    assert!(matches!(read_line(""), LineStep::End));
    assert!(matches!(read_line("Reading package lists...\n"), LineStep::Skip));
    assert!(matches!(read_line("\n"), LineStep::Skip));
    assert!(matches!(read_line(LINE), LineStep::Package(p) if p.size == 1024));
    assert!(matches!(read_line("'ab'\n"), LineStep::Invalid(Error::NameNotFound(_))));
}

#[test]
fn lines_are_checked() {
    assert!(check_line(LINE));
    assert!(check_line("Fetched ä"));
    assert!(check_line("'ä n"));
    assert!(!check_line("'abä n 1 MD5Sum:x"));
    assert!(check_line(""));
    assert!(DebUri::can_parse("Fetched abc"));
    assert!(!DebUri::can_parse("äbc n 1 MD5Sum:x"));
}

#[test]
fn packages_are_collected() {
    let output = lines("Reading\n'ab' one 1 MD5Sum:x\nBuilding\n'cd' two 2 MD5Sum:y");
    let (packages, failure) = update_uris(&output);
    let names: Vec<&str> = packages.iter().map(|p| p.name.as_str()).collect();
    assert_eq!(names, vec!["one", "two"]);
    assert!(failure.is_none());
}

#[test]
fn bad_line_ends_the_search() {
    let output = lines("'ab' one 1 MD5Sum:x\n'ab' bad\n'cd' two 2 MD5Sum:y");
    let (packages, failure) = update_uris(&output);
    assert_eq!(packages.len(), 1);
    assert!(matches!(failure, Some(Error::SizeNotFound(_))));
}

#[test]
fn empty_line_ends_the_output() {
    let output = vec!["'ab' one 1 MD5Sum:x\n".to_string(), String::new(), "'cd'".to_string()];
    let (packages, failure) = update_uris(&output);
    assert_eq!(packages.len(), 1);
    assert!(failure.is_none());
}

#[test]
fn more_output_keeps_earlier_packages() {
    let output = lines("'ab' one 1 MD5Sum:x\nskip\n'cd' two 2 MD5Sum:y\n'ef' bad");
    let (all, _) = update_uris(&output);
    for n in 0..output.len() {
        let (some, _) = update_uris(&output[..n].to_vec());
        for (a, b) in some.iter().zip(all.iter()) {
            assert_eq!(a.name, b.name);
        }
        assert!(some.len() <= all.len());
    }
}

#[test]
fn packages_are_compared_by_uri() {
    let a = DebUri::from_str("'ab' one 1 MD5Sum:x").ok().unwrap();
    let b = DebUri::from_str("'ab' two 2 MD5Sum:y").ok().unwrap();
    let c = DebUri::from_str("'ac' one 1 MD5Sum:x").ok().unwrap();
    assert!(a == b && a != c);
    let copy = a.clone();
    assert_eq!(copy.name, "one");
}

#[test]
fn packages_are_hashed_by_uri() {
    let mut hashes = HashSet::new();
    for line in vec!["'ab' one 1 MD5Sum:x", "'ab' two 2 MD5Sum:y"] {
        let mut state = DefaultHasher::new();
        DebUri::from_str(line).ok().unwrap().hash(&mut state);
        hashes.insert(state.finish());
    }
    let mut state = DefaultHasher::new();
    String::from("ab").hash(&mut state);
    hashes.insert(state.finish());
    assert_eq!(hashes.len(), 1);
    let mut state = DefaultHasher::new();
    DebUri::from_str("'ac' one 1 MD5Sum:x").ok().unwrap().hash(&mut state);
    hashes.insert(state.finish());
    assert_eq!(hashes.len(), 2);
}

#[test]
fn apt_get_is_asked_for_uris() {
    let command = print_uris_command();
    assert_eq!(command.program, "apt-get");
    assert_eq!(command.args, vec!["--print-uris", "full-upgrade"]);
    let expected = vec![("DEBIAN_FRONTEND".to_string(), "noninteractive".to_string())];
    assert_eq!(command.env, expected);
}

#[test]
fn lines_behind_a_bad_line_are_not_looked_at() {
    let output = lines("'ab' one 1 MD5Sum:x\n'ab' bad\n'abä n 1 MD5Sum:x");
    assert!(!check_line(&output[2]));
    let (packages, failure) = update_uris(&output);
    assert_eq!(packages.len(), 1);
    assert!(matches!(failure, Some(Error::SizeNotFound(_))));
}

#[test]
fn other_lines_do_not_matter() {
    let plain = lines("'ab' one 1 MD5Sum:x\n'cd' two 2 MD5Sum:y\n'ef' bad");
    let mixed = lines("Reading\n'ab' one 1 MD5Sum:x\n\nsee 'ab'\n'cd' two 2 MD5Sum:y\n\n'ef' bad");
    let (a, failed_a) = update_uris(&plain);
    let (b, failed_b) = update_uris(&mixed);
    assert_eq!(a.len(), 2);
    assert!(a == b);
    assert_eq!(failed_a.unwrap().message(), failed_b.unwrap().message());
}
