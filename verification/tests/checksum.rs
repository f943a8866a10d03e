use apt_fetcher::dist::checksum::{check_sum, is_hex_of, FetchError};
use apt_fetcher::dist::entries::{ChecksumKind, Compression, EntryRequest};

const XZ: &str = "\
    fd377a585a000004e6d6b4460200210116000000742fe5a301001b5061636b6167653a2068656c6c6f0a5665\
    7273696f6e3a20312e300a00aba0a3391a1b00e10001341c931aad8f1fb6f37d010000000004595a";
const GZ: &str = "\
    1f8b08000000000002030b484cce4e4c4fb552c848cdc9c9e70a4b2d2acecccfb35230d433e0020088aff477\
    1c000000";
const CONTENT: &[u8] = b"Package: hello\nVersion: 1.0\n";
const CONTENT_SUM: &str = "465f570eb3cea58ad8ab1b02aea67ef8bd2788d0d2892482483f7032d8584d49";
const XZ_SUM: &str = "48c7d1496808e956de61745b2662b359e59f51f33a5aa0fabddaeeea040a21d6";
const GZ_SUM: &str = "fd6efb13f823422a342ce8b3c0b172be2a6657c8bc45b37bb81bcf9f809e3c4c";

fn bytes(hex: &str) -> Vec<u8> {
    (0..hex.len() / 2).map(|i| u8::from_str_radix(&hex[2 * i..2 * i + 2], 16).unwrap()).collect()
}

fn request(fetched: &str, dest: &str, compression: Option<Compression>) -> EntryRequest {
    EntryRequest {
        url: "u".to_string(),
        dest: "d".to_string(),
        partial: "p".to_string(),
        kind: ChecksumKind::Sha256,
        fetched_checksum: fetched.to_string(),
        dest_checksum: dest.to_string(),
        compression,
    }
}

#[test]
fn checksums_of_each_kind_are_told() {
    assert!(check_sum(
        ChecksumKind::Sha256,
        b"abc",
        "ba7816bf8f01cfea414140de5dae2223b00361a396177a9cb410ff61f20015ad"
    ));
    assert!(check_sum(ChecksumKind::Sha1, b"abc", "a9993e364706816aba3e25717850c26c9cd0d89d"));
    assert!(check_sum(ChecksumKind::Md5, b"abc", "900150983cd24fb0d6963f7d28e17f72"));
    assert!(!check_sum(ChecksumKind::Md5, b"abd", "900150983cd24fb0d6963f7d28e17f72"));
    assert!(!check_sum(ChecksumKind::Md5, b"abc", "900150983CD24FB0D6963F7D28E17F72"));
    assert!(!check_sum(ChecksumKind::Sha256, b"abc", "900150983cd24fb0d6963f7d28e17f72"));
}

#[test]
fn hexadecimal_digits_are_compared() {
    assert!(is_hex_of(&vec![0, 255, 16], "00ff10"));
    assert!(is_hex_of(&vec![], ""));
    assert!(!is_hex_of(&vec![1], "1"));
    assert!(!is_hex_of(&vec![1], "10"));
    assert!(!is_hex_of(&vec![1, 2], "0103"));
}

#[test]
fn xz_file_is_finished() {
    let r = request(XZ_SUM, CONTENT_SUM, Some(Compression::Xz)).finish(bytes(XZ));
    assert_eq!(r.ok().unwrap(), CONTENT);
}

#[test]
fn gz_file_is_finished() {
    let r = request(GZ_SUM, CONTENT_SUM, Some(Compression::Gz)).finish(bytes(GZ));
    assert_eq!(r.ok().unwrap(), CONTENT);
}

#[test]
fn other_files_are_kept_as_they_are() {
    let r = request(XZ_SUM, XZ_SUM, None).finish(bytes(XZ));
    assert_eq!(r.ok().unwrap(), bytes(XZ));
    let r = request(XZ_SUM, XZ_SUM, Some(Compression::Lz4)).finish(bytes(XZ));
    assert_eq!(r.ok().unwrap(), bytes(XZ));
}

#[test]
fn wrong_download_is_refused() {
    let r = request(XZ_SUM, CONTENT_SUM, Some(Compression::Xz)).finish(bytes(GZ));
    assert!(matches!(r, Err(FetchError::FetchedChecksum)));
}

#[test]
fn damaged_download_is_refused() {
    let r = request(CONTENT_SUM, CONTENT_SUM, Some(Compression::Gz)).finish(CONTENT.to_vec());
    assert!(matches!(r, Err(FetchError::Decompress { .. })));
    let r = request(CONTENT_SUM, CONTENT_SUM, Some(Compression::Xz)).finish(CONTENT.to_vec());
    assert!(matches!(r, Err(FetchError::Decompress { .. })));
}

#[test]
fn wrong_content_is_refused() {
    let r = request(XZ_SUM, XZ_SUM, Some(Compression::Xz)).finish(bytes(XZ));
    assert!(matches!(r, Err(FetchError::DestinationChecksum)));
}

#[test]
fn finished_file_is_current() {
    let request = request(XZ_SUM, CONTENT_SUM, Some(Compression::Xz));
    assert!(!request.is_current(None));
    assert!(!request.is_current(Some(&bytes(XZ))));
    let kept = request.finish(bytes(XZ)).ok().unwrap();
    assert!(request.is_current(Some(&kept)));
}

#[test]
fn decompressed_content_is_accepted_or_refused() {
    let request = request(XZ_SUM, CONTENT_SUM, Some(Compression::Xz));
    assert_eq!(request.accept(Ok(CONTENT.to_vec())).ok().unwrap(), CONTENT);
    assert!(matches!(request.accept(Ok(vec![])), Err(FetchError::DestinationChecksum)));
    let why = std::io::Error::new(std::io::ErrorKind::Other, "memory");
    assert!(matches!(request.accept(Err(why)), Err(FetchError::Decompress { .. })));
}

#[test]
fn streams_of_an_xz_file_are_joined() {
    let mut twice = bytes(XZ);
    twice.extend(bytes(XZ));
    let mut content = CONTENT.to_vec();
    content.extend(CONTENT);
    let sum = "2c1497752b2a6327b4bb60239ad2e70b387a4fa9c5d6f4bc9bc7ba200e537f9f";
    let dest = "4593ef84b8c0e8892ae775a0fd0ab4a21fea204f6508945bf34282a4db252fa3";
    let r = request(sum, dest, Some(Compression::Xz)).finish(twice);
    assert_eq!(r.ok().unwrap(), content);
}

#[test]
fn fetch_errors_are_put_in_words() {
    let why = std::io::Error::new(std::io::ErrorKind::Other, "memory");
    for (error, words) in vec![
        (FetchError::Fetch { why: async_fetcher::Error::TimedOut }, "connection timed out"),
        (FetchError::FetchedChecksum, "checksum of the fetched file does not match"),
        (FetchError::Decompress { why }, "failed to decompress: memory"),
        (FetchError::DestinationChecksum, "checksum of the decompressed file does not match"),
    ] {
        assert_eq!(error.message(), words);
    }
}
