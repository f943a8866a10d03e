use apt_fetcher::decompressor::{Compression, Decoded, Decoder, Decompressor};
use std::io::{Read, Write};

const TEXT: &[u8] = b"Package: hello\nPackage: hello\nPackage: hello\n";

fn gz() -> Vec<u8> {
    let mut encoder = flate2::write::GzEncoder::new(Vec::new(), flate2::Compression::default());
    encoder.write_all(TEXT).unwrap();
    encoder.finish().unwrap()
}

fn xz() -> Vec<u8> {
    let mut encoder = xz2::write::XzEncoder::new(Vec::new(), 6);
    encoder.write_all(TEXT).unwrap();
    encoder.finish().unwrap()
}

fn lz4() -> Vec<u8> {
    let mut encoder = lz4::EncoderBuilder::new().build(Vec::new()).unwrap();
    encoder.write_all(TEXT).unwrap();
    let (data, end) = encoder.finish();
    end.unwrap();
    data
}

fn read_all(mut decompressor: Decompressor, size: usize) -> Vec<u8> {
    let mut all = Vec::new();
    let mut buf = vec![0; size];
    loop {
        let n = decompressor.read(&mut buf).unwrap();
        if n == 0 {
            return all;
        }
        all.extend_from_slice(&buf[..n]);
    }
}

#[test]
fn plain_data_is_read_as_it_is() {
    assert_eq!(read_all(Decompressor::none(TEXT.to_vec()).unwrap(), 8), TEXT);
}

#[test]
fn gz_data_is_decompressed() {
    assert_ne!(gz(), TEXT);
    assert_eq!(read_all(Decompressor::gz(gz()).unwrap(), 8), TEXT);
}

#[test]
fn xz_data_is_decompressed() {
    assert_ne!(xz(), TEXT);
    assert_eq!(read_all(Decompressor::xz(xz()).unwrap(), 8), TEXT);
}

#[test]
fn lz4_data_is_decompressed() {
    assert_ne!(lz4(), TEXT);
    assert_eq!(read_all(Decompressor::lz4(lz4()).unwrap(), 8), TEXT);
}

#[test]
fn variant_decides_the_decompression() {
    for (data, variant) in vec![
        (TEXT.to_vec(), Compression::Plain),
        (gz(), Compression::Gz),
        (xz(), Compression::Xz),
        (lz4(), Compression::Lz4),
    ] {
        assert_eq!(read_all(Decompressor::from_variant(data, variant).unwrap(), 100), TEXT);
    }
}

#[test]
fn bad_gz_header_is_refused() {
    assert!(Decompressor::gz(TEXT.to_vec()).is_err());
    assert!(Decompressor::gz(Vec::new()).is_err());
}

#[test]
fn damage_is_reported_while_reading() {
    let mut data = gz();
    data.truncate(gz().len() - 6);
    let mut decompressor = Decompressor::gz(data).unwrap();
    let mut buf = vec![0; 1000];
    let mut failed = false;
    for _ in 0..3 {
        failed = failed || decompressor.read(&mut buf).is_err();
    }
    assert!(failed);
}

#[test]
fn damaged_xz_data_goes_on_failing() {
    let mut buf = vec![0; 1000];
    let mut cut = xz();
    cut.truncate(xz().len() - 20);
    for data in vec![TEXT.to_vec(), cut] {
        let mut decompressor = Decompressor::from_variant(data, Compression::Xz).unwrap();
        while decompressor.read(&mut buf).is_ok() {}
        for _ in 0..3 {
            assert!(decompressor.read(&mut buf).is_err());
        }
    }
}

type Reads = Vec<Result<Vec<u8>, String>>;

/// What comes out before the first error, and what the reads from that on give.
fn reads(mut read: impl FnMut(&mut [u8]) -> std::io::Result<usize>) -> (Vec<u8>, Reads) {
    let mut buf = vec![0; 1000];
    let mut before = Vec::new();
    let mut after: Reads = Vec::new();
    while after.len() < 6 {
        match read(&mut buf) {
            Ok(n) if after.is_empty() => {
                assert!(n > 0);
                before.extend_from_slice(&buf[..n]);
            }
            Ok(n) => after.push(Ok(buf[..n].to_vec())),
            Err(why) => after.push(Err(why.to_string())),
        }
    }
    (before, after)
}

#[test]
fn decoder_is_read_on_after_its_error() {
    for cut in 1..9 {
        let mut data = gz();
        data.truncate(gz().len() - cut);
        let mut raw = libflate::gzip::Decoder::new(data.as_slice()).unwrap();
        let mut decompressor = Decompressor::gz(data.clone()).unwrap();
        assert_eq!(reads(|buf| decompressor.read(buf)), reads(|buf| raw.read(buf)));
    }
    for cut in 1..30 {
        let mut data = xz();
        data.truncate(xz().len() - cut);
        let mut raw = xz2::read::XzDecoder::new(data.as_slice());
        let mut decompressor = Decompressor::xz(data.clone()).unwrap();
        assert_eq!(reads(|buf| decompressor.read(buf)), reads(|buf| raw.read(buf)));
    }
    for data in vec![TEXT.to_vec(), [xz(), TEXT.to_vec()].concat(), [xz(), xz()].concat()] {
        let mut raw = xz2::read::XzDecoder::new(data.as_slice());
        let mut decompressor = Decompressor::xz(data.clone()).unwrap();
        assert_eq!(reads(|buf| decompressor.read(buf)), reads(|buf| raw.read(buf)));
    }
    let mut data = lz4();
    data[5] ^= 0xff;
    for data in vec![TEXT.to_vec(), data] {
        let mut raw = lz4::Decoder::new(data.as_slice()).unwrap();
        let mut decompressor = Decompressor::lz4(data.clone()).unwrap();
        assert_eq!(reads(|buf| decompressor.read(buf)), reads(|buf| raw.read(buf)));
    }
}

#[test]
fn pieces_make_up_the_content() {
    for size in 1..TEXT.len() + 2 {
        assert_eq!(read_all(Decompressor::gz(gz()).unwrap(), size), TEXT);
    }
}

#[test]
fn reading_fills_what_fits() {
    let mut decompressor = Decompressor::none(vec![1, 2, 3]).unwrap();
    let mut buf = vec![9; 2];
    assert_eq!(decompressor.read(&mut buf).unwrap(), 2);
    assert_eq!(buf, vec![1, 2]);
    assert_eq!(decompressor.read(&mut buf).unwrap(), 1);
    assert_eq!(buf, vec![3, 2]);
    assert_eq!(decompressor.read(&mut buf).unwrap(), 0);
    assert_eq!(buf, vec![3, 2]);
}

#[test]
fn decoded_data_is_taken_over() {
    let error = |text: &str| std::io::Error::new(std::io::ErrorKind::Other, text.to_string());
    let decoded = |read: Vec<u8>, end| Ok(Decoded { read, end, decoder: Decoder::Plain });
    let whole = Decompressor::from_decoded(decoded(TEXT.to_vec(), Ok(TEXT.len()))).unwrap();
    assert_eq!(read_all(whole, 8), TEXT);
    let damaged = decoded(vec![7], Err(error("damage")));
    let mut damaged = Decompressor::from_decoded(damaged).unwrap();
    let mut buf = vec![0; 4];
    assert_eq!(damaged.read(&mut buf).unwrap(), 1);
    assert_eq!(buf[0], 7);
    assert_eq!(damaged.read(&mut buf).err().unwrap().to_string(), "damage");
    let none = Decompressor::from_decoded(Err(error("memory")));
    assert_eq!(none.err().unwrap().to_string(), "memory");
}

#[test]
fn broken_off_lz4_data_is_not_refused() {
    let data = lz4();
    let decompressor = Decompressor::lz4(data[..3].to_vec()).unwrap();
    assert!(read_all(decompressor, 8).is_empty());
}
