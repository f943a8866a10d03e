//! Checksums of fetched files, and what is done with a file once it was fetched.
use crate::dist::entries::{ChecksumKind, Compression, EntryRequest, EntryRequestView};
use crate::text::{chars_of, described, describes};
use md5::Md5;
use sha1::Sha1;
use sha2::{Digest, Sha256};
use std::io::Write;
use vstd::prelude::*;
use vstd::string::*;

verus! {

/// The SHA-256 digest of `bytes`.
pub uninterp spec fn sha256_digest(bytes: Seq<u8>) -> Seq<u8>;

/// The SHA-1 digest of `bytes`.
pub uninterp spec fn sha1_digest(bytes: Seq<u8>) -> Seq<u8>;

/// The MD5 digest of `bytes`.
pub uninterp spec fn md5_digest(bytes: Seq<u8>) -> Seq<u8>;

/// What a GZIP file holds, as `flate2::write::GzDecoder` decodes it; `None` where it
/// refuses the file.
pub uninterp spec fn gunzipped(bytes: Seq<u8>) -> Option<Seq<u8>>;

/// What the streams of an XZ file hold, as the multi-stream decoder of `xz2` decodes
/// them; `None` where it refuses the file.
pub uninterp spec fn unxzed(bytes: Seq<u8>) -> Option<Seq<u8>>;

/// Computes a SHA-256 digest: `sha2::Sha256::digest`. It takes 32 bytes.
#[verifier::external_body]
fn sha256(bytes: &[u8]) -> (r: Vec<u8>)
    ensures
        r@ == sha256_digest(bytes@),
        r@.len() == 32,
{
    Sha256::digest(bytes).to_vec()
}

/// Computes a SHA-1 digest: `sha1::Sha1::digest`. It takes 20 bytes.
#[verifier::external_body]
fn sha1(bytes: &[u8]) -> (r: Vec<u8>)
    ensures
        r@ == sha1_digest(bytes@),
        r@.len() == 20,
{
    Sha1::digest(bytes).to_vec()
}

/// Computes an MD5 digest: `md5::Md5::digest`. It takes 16 bytes.
#[verifier::external_body]
fn md5(bytes: &[u8]) -> (r: Vec<u8>)
    ensures
        r@ == md5_digest(bytes@),
        r@.len() == 16,
{
    Md5::digest(bytes).to_vec()
}

/// Decodes a GZIP file: `flate2::write::GzDecoder`, to which the whole file is
/// written. What comes out, and whether the file is refused, depends on the file
/// alone.
#[verifier::external_body]
fn gunzip(bytes: &[u8]) -> (r: Result<Vec<u8>, std::io::Error>)
    ensures
        r matches Ok(content) ==> gunzipped(bytes@) == Some(content@),
        r is Err ==> gunzipped(bytes@) is None,
{
    let mut decoder = flate2::write::GzDecoder::new(Vec::new());
    decoder.write_all(bytes)?;
    decoder.finish()
}

/// Decodes an XZ file: `xz2::write::XzDecoder::new_multi_decoder`, to which the whole
/// file is written. What comes out depends on the file alone. That something comes
/// out is not promised: the decoder reports an error also where it gets no memory.
#[verifier::external_body]
fn unxz(bytes: &[u8]) -> (r: Result<Vec<u8>, std::io::Error>)
    ensures
        r matches Ok(content) ==> unxzed(bytes@) == Some(content@),
{
    let mut decoder = xz2::write::XzDecoder::new_multi_decoder(Vec::new());
    decoder.write_all(bytes)?;
    decoder.finish()
}

/// The digest of `bytes` by the method `kind`.
pub open spec fn digest(kind: ChecksumKind, bytes: Seq<u8>) -> Seq<u8> {
    match kind {
        ChecksumKind::Sha256 => sha256_digest(bytes),
        ChecksumKind::Sha1 => sha1_digest(bytes),
        ChecksumKind::Md5 => md5_digest(bytes),
    }
}

/// The hexadecimal digits of `bytes`, two for each byte.
pub open spec fn hex(bytes: Seq<u8>) -> Seq<char> {
    Seq::new(
        2 * bytes.len(),
        |i: int|
            "0123456789abcdef"@[if i % 2 == 0 {
                bytes[i / 2] / 16
            } else {
                bytes[i / 2] % 16
            } as int],
    )
}

/// Different bytes have different hexadecimal digits.
pub proof fn hex_tells_bytes_apart(a: Seq<u8>, b: Seq<u8>)
    requires
        hex(a) == hex(b),
    ensures
        a == b,
{
    reveal_strlit("0123456789abcdef");
    assert(hex(a).len() == 2 * a.len());
    assert(hex(b).len() == 2 * b.len());
    assert forall|i: int| 0 <= i < a.len() implies a[i] == b[i] by {
        assert((2 * i) / 2 == i && (2 * i) % 2 == 0);
        assert((2 * i + 1) / 2 == i && (2 * i + 1) % 2 == 1);
        let (high_a, high_b) = (a[i] as int / 16, b[i] as int / 16);
        let (low_a, low_b) = (a[i] as int % 16, b[i] as int % 16);
        assert(hex(a)[2 * i] == "0123456789abcdef"@[high_a]);
        assert(hex(b)[2 * i] == "0123456789abcdef"@[high_b]);
        assert(hex(a)[2 * i + 1] == "0123456789abcdef"@[low_a]);
        assert(hex(b)[2 * i + 1] == "0123456789abcdef"@[low_b]);
        if high_a != high_b {
            lemma_hex_digits_differ(high_a, high_b);
        }
        if low_a != low_b {
            lemma_hex_digits_differ(low_a, low_b);
        }
    }
    assert(a =~= b);
}

proof fn lemma_hex_digits_differ(m: int, n: int)
    requires
        0 <= m < 16,
        0 <= n < 16,
        m != n,
    ensures
        "0123456789abcdef"@[m] != "0123456789abcdef"@[n],
{
    reveal_strlit("0123456789abcdef");
}

/// Whether `sum` is the checksum of `bytes` by the method `kind`.
pub open spec fn has_checksum(kind: ChecksumKind, bytes: Seq<u8>, sum: Seq<char>) -> bool {
    hex(digest(kind, bytes)) == sum
}

/// Tests whether `sum` is written in the hexadecimal digits of `bytes`.
pub fn is_hex_of(bytes: &Vec<u8>, sum: &str) -> (r: bool)
    ensures
        r == (hex(bytes@) == sum@),
{
    let digits = chars_of("0123456789abcdef");
    let text = chars_of(sum);
    proof {
        reveal_strlit("0123456789abcdef");
    }
    if text.len() % 2 != 0 || text.len() / 2 != bytes.len() {
        assert(hex(bytes@).len() != sum@.len());
        return false;
    }
    let len = text.len();
    for i in 0..bytes.len()
        invariant
            len == text@.len(),
            len == 2 * bytes@.len(),
            text@ == sum@,
            digits@ == "0123456789abcdef"@,
            digits@.len() == 16,
            forall|k: int| 0 <= k < 2 * i ==> #[trigger] text@[k] == hex(bytes@)[k],
    {
        let b = bytes[i];
        proof {
            assert((2 * i) / 2 == i && (2 * i) % 2 == 0);
            assert((2 * i + 1) / 2 == i && (2 * i + 1) % 2 == 1);
            assert(hex(bytes@)[2 * i] == digits@[b as int / 16]);
            assert(hex(bytes@)[2 * i + 1] == digits@[b as int % 16]);
        }
        if text[2 * i] != digits[(b / 16) as usize] || text[2 * i + 1] != digits[(b % 16) as usize] {
            return false;
        }
    }
    assert(hex(bytes@) =~= sum@);
    true
}

/// Tests whether `sum` is the checksum of `bytes` by the method `kind`.
pub fn check_sum(kind: ChecksumKind, bytes: &[u8], sum: &str) -> (r: bool)
    ensures
        r == has_checksum(kind, bytes@, sum@),
{
    let computed = match kind {
        ChecksumKind::Sha256 => sha256(bytes),
        ChecksumKind::Sha1 => sha1(bytes),
        ChecksumKind::Md5 => md5(bytes),
    };
    is_hex_of(&computed, sum)
}

/// Why a fetched file is not kept.
#[allow(inconsistent_fields)]
pub enum FetchError {
    /// The file could not be fetched.
    Fetch { why: async_fetcher::Error },
    /// The fetched file does not have the checksum that the release file lists.
    FetchedChecksum,
    /// The fetched file could not be decompressed.
    Decompress { why: std::io::Error },
    /// The decompressed file does not have the checksum that the release file lists.
    DestinationChecksum,
}

impl FetchError {
    /// Whether `text` is the error in words. A failure of another library is described by
    /// the words of its own error.
    pub open spec fn says(self, text: Seq<char>) -> bool {
        match self {
            FetchError::Fetch { why } => describes(why, ""@, text),
            FetchError::FetchedChecksum => text == "checksum of the fetched file does not match"@,
            FetchError::Decompress { why } => describes(why, "failed to decompress: "@, text),
            FetchError::DestinationChecksum => text
                == "checksum of the decompressed file does not match"@,
        }
    }

    /// Puts the error in words.
    pub fn message(&self) -> (r: String)
        ensures
            self.says(r@),
    {
        match self {
            FetchError::Fetch { why } => described("", why),
            FetchError::FetchedChecksum => "checksum of the fetched file does not match".to_owned(),
            FetchError::Decompress { why } => described("failed to decompress: ", why),
            FetchError::DestinationChecksum => "checksum of the decompressed file does not match".to_owned(),
        }
    }
}

/// What the fetched file `bytes` holds, where it is compressed as `compression` says;
/// `None` where it is damaged.
pub open spec fn unpacked(compression: Option<Compression>, bytes: Seq<u8>) -> Option<Seq<u8>> {
    match compression {
        Some(Compression::Xz) => unxzed(bytes),
        Some(Compression::Gz) => gunzipped(bytes),
        _ => Some(bytes),
    }
}

/// Whether decompressing `bytes`, which are compressed as `compression` says, gives `content`.
pub closed spec fn is_unpacked(
    compression: Option<Compression>,
    bytes: Seq<u8>,
    content: Result<Vec<u8>, std::io::Error>,
) -> bool {
    match compression {
        Some(Compression::Xz) => exists|file: &[u8]|
            file@ == bytes && #[trigger] call_ensures(unxz, (file,), content),
        Some(Compression::Gz) => exists|file: &[u8]|
            file@ == bytes && #[trigger] call_ensures(gunzip, (file,), content),
        _ => content matches Ok(all) && all@ == bytes,
    }
}

impl EntryRequestView {
    /// Whether `r` is what becomes of a file of which decompressing gave `content`: it is
    /// kept where it has the checksum of the file as it is kept.
    pub open spec fn accepts(
        self,
        content: Result<Vec<u8>, std::io::Error>,
        r: Result<Vec<u8>, FetchError>,
    ) -> bool {
        match content {
            Ok(kept) => if self.is_kept(kept@) {
                r == Ok::<Vec<u8>, FetchError>(kept)
            } else {
                r == Err::<Vec<u8>, FetchError>(FetchError::DestinationChecksum)
            },
            Err(why) => r == Err::<Vec<u8>, FetchError>(FetchError::Decompress { why }),
        }
    }

    /// Whether `bytes` have the checksum of the file as it is fetched.
    pub open spec fn is_fetched(self, bytes: Seq<u8>) -> bool {
        has_checksum(self.kind, bytes, self.fetched_checksum)
    }

    /// Whether `bytes` have the checksum of the file as it is kept.
    pub open spec fn is_kept(self, bytes: Seq<u8>) -> bool {
        has_checksum(self.kind, bytes, self.dest_checksum)
    }
}

impl EntryRequest {
    /// Tests whether the file need not be fetched, since what is kept at its
    /// destination is the file already.
    pub fn is_current(&self, kept: Option<&[u8]>) -> (r: bool)
        ensures
            r == (kept matches Some(bytes) && self@.is_kept(bytes@)),
    {
        match kept {
            Some(bytes) => check_sum(self.kind, bytes, self.dest_checksum.as_str()),
            None => false,
        }
    }

    /// Checks the file that was fetched, decompresses it if it is compressed, checks
    /// what came out, and returns it. That an XZ file can be decompressed is not
    /// promised, since that takes memory that the machine may not have.
    pub fn finish(&self, fetched: Vec<u8>) -> (r: Result<Vec<u8>, FetchError>)
        ensures
            (r is Err && r->Err_0 is FetchedChecksum) <==> !self@.is_fetched(fetched@),
            r matches Ok(kept) ==> {
                &&& unpacked(self@.compression, fetched@) == Some(kept@)
                &&& self@.is_kept(kept@)
            },
            (r is Err && r->Err_0 is DestinationChecksum) ==> {
                &&& unpacked(self@.compression, fetched@) matches Some(kept)
                &&& !self@.is_kept(kept)
            },
            self@.compression != Some(Compression::Xz) ==> {
                &&& r is Ok <==> {
                    &&& self@.is_fetched(fetched@)
                    &&& unpacked(self@.compression, fetched@) matches Some(kept)
                    &&& self@.is_kept(kept)
                }
                &&& (r is Err && r->Err_0 is Decompress) <==> {
                    &&& self@.is_fetched(fetched@)
                    &&& unpacked(self@.compression, fetched@) is None
                }
            },
            (r is Err && r->Err_0 is Decompress) ==> self@.compression is Some,
            r is Err ==> !(r->Err_0 is Fetch),
            self@.is_fetched(fetched@) ==> exists|content: Result<Vec<u8>, std::io::Error>|
                #[trigger] is_unpacked(self@.compression, fetched@, content) && self@.accepts(
                    content,
                    r,
                ),
    {
        if !check_sum(self.kind, fetched.as_slice(), self.fetched_checksum.as_str()) {
            return Err(FetchError::FetchedChecksum);
        }
        let content = match self.compression {
            Some(Compression::Xz) => unxz(fetched.as_slice()),
            Some(Compression::Gz) => gunzip(fetched.as_slice()),
            _ => Ok(fetched),
        };
        assert(is_unpacked(self@.compression, fetched@, content));
        self.accept(content)
    }

    /// Checks what decompressing the fetched file gave.
    pub fn accept(&self, content: Result<Vec<u8>, std::io::Error>) -> (r: Result<
        Vec<u8>,
        FetchError,
    >)
        ensures
            self@.accepts(content, r),
    {
        match content {
            Ok(kept) => {
                if check_sum(self.kind, kept.as_slice(), self.dest_checksum.as_str()) {
                    Ok(kept)
                } else {
                    Err(FetchError::DestinationChecksum)
                }
            },
            Err(why) => Err(FetchError::Decompress { why }),
        }
    }
}

/// Bytes are written in hexadecimal digits one after the other, each in two digits, of which the
/// first stands for its sixteens.
pub proof fn hex_is_written_byte_by_byte(a: Seq<u8>, b: Seq<u8>, byte: u8)
    ensures
        hex(a + b) == hex(a) + hex(b),
        hex(seq![]) == Seq::<char>::empty(),
        hex(seq![byte]) == seq![
            (if byte / 16 < 10 {
                48 + byte / 16
            } else {
                87 + byte / 16
            }) as char,
            (if byte % 16 < 10 {
                48 + byte % 16
            } else {
                87 + byte % 16
            }) as char,
        ],
{
    reveal_strlit("0123456789abcdef");
    assert(hex(a + b) =~= hex(a) + hex(b)) by {
        assert forall|i: int| 0 <= i < hex(a + b).len() implies hex(a + b)[i] == (hex(a) + hex(
            b,
        ))[i] by {
            if i < 2 * a.len() {
                assert((a + b)[i / 2] == a[i / 2]);
            } else {
                let k = i - 2 * a.len();
                assert(i / 2 == a.len() + k / 2);
                assert(i % 2 == k % 2);
                assert((a + b)[i / 2] == b[k / 2]);
            }
        }
    }
    assert(hex(Seq::<u8>::empty()) =~= Seq::<char>::empty());
    let one = seq![byte];
    let high = byte as int / 16;
    let low = byte as int % 16;
    lemma_hex_digit(high);
    lemma_hex_digit(low);
    assert(one[0] == byte);
    assert(hex(one)[0] == "0123456789abcdef"@[high]);
    assert(hex(one)[1] == "0123456789abcdef"@[low]);
    assert(hex(one) =~= seq!["0123456789abcdef"@[high], "0123456789abcdef"@[low]]);
}

proof fn lemma_hex_digit(n: int)
    requires
        0 <= n < 16,
    ensures
        "0123456789abcdef"@[n] == (if n < 10 {
            48 + n
        } else {
            87 + n
        }) as char,
{
    reveal_strlit("0123456789abcdef");
}

/// A checksum is told by the digest of its own method, in hexadecimal digits.
pub proof fn checksums_are_told_by_their_digests(
    kind: ChecksumKind,
    bytes: &[u8],
    sum: &str,
    r: bool,
)
    requires
        call_ensures(check_sum, (kind, bytes, sum), r),
    ensures
        kind is Sha256 ==> r == (hex(sha256_digest(bytes@)) == sum@),
        kind is Sha1 ==> r == (hex(sha1_digest(bytes@)) == sum@),
        kind is Md5 ==> r == (hex(md5_digest(bytes@)) == sum@),
{
}

/// A digest is that of the method that is asked for.
pub proof fn digests_are_those_of_their_methods(bytes: Seq<u8>)
    ensures
        digest(ChecksumKind::Sha256, bytes) == sha256_digest(bytes),
        digest(ChecksumKind::Sha1, bytes) == sha1_digest(bytes),
        digest(ChecksumKind::Md5, bytes) == md5_digest(bytes),
{
}

/// A file is current exactly where one is kept and its checksum is the one that the release file
/// lists for it, whether it is fetched in compressed form or not.
pub proof fn kept_file_is_current_by_its_checksum(
    request: &EntryRequest,
    kept: Option<&[u8]>,
    r: bool,
)
    requires
        call_ensures(EntryRequest::is_current, (request, kept), r),
    ensures
        kept is None ==> !r,
        kept matches Some(bytes) ==> r == (hex(digest(request.kind, bytes@))
            == request.dest_checksum@),
{
}

/// What is kept of a fetched file has the checksum that the release file lists for it, is what the
/// fetched file holds, and the fetched file has the checksum that is listed for that. Whatever is
/// fetched otherwise is refused, for the first of these that does not hold.
pub proof fn finished_file_has_the_listed_checksums(
    request: &EntryRequest,
    fetched: Vec<u8>,
    r: Result<Vec<u8>, FetchError>,
)
    requires
        call_ensures(EntryRequest::finish, (request, fetched), r),
    ensures
        hex(digest(request.kind, fetched@)) != request.fetched_checksum@ <==> r matches Err(
            FetchError::FetchedChecksum,
        ),
        r matches Ok(kept) ==> {
            &&& hex(digest(request.kind, kept@)) == request.dest_checksum@
            &&& request.compression is None || request.compression == Some(Compression::Lz4)
                ==> kept@ == fetched@
            &&& request.compression == Some(Compression::Gz) ==> gunzipped(fetched@) == Some(kept@)
            &&& request.compression == Some(Compression::Xz) ==> unxzed(fetched@) == Some(kept@)
        },
        request.compression is None && hex(digest(request.kind, fetched@))
            == request.fetched_checksum@ ==> if hex(digest(request.kind, fetched@))
            == request.dest_checksum@ {
            r matches Ok(kept) && kept@ == fetched@
        } else {
            r matches Err(FetchError::DestinationChecksum)
        },
        request.compression == Some(Compression::Gz) && hex(digest(request.kind, fetched@))
            == request.fetched_checksum@ ==> match gunzipped(fetched@) {
            Some(content) => if hex(digest(request.kind, content)) == request.dest_checksum@ {
                r matches Ok(kept) && kept@ == content
            } else {
                r matches Err(FetchError::DestinationChecksum)
            },
            None => r matches Err(FetchError::Decompress { .. }),
        },
        r matches Err(FetchError::DestinationChecksum) && request.compression == Some(
            Compression::Xz,
        ) ==> (unxzed(fetched@) matches Some(content) && hex(digest(request.kind, content))
            != request.dest_checksum@),
{
}

/// What decompressing gave is kept where it has the listed checksum, and refused otherwise.
pub proof fn content_is_accepted_by_its_checksum(
    request: &EntryRequest,
    content: Result<Vec<u8>, std::io::Error>,
    r: Result<Vec<u8>, FetchError>,
)
    requires
        call_ensures(EntryRequest::accept, (request, content), r),
    ensures
        match content {
            Ok(kept) => if hex(digest(request.kind, kept@)) == request.dest_checksum@ {
                r matches Ok(all) && all@ == kept@
            } else {
                r matches Err(FetchError::DestinationChecksum)
            },
            Err(e) => r matches Err(FetchError::Decompress { why }) && why == e,
        },
{
}

/// Two files that both are taken for the current one have the same digest.
pub proof fn current_files_have_one_digest(
    request: &EntryRequest,
    a: &[u8],
    b: &[u8],
)
    requires
        call_ensures(EntryRequest::is_current, (request, Some(a)), true),
        call_ensures(EntryRequest::is_current, (request, Some(b)), true),
    ensures
        digest(request.kind, a@) == digest(request.kind, b@),
{
    kept_file_is_current_by_its_checksum(request, Some(a), true);
    kept_file_is_current_by_its_checksum(request, Some(b), true);
    hex_tells_bytes_apart(digest(request.kind, a@), digest(request.kind, b@));
}

/// An error in words says which step failed.
pub proof fn fetch_errors_name_the_step(error: FetchError, text: Seq<char>)
    requires
        error.says(text),
    ensures
        error is FetchedChecksum ==> text == "checksum of the fetched file does not match"@,
        error is DestinationChecksum ==> text == "checksum of the decompressed file does not match"@,
        error matches FetchError::Decompress { why } ==> exists|words: String| #[trigger]
            to_string_from_display_ensures::<std::io::Error>(&why, words) && text
                == "failed to decompress: "@ + words@,
        error matches FetchError::Fetch { why } ==> exists|words: String| #[trigger]
            to_string_from_display_ensures::<async_fetcher::Error>(&why, words) && text == words@,
{
    reveal_strlit("");
    if let FetchError::Fetch { why } = error {
        let words = choose|words: String| #[trigger]
            to_string_from_display_ensures::<async_fetcher::Error>(&why, words) && text == ""@
                + words@;
        assert(""@ + words@ =~= words@);
    }
}

/// What an error is put in is what it says.
pub proof fn fetch_errors_are_put_in_words(error: &FetchError, text: String)
    requires
        call_ensures(FetchError::message, (error,), text),
    ensures
        error.says(text@),
{
}

/// A fetched file that has its listed checksum is decompressed by the outside decoder of its kind,
/// whatever it is and however long, and what that gives is accepted or refused.
proof fn fetched_files_are_handed_to_their_decoders(
    request: &EntryRequest,
    fetched: Vec<u8>,
    r: Result<Vec<u8>, FetchError>,
)
    requires
        call_ensures(EntryRequest::finish, (request, fetched), r),
        hex(digest(request.kind, fetched@)) == request.fetched_checksum@,
    ensures
        request.compression == Some(Compression::Xz) ==> exists|
            file: &[u8],
            content: Result<Vec<u8>, std::io::Error>,
        |
            file@ == fetched@ && #[trigger] call_ensures(unxz, (file,), content)
                && request@.accepts(content, r),
        request.compression == Some(Compression::Gz) ==> exists|
            file: &[u8],
            content: Result<Vec<u8>, std::io::Error>,
        |
            file@ == fetched@ && #[trigger] call_ensures(gunzip, (file,), content)
                && request@.accepts(content, r),
{
    let content = choose|content: Result<Vec<u8>, std::io::Error>| #[trigger]
        is_unpacked(request@.compression, fetched@, content) && request@.accepts(content, r);
    if request.compression == Some(Compression::Xz) {
        let file = choose|file: &[u8]|
            file@ == fetched@ && #[trigger] call_ensures(unxz, (file,), content);
        assert(call_ensures(unxz, (file,), content));
    } else if request.compression == Some(Compression::Gz) {
        let file = choose|file: &[u8]|
            file@ == fetched@ && #[trigger] call_ensures(gunzip, (file,), content);
        assert(call_ensures(gunzip, (file,), content));
    }
}

} // verus!
