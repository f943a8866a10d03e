//! Reading of compressed files.
use libflate::gzip::Decoder as GzDecoder;
use lz4::Decoder as Lz4Decoder;
use std::collections::VecDeque;
use std::io::Read;
use vstd::prelude::*;
use xz2::bufread::XzDecoder;

verus! {

/// How a file is compressed.
#[derive(Copy, Clone, Debug, PartialEq, Eq, Structural)]
pub enum Compression {
    Plain,
    Gz,
    Xz,
    Lz4,
}

/// What a GZIP decoder makes of a file: `None` where it refuses the header, and
/// otherwise the content, or `None` where the rest of the file is damaged.
pub uninterp spec fn gz_content(bytes: Seq<u8>) -> Option<Option<Seq<u8>>>;

/// What an LZ4 decoder makes of a file: its content, or `None` where the decoder
/// refuses the file. A file that breaks off is not refused for that.
pub uninterp spec fn lz4_content(bytes: Seq<u8>) -> Option<Seq<u8>>;

/// What an XZ decoder makes of a file: its content, where the file is one whole stream
/// and nothing else, or `None` where it is damaged, breaks off, or goes on after its
/// first stream.
pub uninterp spec fn xz_content(bytes: Seq<u8>) -> Option<Seq<u8>>;

/// Whether `read`, the bytes that were read before the outcome `end`, is all that
/// a file with the content `content` holds.
pub open spec fn read_through(
    content: Option<Seq<u8>>,
    read: Seq<u8>,
    end: Result<usize, std::io::Error>,
) -> bool {
    match content {
        Some(all) => end is Ok && read == all,
        None => end is Err,
    }
}

/// The GZIP decoder of `libflate`, of which nothing is seen.
#[verifier::external_type_specification]
#[verifier::external_body]
#[verifier::reject_recursive_types(R)]
pub struct ExGzDecoder<R>(GzDecoder<R>);

/// The LZ4 decoder of `lz4`, of which nothing is seen.
#[verifier::external_type_specification]
#[verifier::external_body]
#[verifier::reject_recursive_types(R)]
pub struct ExLz4Decoder<R>(Lz4Decoder<R>);

/// The XZ decoder of `xz2` over data that lies in memory, of which nothing is seen.
#[verifier::external_type_specification]
#[verifier::external_body]
#[verifier::reject_recursive_types(R)]
pub struct ExXzDecoder<R>(XzDecoder<R>);

/// The decoder of a file, as it stands when it was read to its end or to its error.
pub enum Decoder {
    /// There is none, since the data is not compressed.
    Plain,
    Gz(GzDecoder<VecDeque<u8>>),
    Lz4(Lz4Decoder<VecDeque<u8>>),
    Xz(XzDecoder<VecDeque<u8>>),
}

/// What came of reading a decoder.
pub struct Decoded {
    /// What was read.
    pub read: Vec<u8>,
    /// How the reading ended.
    pub end: Result<usize, std::io::Error>,
    /// The decoder after the reading.
    pub decoder: Decoder,
}

/// Decodes GZIP data: `libflate::gzip::Decoder::new`, and the decoder read to its
/// end. The content depends on the data alone. How much of a damaged file comes
/// out before the damage is met is left open. Memory and stack are taken to suffice.
#[verifier::external_body]
fn decode_gz(bytes: Vec<u8>) -> (r: Result<Decoded, std::io::Error>)
    ensures
        r is Err <==> gz_content(bytes@) is None,
        r matches Ok(d) ==> read_through(gz_content(bytes@)->0, d.read@, d.end),
        r matches Ok(d) ==> d.decoder is Gz,
{
    let mut decoder = GzDecoder::new(VecDeque::from(bytes))?;
    let mut read = Vec::new();
    let end = decoder.read_to_end(&mut read);
    Ok(Decoded { read, end, decoder: Decoder::Gz(decoder) })
}

/// Decodes LZ4 data: `lz4::Decoder::new`, and the decoder read to its end. What a
/// reading without an error gives depends on the data alone. That there is none is
/// not promised: the decoder reports an error also where it gets no memory.
#[verifier::external_body]
fn decode_lz4(bytes: Vec<u8>) -> (r: Result<Decoded, std::io::Error>)
    ensures
        r matches Ok(d) ==> (d.end is Ok ==> lz4_content(bytes@) == Some(d.read@)),
        r matches Ok(d) ==> d.decoder is Lz4,
{
    let mut decoder = Lz4Decoder::new(VecDeque::from(bytes))?;
    let mut read = Vec::new();
    let end = decoder.read_to_end(&mut read);
    Ok(Decoded { read, end, decoder: Decoder::Lz4(decoder) })
}

/// Decodes XZ data: `xz2::bufread::XzDecoder::new`, and the decoder read to its end.
/// What a reading without an error gives depends on the data alone. That there is
/// none is not promised: the decoder reports an error also where it gets no memory.
#[verifier::external_body]
fn decode_xz(bytes: Vec<u8>) -> (r: Decoded)
    ensures
        r.end is Ok ==> xz_content(bytes@) == Some(r.read@),
        r.decoder is Xz,
{
    let mut decoder = XzDecoder::new(VecDeque::from(bytes));
    let mut read = Vec::new();
    let end = decoder.read_to_end(&mut read);
    Decoded { read, end, decoder: Decoder::Xz(decoder) }
}

/// Reads on after an error: `libflate::gzip::Decoder::read`. At most the buffer is filled.
/// What a decoder does after its error is left open.
#[verifier::external_body]
fn read_on_gz(decoder: &mut GzDecoder<VecDeque<u8>>, buf: &mut [u8]) -> (r: Result<
    usize,
    std::io::Error,
>)
    ensures
        r matches Ok(n) ==> n <= old(buf)@.len(),
        final(buf)@.len() == old(buf)@.len(),
{
    decoder.read(buf)
}

/// Reads on after an error: `lz4::Decoder::read`. At most the buffer is filled. What a
/// decoder does after its error is left open.
#[verifier::external_body]
fn read_on_lz4(decoder: &mut Lz4Decoder<VecDeque<u8>>, buf: &mut [u8]) -> (r: Result<
    usize,
    std::io::Error,
>)
    ensures
        r matches Ok(n) ==> n <= old(buf)@.len(),
        final(buf)@.len() == old(buf)@.len(),
{
    decoder.read(buf)
}

/// Reads on after an error: `xz2::bufread::XzDecoder::read`. At most the buffer is filled.
/// What a decoder does after its error is left open.
#[verifier::external_body]
fn read_on_xz(decoder: &mut XzDecoder<VecDeque<u8>>, buf: &mut [u8]) -> (r: Result<
    usize,
    std::io::Error,
>)
    ensures
        r matches Ok(n) ==> n <= old(buf)@.len(),
        final(buf)@.len() == old(buf)@.len(),
{
    decoder.read(buf)
}

/// Whether reading a GZIP decoder on after an error takes `decoder` and `buf` to what they become,
/// and gives `r`.
pub closed spec fn reads_on_gz(
    decoder: &mut GzDecoder<VecDeque<u8>>,
    buf: &mut [u8],
    r: Result<usize, std::io::Error>,
) -> bool {
    call_ensures(read_on_gz, (decoder, buf), r)
}

/// Whether reading an LZ4 decoder on after an error takes `decoder` and `buf` to what they become,
/// and gives `r`.
pub closed spec fn reads_on_lz4(
    decoder: &mut Lz4Decoder<VecDeque<u8>>,
    buf: &mut [u8],
    r: Result<usize, std::io::Error>,
) -> bool {
    call_ensures(read_on_lz4, (decoder, buf), r)
}

/// Whether reading an XZ decoder on after an error takes `decoder` and `buf` to what they become,
/// and gives `r`.
pub closed spec fn reads_on_xz(
    decoder: &mut XzDecoder<VecDeque<u8>>,
    buf: &mut [u8],
    r: Result<usize, std::io::Error>,
) -> bool {
    call_ensures(read_on_xz, (decoder, buf), r)
}

/// Decoded data and how far it was read.
struct Content {
    data: Vec<u8>,
    position: usize,
}

impl Content {
    #[verifier::type_invariant]
    spec fn in_bounds(self) -> bool {
        self.position <= self.data@.len()
    }

    spec fn remaining(self) -> Seq<u8> {
        self.data@.skip(self.position as int)
    }

    fn new(data: Vec<u8>) -> (r: Self)
        ensures
            r.remaining() == data@,
    {
        assert(data@.skip(0) == data@);
        Content { data, position: 0 }
    }

    fn is_empty(&self) -> (r: bool)
        ensures
            r == (self.remaining().len() == 0),
    {
        proof {
            use_type_invariant(self);
        }
        self.position == self.data.len()
    }

    fn read(&mut self, buf: &mut [u8]) -> (n: usize)
        ensures
            n == least(old(buf)@.len(), old(self).remaining().len()),
            final(buf)@ == old(self).remaining().take(n as int) + old(buf)@.skip(n as int),
            final(self).remaining() == old(self).remaining().skip(n as int),
    {
        proof {
            use_type_invariant(&*self);
        }
        let len = self.data.len();
        let left = len - self.position;
        let n = if buf.len() < left {
            buf.len()
        } else {
            left
        };
        let ghost before = buf@;
        let mut i: usize = 0;
        while i < n
            invariant
                len == self.data@.len(),
                i <= n <= len - self.position,
                n <= before.len(),
                buf@ == self.data@.subrange(
                    self.position as int,
                    self.position + i,
                ) + before.skip(i as int),
            decreases n - i,
        {
            buf[i] = self.data[self.position + i];
            assert(buf@ =~= self.data@.subrange(
                self.position as int,
                self.position + i + 1,
            ) + before.skip(i + 1));
            i = i + 1;
        }
        self.position = self.position + n;
        n
    }
}

/// The lesser of two lengths.
pub open spec fn least(a: nat, b: nat) -> nat {
    if a < b {
        a
    } else {
        b
    }
}

/// An error of an XZ decoder that has failed: `xz2::stream::Error::Program` as an error of
/// std. Nothing is promised of it.
#[verifier::external_body]
fn xz_failed() -> (r: std::io::Error) {
    xz2::stream::Error::Program.into()
}

/// A compressed file that is read as what it holds.
pub struct Decompressor {
    content: Content,
    failure: Option<std::io::Error>,
    decoder: Decoder,
    /// Whether an error was reported.
    reported: bool,
}

/// Whether the GZIP decoder makes `decoded` of the file `reader`.
pub closed spec fn is_decoded_gz(
    reader: Vec<u8>,
    decoded: Result<Decoded, std::io::Error>,
) -> bool {
    call_ensures(decode_gz, (reader,), decoded)
}

/// Whether the LZ4 decoder makes `decoded` of the file `reader`.
pub closed spec fn is_decoded_lz4(
    reader: Vec<u8>,
    decoded: Result<Decoded, std::io::Error>,
) -> bool {
    call_ensures(decode_lz4, (reader,), decoded)
}

/// Whether the XZ decoder makes `decoded` of the file `reader`.
pub closed spec fn is_decoded_xz(reader: Vec<u8>, decoded: Decoded) -> bool {
    call_ensures(decode_xz, (reader,), decoded)
}

/// Whether `r` is what was decoded, taken over: the error where there is no decoder, and
/// otherwise what was read and how the reading ended.
pub open spec fn is_taken_over(
    decoded: Result<Decoded, std::io::Error>,
    r: Result<Decompressor, std::io::Error>,
) -> bool {
    match decoded {
        Ok(d) => {
            &&& r matches Ok(taken)
            &&& taken.holds(d.read@, d.end)
            &&& taken.decoder() == d.decoder
        },
        Err(why) => r == Err::<Decompressor, std::io::Error>(why),
    }
}

/// Whether `r` is what becomes of `bytes` that are compressed as `variant` says: what
/// comes to be read is what they hold.
pub open spec fn is_opened(
    variant: Compression,
    bytes: Seq<u8>,
    r: Result<Decompressor, std::io::Error>,
) -> bool {
    match variant {
        Compression::Plain => r matches Ok(d) && d.is_fresh() && d.reads(Some(bytes)),
        Compression::Gz => {
            &&& r is Err <==> gz_content(bytes) is None
            &&& r matches Ok(d) ==> d.is_fresh() && d.reads(gz_content(bytes)->0)
        },
        Compression::Lz4 => r matches Ok(d) ==> d.is_fresh() && d.reads_unless_failing(
            lz4_content(bytes),
        ),
        Compression::Xz => {
            &&& r matches Ok(d)
            &&& d.is_fresh()
            &&& d.reads_unless_failing(xz_content(bytes))
            &&& d.keeps_failing()
        },
    }
}

impl Decompressor {
    /// What is still to be read.
    pub closed spec fn remaining(self) -> Seq<u8> {
        self.content.remaining()
    }

    /// The error to be reported after what is still to be read.
    pub closed spec fn failure(self) -> Option<std::io::Error> {
        self.failure
    }

    /// The decoder that is read on after an error.
    pub closed spec fn decoder(self) -> Decoder {
        self.decoder
    }

    /// Whether an error, once reported, is followed by errors alone.
    pub open spec fn keeps_failing(self) -> bool {
        self.decoder() is Xz
    }

    /// Whether an error was reported.
    pub closed spec fn has_reported(self) -> bool {
        self.reported
    }

    /// Whether no error was reported yet.
    pub open spec fn is_fresh(self) -> bool {
        !self.has_reported()
    }

    /// Whether reading ends in an error, after what is still to be read.
    pub open spec fn fails(self) -> bool {
        self.failure() is Some || (self.has_reported() && self.keeps_failing())
    }

    /// Whether reading gives `content`, or ends in an error where there is none.
    pub open spec fn reads(self, content: Option<Seq<u8>>) -> bool {
        match content {
            Some(all) => !self.fails() && self.remaining() == all,
            None => self.fails(),
        }
    }

    /// Whether reading, where it does not end in an error, gives `content`.
    pub open spec fn reads_unless_failing(self, content: Option<Seq<u8>>) -> bool {
        !self.fails() ==> content == Some(self.remaining())
    }

    /// Whether this is what a decoder gave: what was read from it, and how the reading
    /// ended.
    pub open spec fn holds(self, read: Seq<u8>, end: Result<usize, std::io::Error>) -> bool {
        &&& self.is_fresh()
        &&& self.remaining() == read
        &&& self.failure() == match end {
            Ok(_) => None::<std::io::Error>,
            Err(why) => Some(why),
        }
    }

    /// Takes over what a decoder gave: its error where it could not be made, and
    /// otherwise what was read from it, and how the reading ended.
    pub fn from_decoded(decoded: Result<Decoded, std::io::Error>) -> (r: Result<
        Self,
        std::io::Error,
    >)
        ensures
            is_taken_over(decoded, r),
    {
        match decoded {
            Ok(Decoded { read, end, decoder }) => {
                let failure = match end {
                    Ok(_) => None,
                    Err(why) => Some(why),
                };
                Ok(Decompressor { content: Content::new(read), failure, decoder, reported: false })
            },
            Err(why) => Err(why),
        }
    }

    /// Reads data that is not compressed.
    pub fn none(reader: Vec<u8>) -> (r: Result<Self, std::io::Error>)
        ensures
            is_opened(Compression::Plain, reader@, r),
    {
        Self::from_decoded(Ok(Decoded { read: reader, end: Ok(0), decoder: Decoder::Plain }))
    }

    /// Reads GZIP data. Data with a bad header is refused.
    pub fn gz(reader: Vec<u8>) -> (r: Result<Self, std::io::Error>)
        ensures
            is_opened(Compression::Gz, reader@, r),
            exists|decoded: Result<Decoded, std::io::Error>| #[trigger]
                is_decoded_gz(reader, decoded) && is_taken_over(decoded, r),
    {
        let decoded = decode_gz(reader);
        assert(is_decoded_gz(reader, decoded));
        Self::from_decoded(decoded)
    }

    /// Reads LZ4 data. The decoder may not be had, since that takes memory that the
    /// machine may not have; [`Decompressor::from_decoded`] says what comes of either.
    pub fn lz4(reader: Vec<u8>) -> (r: Result<Self, std::io::Error>)
        ensures
            is_opened(Compression::Lz4, reader@, r),
            exists|decoded: Result<Decoded, std::io::Error>| #[trigger]
                is_decoded_lz4(reader, decoded) && is_taken_over(decoded, r),
    {
        let decoded = decode_lz4(reader);
        assert(is_decoded_lz4(reader, decoded));
        Self::from_decoded(decoded)
    }

    /// Reads XZ data. That reading ends without an error is not promised, since it takes
    /// memory that the machine may not have; [`Decompressor::from_decoded`] says what comes
    /// of either.
    pub fn xz(reader: Vec<u8>) -> (r: Result<Self, std::io::Error>)
        ensures
            is_opened(Compression::Xz, reader@, r),
            exists|decoded: Decoded| #[trigger]
                is_decoded_xz(reader, decoded) && is_taken_over(Ok(decoded), r),
    {
        let decoded = decode_xz(reader);
        assert(is_decoded_xz(reader, decoded));
        Self::from_decoded(Ok(decoded))
    }

    /// Reads data that is compressed as `variant` says, as the constructor for that
    /// compression does.
    pub fn from_variant(reader: Vec<u8>, variant: Compression) -> (r: Result<
        Self,
        std::io::Error,
    >)
        ensures
            is_opened(variant, reader@, r),
            variant is Plain ==> call_ensures(Decompressor::none, (reader,), r),
            variant is Gz ==> call_ensures(Decompressor::gz, (reader,), r),
            variant is Lz4 ==> call_ensures(Decompressor::lz4, (reader,), r),
            variant is Xz ==> call_ensures(Decompressor::xz, (reader,), r),
    {
        match variant {
            Compression::Xz => Decompressor::xz(reader),
            Compression::Gz => Decompressor::gz(reader),
            Compression::Lz4 => Decompressor::lz4(reader),
            Compression::Plain => Decompressor::none(reader),
        }
    }

    /// Reads as many bytes as are left and fit into `buf`, and returns how many
    /// they are. At the end of a damaged file the error is returned. After that the decoder
    /// itself is read on: that of a damaged XZ file goes on failing, and what another does
    /// is left open.
    pub fn read(&mut self, buf: &mut [u8]) -> (r: Result<usize, std::io::Error>)
        ensures
            old(self).is_fresh() ==> {
                &&& r is Err <==> old(self).remaining().len() == 0 && old(self).fails() && old(
                    buf,
                )@.len() > 0
                &&& match r {
                    Ok(n) => {
                        &&& n == least(old(buf)@.len(), old(self).remaining().len())
                        &&& final(buf)@ == old(self).remaining().take(n as int) + old(buf)@.skip(
                            n as int,
                        )
                        &&& final(self).remaining() == old(self).remaining().skip(n as int)
                        &&& final(self).failure() == old(self).failure()
                        &&& final(self).is_fresh()
                    },
                    Err(why) => {
                        &&& old(self).failure() == Some(why)
                        &&& final(buf)@ == old(buf)@
                        &&& final(self).remaining() == old(self).remaining()
                        &&& final(self).failure() is None
                        &&& final(self).has_reported()
                    },
                }
            },
            old(self).is_fresh() ==> final(self).decoder() == old(self).decoder(),
            old(self).has_reported() ==> {
                &&& old(self).keeps_failing() && old(buf)@.len() > 0 ==> r is Err
                &&& r matches Ok(n) ==> n <= old(buf)@.len()
                &&& final(buf)@.len() == old(buf)@.len()
                &&& final(self).has_reported()
                &&& old(self).decoder() is Plain ==> r == Ok::<usize, std::io::Error>(0)
                    && final(self).decoder() is Plain
            },
            old(self).has_reported() ==> (old(self).decoder() matches Decoder::Gz(held) ==> exists|
                decoder: &mut GzDecoder<VecDeque<u8>>,
                into: &mut [u8],
                |
                {
                    &&& #[trigger] reads_on_gz(decoder, into, r)
                    &&& *decoder == held
                    &&& final(self).decoder() == Decoder::Gz(*final(decoder))
                    &&& (*into)@ == old(buf)@
                    &&& (*final(into))@ == final(buf)@
                }),
            old(self).has_reported() ==> (old(self).decoder() matches Decoder::Lz4(held) ==> exists|
                decoder: &mut Lz4Decoder<VecDeque<u8>>,
                into: &mut [u8],
                |
                {
                    &&& #[trigger] reads_on_lz4(decoder, into, r)
                    &&& *decoder == held
                    &&& final(self).decoder() == Decoder::Lz4(*final(decoder))
                    &&& (*into)@ == old(buf)@
                    &&& (*final(into))@ == final(buf)@
                }),
            old(self).has_reported() ==> (old(self).decoder() matches Decoder::Xz(held) ==> exists|
                decoder: &mut XzDecoder<VecDeque<u8>>,
                into: &mut [u8],
                given: Result<usize, std::io::Error>,
                |
                {
                    &&& #[trigger] reads_on_xz(decoder, into, given)
                    &&& *decoder == held
                    &&& final(self).decoder() == Decoder::Xz(*final(decoder))
                    &&& (*into)@ == old(buf)@
                    &&& (*final(into))@ == final(buf)@
                    &&& given is Err || old(buf)@.len() == 0 ==> r == given
                }),
            final(self).keeps_failing() == old(self).keeps_failing(),
    {
        proof {
            assert forall|
                decoder: &mut GzDecoder<VecDeque<u8>>,
                into: &mut [u8],
                r: Result<usize, std::io::Error>,
            | #[trigger] call_ensures(read_on_gz, (decoder, into), r) implies reads_on_gz(
                decoder,
                into,
                r,
            ) by {}
            assert forall|
                decoder: &mut Lz4Decoder<VecDeque<u8>>,
                into: &mut [u8],
                r: Result<usize, std::io::Error>,
            | #[trigger] call_ensures(read_on_lz4, (decoder, into), r) implies reads_on_lz4(
                decoder,
                into,
                r,
            ) by {}
            assert forall|
                decoder: &mut XzDecoder<VecDeque<u8>>,
                into: &mut [u8],
                r: Result<usize, std::io::Error>,
            | #[trigger] call_ensures(read_on_xz, (decoder, into), r) implies reads_on_xz(
                decoder,
                into,
                r,
            ) by {}
        }
        if self.reported {
            return match &mut self.decoder {
                Decoder::Plain => Ok(0),
                Decoder::Gz(decoder) => read_on_gz(decoder, buf),
                Decoder::Lz4(decoder) => read_on_lz4(decoder, buf),
                Decoder::Xz(decoder) => match read_on_xz(decoder, buf) {
                    // Only a read into an empty buffer can succeed here.
                    Ok(_) if buf.len() > 0 => Err(xz_failed()),
                    r => r,
                },
            };
        }
        if self.content.is_empty() && buf.len() > 0 {
            if let Some(why) = self.failure.take() {
                self.reported = true;
                return Err(why);
            }
        }
        Ok(self.content.read(buf))
    }
}

/// A damaged file that goes on failing fails whenever it is read at its end, also after
/// it has failed.
pub proof fn lasting_failure_lasts(before: Decompressor, after: Decompressor)
    requires
        before.fails(),
        before.keeps_failing(),
        after.has_reported(),
        after.keeps_failing() == before.keeps_failing(),
    ensures
        after.fails(),
{
}

/// What a series of reads gives together, each into a buffer of one of the `sizes`,
/// where `content` is still to be read.
pub open spec fn pieces(content: Seq<u8>, sizes: Seq<nat>) -> Seq<u8>
    decreases sizes.len(),
{
    if sizes.len() == 0 {
        seq![]
    } else {
        let n = least(sizes[0], content.len()) as int;
        content.take(n) + pieces(content.skip(n), sizes.drop_first())
    }
}

/// The sum of `sizes`.
pub open spec fn total(sizes: Seq<nat>) -> nat
    decreases sizes.len(),
{
    if sizes.len() == 0 {
        0
    } else {
        sizes[0] + total(sizes.drop_first())
    }
}

/// Read piece by piece, a file gives what it holds: the pieces make up its start, and
/// all of it once the buffers were large enough.
pub proof fn pieces_make_up_content(content: Seq<u8>, sizes: Seq<nat>)
    ensures
        pieces(content, sizes) == content.take(least(total(sizes), content.len()) as int),
    decreases sizes.len(),
{
    if sizes.len() > 0 {
        let n = least(sizes[0], content.len()) as int;
        pieces_make_up_content(content.skip(n), sizes.drop_first());
        assert(pieces(content, sizes) =~= content.take(
            least(total(sizes), content.len()) as int,
        ));
    } else {
        assert(content.take(0) =~= seq![]);
    }
}

/// What each kind of file is read as. Plain data is read as it is. Of GZIP data, a bad header is
/// refused, and the rest gives its content, or ends in an error where it is damaged. XZ data is
/// never refused at first; it and LZ4 data give their content where reading does not end in an
/// error.
pub proof fn files_are_read_as_what_they_hold(
    reader: Vec<u8>,
    plain: Result<Decompressor, std::io::Error>,
    gz: Result<Decompressor, std::io::Error>,
    lz4: Result<Decompressor, std::io::Error>,
    xz: Result<Decompressor, std::io::Error>,
)
    requires
        call_ensures(Decompressor::none, (reader,), plain),
        call_ensures(Decompressor::gz, (reader,), gz),
        call_ensures(Decompressor::lz4, (reader,), lz4),
        call_ensures(Decompressor::xz, (reader,), xz),
    ensures
        plain matches Ok(d) && d.remaining() == reader@ && d.failure() is None
            && !d.has_reported(),
        gz is Err <==> gz_content(reader@) is None,
        gz_content(reader@) matches Some(Some(all)) ==> (gz matches Ok(d) && d.remaining() == all
            && d.failure() is None && !d.has_reported()),
        gz_content(reader@) matches Some(None) ==> (gz matches Ok(d) && d.failure() is Some
            && !d.has_reported()),
        lz4 matches Ok(d) ==> !d.has_reported() && (d.failure() is None ==> lz4_content(reader@)
            == Some(d.remaining())),
        xz matches Ok(d) && !d.has_reported() && (d.failure() is None ==> xz_content(reader@)
            == Some(d.remaining())),
{
}

/// What a decoder gave is taken over: what was read comes first, then the error with which the
/// reading ended, if it did. Where there is no decoder, its error is handed on.
pub proof fn decoded_data_is_taken_over(
    decoded: Result<Decoded, std::io::Error>,
    r: Result<Decompressor, std::io::Error>,
)
    requires
        call_ensures(Decompressor::from_decoded, (decoded,), r),
    ensures
        decoded matches Err(e) ==> (r matches Err(why) && why == e),
        decoded matches Ok(d) ==> ({
            &&& r matches Ok(taken)
            &&& taken.remaining() == d.read@
            &&& !taken.has_reported()
            &&& taken.decoder() == d.decoder
            &&& d.end is Ok ==> taken.failure() is None
            &&& d.end matches Err(why) ==> taken.failure() == Some(why)
        }),
{
}

/// The compression that is named picks the constructor, whatever the data looks like.
pub proof fn variant_alone_picks_the_decoder(
    reader: Vec<u8>,
    variant: Compression,
    r: Result<Decompressor, std::io::Error>,
)
    requires
        call_ensures(Decompressor::from_variant, (reader, variant), r),
    ensures
        variant == Compression::Plain ==> call_ensures(Decompressor::none, (reader,), r),
        variant == Compression::Gz ==> call_ensures(Decompressor::gz, (reader,), r),
        variant == Compression::Lz4 ==> call_ensures(Decompressor::lz4, (reader,), r),
        variant == Compression::Xz ==> call_ensures(Decompressor::xz, (reader,), r),
{
}

/// The lesser of two lengths is one of them, and not more than the other.
pub proof fn lesser_length_is_the_least(a: nat, b: nat)
    ensures
        least(a, b) <= a,
        least(a, b) <= b,
        least(a, b) == a || least(a, b) == b,
{
}

/// Reading hands out what is still to be read, from the front, as far as the buffer reaches, and
/// leaves the rest for later. The error comes once all was read, and only then.
pub proof fn reading_goes_on_from_the_front()
    ensures
        forall|d: &mut Decompressor, buf: &mut [u8], r: Result<usize, std::io::Error>|
            #![trigger call_ensures(Decompressor::read, (d, buf), r)]
            call_ensures(Decompressor::read, (d, buf), r) && !d.has_reported() ==> {
                let left = d.remaining();
                let size = (*buf)@.len();
                &&& left.len() > 0 || d.failure() is None || size == 0 ==> {
                    &&& r matches Ok(n)
                    &&& n <= size && n <= left.len() && (n == size || n == left.len())
                    &&& (*final(buf))@.len() == size
                    &&& forall|i: int| 0 <= i < n ==> #[trigger] (*final(buf))@[i] == left[i]
                    &&& forall|i: int|
                        n <= i < size ==> #[trigger] (*final(buf))@[i] == (*buf)@[i]
                    &&& final(d).remaining() == left.skip(n as int)
                    &&& final(d).failure() == d.failure()
                    &&& !final(d).has_reported()
                }
                &&& left.len() == 0 && size > 0 ==> (d.failure() matches Some(why) ==> (
                r matches Err(e) && e == why && (*final(d)).has_reported()))
            },
{
}

/// After an error was reported, a damaged XZ file goes on failing on every read that asks for
/// something, and none is as it was before.
pub proof fn damaged_xz_file_goes_on_failing()
    ensures
        forall|d: &mut Decompressor, buf: &mut [u8], r: Result<usize, std::io::Error>|
            #![trigger call_ensures(Decompressor::read, (d, buf), r)]
            call_ensures(Decompressor::read, (d, buf), r) && d.has_reported() ==> {
                &&& (*final(d)).has_reported()
                &&& d.decoder() is Xz ==> (*final(d)).decoder() is Xz
                &&& d.decoder() is Xz && (*buf)@.len() > 0 ==> r is Err
                &&& r matches Ok(n) ==> n <= (*buf)@.len()
            },
{
}

/// What is said of a decoder is said of the outside decoder of its kind, on the data as it was
/// handed in.
proof fn decoders_are_the_outside_ones(
    reader: Vec<u8>,
    opened: Result<Decoded, std::io::Error>,
    decoded: Decoded,
)
    ensures
        is_decoded_gz(reader, opened) <==> call_ensures(decode_gz, (reader,), opened),
        is_decoded_lz4(reader, opened) <==> call_ensures(decode_lz4, (reader,), opened),
        is_decoded_xz(reader, decoded) <==> call_ensures(decode_xz, (reader,), decoded),
        forall|d: &mut GzDecoder<VecDeque<u8>>, buf: &mut [u8], r: Result<usize, std::io::Error>|
            #[trigger] reads_on_gz(d, buf, r) <==> call_ensures(read_on_gz, (d, buf), r),
        forall|d: &mut Lz4Decoder<VecDeque<u8>>, buf: &mut [u8], r: Result<usize, std::io::Error>|
            #[trigger] reads_on_lz4(d, buf, r) <==> call_ensures(read_on_lz4, (d, buf), r),
        forall|d: &mut XzDecoder<VecDeque<u8>>, buf: &mut [u8], r: Result<usize, std::io::Error>|
            #[trigger] reads_on_xz(d, buf, r) <==> call_ensures(read_on_xz, (d, buf), r),
{
}

/// Every file that is opened is handed to the decoder of its kind, and comes to what that makes of
/// it, whatever the file is and however long.
proof fn files_are_handed_to_their_decoders(
    reader: Vec<u8>,
    gz: Result<Decompressor, std::io::Error>,
    lz4: Result<Decompressor, std::io::Error>,
    xz: Result<Decompressor, std::io::Error>,
)
    requires
        call_ensures(Decompressor::gz, (reader,), gz),
        call_ensures(Decompressor::lz4, (reader,), lz4),
        call_ensures(Decompressor::xz, (reader,), xz),
    ensures
        exists|decoded: Result<Decoded, std::io::Error>| #[trigger]
            call_ensures(decode_gz, (reader,), decoded) && is_taken_over(decoded, gz),
        exists|decoded: Result<Decoded, std::io::Error>| #[trigger]
            call_ensures(decode_lz4, (reader,), decoded) && is_taken_over(decoded, lz4),
        exists|decoded: Decoded| #[trigger]
            call_ensures(decode_xz, (reader,), decoded) && is_taken_over(Ok(decoded), xz),
{
    let a = choose|decoded: Result<Decoded, std::io::Error>| #[trigger]
        is_decoded_gz(reader, decoded) && is_taken_over(decoded, gz);
    let b = choose|decoded: Result<Decoded, std::io::Error>| #[trigger]
        is_decoded_lz4(reader, decoded) && is_taken_over(decoded, lz4);
    let c = choose|decoded: Decoded| #[trigger]
        is_decoded_xz(reader, decoded) && is_taken_over(Ok(decoded), xz);
    assert(call_ensures(decode_gz, (reader,), a));
    assert(call_ensures(decode_lz4, (reader,), b));
    assert(call_ensures(decode_xz, (reader,), c));
}

} // verus!
