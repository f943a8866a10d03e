//! OpenPGP packets: what they hold, and whether a key file or a signature can be read.
use gpgrv::{Packet, PubKey, PublicKeySig};
use vstd::prelude::*;
use vstd::slice::slice_subrange;

verus! {

/// A public key.
pub enum PublicKey {
    /// The modulus and the exponent of an RSA key.
    Rsa(Vec<u8>, Vec<u8>),
    /// A key of a kind with which no signature is checked.
    Other,
}

#[verifier::ext_equal]
pub enum PublicKeyView {
    Rsa(Seq<u8>, Seq<u8>),
    Other,
}

impl View for PublicKey {
    type V = PublicKeyView;

    open spec fn view(&self) -> PublicKeyView {
        match *self {
            PublicKey::Rsa(n, e) => PublicKeyView::Rsa(n@, e@),
            PublicKey::Other => PublicKeyView::Other,
        }
    }
}

/// What a packet holds, as far as it matters here.
pub enum PacketContent {
    /// A signature: the id of the key that made it, if it is given, and the value of
    /// an RSA signature.
    Signature(Option<u64>, Option<Vec<u8>>),
    /// A public key.
    Key(PublicKey),
    /// Something that is passed over.
    Junk,
}

#[verifier::ext_equal]
pub enum PacketContentView {
    Signature(Option<u64>, Option<Seq<u8>>),
    Key(PublicKeyView),
    Junk,
}

impl View for PacketContent {
    type V = PacketContentView;

    open spec fn view(&self) -> PacketContentView {
        match *self {
            PacketContent::Signature(issuer, value) => PacketContentView::Signature(
                issuer,
                match value {
                    Some(bytes) => Some(bytes@),
                    None => None,
                },
            ),
            PacketContent::Key(key) => PacketContentView::Key(key@),
            PacketContent::Junk => PacketContentView::Junk,
        }
    }
}

/// The 16-bit number at position `at`, with the most significant byte first.
pub open spec fn u16_at(bytes: Seq<u8>, at: int) -> int {
    bytes[at] * 0x100 + bytes[at + 1]
}

/// The 32-bit number at position `at`, with the most significant byte first.
pub open spec fn u32_at(bytes: Seq<u8>, at: int) -> int {
    u16_at(bytes, at) * 0x1_0000 + u16_at(bytes, at + 2)
}

/// Whether the subpackets of a signature can be told apart: a length that takes
/// more than one byte must be there in full. A subpacket that is empty or goes
/// beyond the end is refused, and what follows it is not read.
pub open spec fn subpackets_readable(data: Seq<u8>) -> bool
    decreases data.len(),
{
    if data.len() == 0 {
        true
    } else {
        let size: int = if data[0] < 192 {
            1
        } else if data[0] < 255 {
            2
        } else {
            5
        };
        if data.len() < size {
            false
        } else {
            let len: int = if size == 1 {
                data[0] as int
            } else if size == 2 {
                (data[0] - 192) * 0x100 + data[1] + 192
            } else {
                u32_at(data, 1)
            };
            if len == 0 || size + len > data.len() {
                true
            } else {
                subpackets_readable(data.skip(size + len))
            }
        }
    }
}

/// Whether signatures of the type `code` are read at all.
pub open spec fn is_signature_type(code: u8) -> bool {
    code == 0x01 || 0x10 <= code <= 0x13 || code == 0x18 || code == 0x19 || code == 0x1f || code
        == 0x28 || code == 0x30
}

/// Whether signatures by the key algorithm `code` are read at all.
pub open spec fn is_key_algorithm(code: u8) -> bool {
    code == 1 || code == 3 || code == 17
}

/// Whether signatures by the hash algorithm `code` are read at all.
pub open spec fn is_hash_algorithm(code: u8) -> bool {
    1 <= code <= 3 || 8 <= code <= 11
}

/// Whether the body of a signature packet can be read: of a version 4 signature of a
/// type and by algorithms that are read at all, the subpackets that are not signed are
/// walked.
pub open spec fn signature_readable(body: Seq<u8>) -> bool {
    if body.len() < 6 || body[0] != 4 || !is_signature_type(body[1]) || !is_key_algorithm(body[2])
        || !is_hash_algorithm(body[3]) {
        true
    } else {
        let unsigned = 6 + u16_at(body, 4);
        if body.len() < unsigned + 2 || body.len() < unsigned + 2 + u16_at(body, unsigned) {
            true
        } else {
            subpackets_readable(
                body.subrange(unsigned + 2, unsigned + 2 + u16_at(body, unsigned)),
            )
        }
    }
}

/// A packet: its tag, its body as far as it is there, and where it ends.
#[verifier::ext_equal]
pub struct PacketView {
    pub tag: int,
    pub body: Seq<u8>,
    pub end: int,
}

/// The packet that `bytes` start with; `None` where they do not start with one, or
/// with one whose length is not given.
pub open spec fn first_packet(bytes: Seq<u8>) -> Option<PacketView> {
    if bytes.len() == 0 || !(128 <= bytes[0] < 192) || bytes[0] % 4 == 3 {
        None
    } else {
        let size: int = if bytes[0] % 4 == 0 {
            1
        } else if bytes[0] % 4 == 1 {
            2
        } else {
            4
        };
        if bytes.len() < 1 + size {
            None
        } else {
            let len: int = if size == 1 {
                bytes[1] as int
            } else if size == 2 {
                u16_at(bytes, 1)
            } else {
                u32_at(bytes, 1)
            };
            let end = if 1 + size + len < bytes.len() {
                1 + size + len
            } else {
                bytes.len() as int
            };
            Some(
                PacketView {
                    tag: (bytes[0] - 128) / 4,
                    body: bytes.subrange(1 + size, end),
                    end,
                },
            )
        }
    }
}

/// Whether the packet that `bytes` start with can be read, if they start with one.
pub open spec fn is_readable(bytes: Seq<u8>) -> bool {
    first_packet(bytes) matches Some(packet) ==> packet.tag == 2 ==> signature_readable(
        packet.body,
    )
}

/// What the packet that `bytes` start with holds, as `gpgrv::parse_packet` reads it;
/// `None` where it refuses the packet, or where there is none.
pub uninterp spec fn packet_content(bytes: Seq<u8>) -> Option<PacketContentView>;

/// Reads the packet that `bytes` start with: `gpgrv::parse_packet`. What it holds, and
/// whether it is refused, depends on the bytes alone.
#[verifier::external_body]
pub(crate) fn read_packet(bytes: &[u8]) -> (r: Option<PacketContent>)
    requires
        is_readable(bytes@),
    ensures
        match r {
            Some(content) => packet_content(bytes@) == Some(content@),
            None => packet_content(bytes@) is None,
        },
{
    Some(match gpgrv::parse_packet(bytes).ok()?? {
        Packet::Signature(packet) => PacketContent::Signature(
            packet.issuer.map(u64::from_be_bytes),
            match packet.sig { PublicKeySig::Rsa(value) => Some(value), PublicKeySig::Dsa { .. } => None },
        ),
        Packet::PubKey(packet) => PacketContent::Key(match packet.math {
            PubKey::Rsa { n, e } => PublicKey::Rsa(n, e),
            PubKey::Ecdsa { .. } | PubKey::Ed25519 { .. } | PubKey::Elgaml { .. } | PubKey::Dsa { .. } => PublicKey::Other,
        }),
        Packet::IgnoredJunk => PacketContent::Junk,
    })
}

/// The number of bytes that the modulus and the exponent of a key must stay below.
pub const KEY_LIMIT: usize = 8192;

/// Whether the id of `key` can be told: the numbers of an RSA key must not be too large.
pub open spec fn is_identifiable(key: PublicKeyView) -> bool {
    key matches PublicKeyView::Rsa(n, e) ==> n.len() < KEY_LIMIT && e.len() < KEY_LIMIT
}

/// Whether a key file can be read, up to its end or to the first packet that is
/// refused.
pub open spec fn key_file_readable(bytes: Seq<u8>) -> bool
    decreases bytes.len(),
    via key_file_readable_decreases
{
    &&& is_readable(bytes)
    &&& match (first_packet(bytes), packet_content(bytes)) {
        (Some(packet), Some(content)) => {
            &&& content matches PacketContentView::Key(key) ==> is_identifiable(key)
            &&& key_file_readable(bytes.skip(packet.end))
        },
        _ => true,
    }
}

#[via_fn]
proof fn key_file_readable_decreases(bytes: Seq<u8>) {
}

/// Reads the 16-bit number at position `at`.
fn read_u16(bytes: &[u8], at: usize) -> (r: usize)
    requires
        at + 2 <= bytes@.len(),
    ensures
        r == u16_at(bytes@, at as int),
        r <= 0xffff,
{
    bytes[at] as usize * 0x100 + bytes[at + 1] as usize
}

/// Reads the 32-bit number at position `at`.
fn read_u32(bytes: &[u8], at: usize) -> (r: usize)
    requires
        at + 4 <= bytes@.len(),
    ensures
        r == u32_at(bytes@, at as int),
        r <= 0xffff_ffff,
{
    let _limit = bytes.len();
    read_u16(bytes, at) * 0x1_0000 + read_u16(bytes, at + 2)
}

/// Tests whether the subpackets from `from` up to `to` can be told apart.
fn are_subpackets_readable(bytes: &[u8], from: usize, to: usize) -> (r: bool)
    requires
        from <= to <= bytes@.len(),
    ensures
        r == subpackets_readable(bytes@.subrange(from as int, to as int)),
{
    let mut at: usize = from;
    let limit = bytes.len();
    while at < to
        invariant
            from <= at <= to <= limit,
            limit == bytes@.len(),
            subpackets_readable(bytes@.subrange(from as int, to as int)) == subpackets_readable(
                bytes@.subrange(at as int, to as int),
            ),
        decreases to - at,
    {
        let ghost data = bytes@.subrange(at as int, to as int);
        let first = bytes[at];
        assert(data[0] == first);
        let size: usize = if first < 192 {
            1
        } else if first < 255 {
            2
        } else {
            5
        };
        if to - at < size {
            return false;
        }
        let len: usize = if size == 1 {
            first as usize
        } else if size == 2 {
            (first - 192) as usize * 0x100 + bytes[at + 1] as usize + 192
        } else {
            read_u32(bytes, at + 1)
        };
        proof {
            if size == 5 {
                assert(u32_at(data, 1) == u32_at(bytes@, at + 1));
            }
        }
        if len == 0 || len > to - at - size {
            return true;
        }
        assert(data.skip(size + len) == bytes@.subrange(at + size + len, to as int));
        at = at + size + len;
    }
    assert(bytes@.subrange(at as int, to as int).len() == 0);
    true
}

/// Tests whether signatures of the type `code` are read at all.
fn known_signature_type(code: u8) -> (r: bool)
    ensures
        r == is_signature_type(code),
{
    code == 0x01 || (0x10 <= code && code <= 0x13) || code == 0x18 || code == 0x19 || code == 0x1f
        || code == 0x28 || code == 0x30
}

/// Tests whether signatures by the key algorithm `code` are read at all.
fn known_key_algorithm(code: u8) -> (r: bool)
    ensures
        r == is_key_algorithm(code),
{
    code == 1 || code == 3 || code == 17
}

/// Tests whether signatures by the hash algorithm `code` are read at all.
fn known_hash_algorithm(code: u8) -> (r: bool)
    ensures
        r == is_hash_algorithm(code),
{
    (1 <= code && code <= 3) || (8 <= code && code <= 11)
}

/// Tests whether the body of a signature packet, from `from` up to `to`, can be
/// read.
fn is_signature_readable(bytes: &[u8], from: usize, to: usize) -> (r: bool)
    requires
        from <= to <= bytes@.len(),
    ensures
        r == signature_readable(bytes@.subrange(from as int, to as int)),
{
    let _limit = bytes.len();
    let ghost body = bytes@.subrange(from as int, to as int);
    if to - from < 6 || bytes[from] != 4 || !known_signature_type(bytes[from + 1])
        || !known_key_algorithm(bytes[from + 2]) || !known_hash_algorithm(bytes[from + 3]) {
        return true;
    }
    let signed = read_u16(bytes, from + 4);
    assert(signed == u16_at(body, 4));
    if to - from < 8 || to - from - 8 < signed {
        return true;
    }
    let unsigned = read_u16(bytes, from + 6 + signed);
    assert(unsigned == u16_at(body, 6 + signed));
    if to - from - 8 - signed < unsigned {
        return true;
    }
    assert(body.subrange(8 + signed, 8 + signed + unsigned) == bytes@.subrange(
        from + 8 + signed,
        from + 8 + signed + unsigned,
    ));
    are_subpackets_readable(bytes, from + 8 + signed, from + 8 + signed + unsigned)
}

/// The frame of a packet: its tag, and where its body starts and ends.
struct Frame {
    tag: u8,
    from: usize,
    to: usize,
}

/// Finds the packet that starts at `at`.
fn find_packet(bytes: &[u8], at: usize) -> (r: Option<Frame>)
    requires
        at <= bytes@.len(),
    ensures
        match r {
            Some(packet) => {
                &&& at < packet.from <= packet.to <= bytes@.len()
                &&& first_packet(bytes@.skip(at as int)) == Some(
                    PacketView {
                        tag: packet.tag as int,
                        body: bytes@.subrange(packet.from as int, packet.to as int),
                        end: packet.to - at,
                    },
                )
            },
            None => first_packet(bytes@.skip(at as int)) is None,
        },
{
    let limit = bytes.len();
    let ghost rest = bytes@.skip(at as int);
    if at == limit {
        return None;
    }
    let first = bytes[at];
    assert(rest[0] == first);
    if first < 128 || first >= 192 || first % 4 == 3 {
        return None;
    }
    let size: usize = if first % 4 == 0 {
        1
    } else if first % 4 == 1 {
        2
    } else {
        4
    };
    if limit - at - 1 < size {
        return None;
    }
    let len: usize = if size == 1 {
        bytes[at + 1] as usize
    } else if size == 2 {
        read_u16(bytes, at + 1)
    } else {
        read_u32(bytes, at + 1)
    };
    proof {
        if size == 2 {
            assert(u16_at(rest, 1) == u16_at(bytes@, at + 1));
        } else if size == 4 {
            assert(u32_at(rest, 1) == u32_at(bytes@, at + 1));
        }
    }
    let from = at + 1 + size;
    let to = if len < limit - from {
        from + len
    } else {
        limit
    };
    assert(rest.subrange(1 + size, to - at) == bytes@.subrange(from as int, to as int));
    Some(Frame { tag: (first - 128) / 4, from, to })
}

/// Tests whether the packet that `bytes` start with can be read.
pub fn can_read_packet(bytes: &[u8]) -> (r: bool)
    ensures
        r == is_readable(bytes@),
{
    assert(bytes@.skip(0) == bytes@);
    match find_packet(bytes, 0) {
        Some(packet) => packet.tag != 2 || is_signature_readable(bytes, packet.from, packet.to),
        None => true,
    }
}

/// Tests whether the id of `key` can be told.
fn can_identify(key: &PublicKey) -> (r: bool)
    ensures
        r == is_identifiable(key@),
{
    match key {
        PublicKey::Rsa(n, e) => n.len() < KEY_LIMIT && e.len() < KEY_LIMIT,
        PublicKey::Other => true,
    }
}

/// Tests whether a key file can be read.
pub fn is_key_file_readable(bytes: &[u8]) -> (r: bool)
    ensures
        r == key_file_readable(bytes@),
{
    let mut at: usize = 0;
    assert(bytes@.skip(0) == bytes@);
    loop
        invariant
            at <= bytes@.len(),
            key_file_readable(bytes@) == key_file_readable(bytes@.skip(at as int)),
        decreases bytes@.len() - at,
    {
        let rest = slice_subrange(bytes, at, bytes.len());
        assert(rest@ == bytes@.skip(at as int));
        if !can_read_packet(rest) {
            return false;
        }
        let content = match read_packet(rest) {
            Some(content) => content,
            None => {
                return true;
            },
        };
        let packet = match find_packet(bytes, at) {
            Some(packet) => packet,
            None => {
                return true;
            },
        };
        if let PacketContent::Key(key) = &content {
            if !can_identify(key) {
                return false;
            }
        }
        assert(rest@.skip(packet.to - at) == bytes@.skip(packet.to as int));
        at = packet.to;
    }
}

/// Subpackets can be told apart where those behind the first can be. The length of the first is
/// given in one byte below 192, in two bytes from 192 on, or in four bytes behind 255.
pub proof fn subpackets_follow_each_other(head: Seq<u8>, body: Seq<u8>, rest: Seq<u8>)
    requires
        body.len() > 0,
        ({
            ||| head.len() == 1 && head[0] < 192 && body.len() == head[0]
            ||| head.len() == 2 && 192 <= head[0] < 255 && body.len() == (head[0] - 192) * 256
                + head[1] + 192
            ||| head.len() == 5 && head[0] == 255 && body.len() == head[1] * 0x100_0000 + head[2]
                * 0x1_0000 + head[3] * 0x100 + head[4]
        }),
    ensures
        subpackets_readable(head + body + rest) == subpackets_readable(rest),
{
    let data = head + body + rest;
    assert(data[0] == head[0]);
    if head.len() == 2 {
        assert(data[1] == head[1]);
    } else if head.len() == 5 {
        assert(data[1] == head[1] && data[2] == head[2] && data[3] == head[3] && data[4]
            == head[4]);
        assert(u32_at(data, 1) == body.len());
    }
    assert(data.skip((head.len() + body.len()) as int) =~= rest);
}

/// Subpackets cannot be told apart where the length of one is cut off. One that is empty, or that
/// is cut off behind its length, is the last that is looked at.
pub proof fn cut_off_length_cannot_be_read(head: Seq<u8>, rest: Seq<u8>)
    ensures
        subpackets_readable(seq![]),
        subpackets_readable(seq![0u8] + rest),
        head.len() == 1 && 192 <= head[0] ==> !subpackets_readable(head),
        1 <= head.len() < 5 && head[0] == 255 ==> !subpackets_readable(head),
        head.len() == 1 && head[0] < 192 && rest.len() < head[0] ==> subpackets_readable(
            head + rest,
        ),
        head.len() == 2 && 192 <= head[0] < 255 && rest.len() < (head[0] - 192) * 256 + head[1]
            + 192 ==> subpackets_readable(head + rest),
        head.len() == 5 && head[0] == 255 && (rest.len() < head[1] * 0x100_0000 + head[2]
            * 0x1_0000 + head[3] * 0x100 + head[4] || head == seq![255u8, 0, 0, 0, 0])
            ==> subpackets_readable(head + rest),
{
    let none = seq![0u8] + rest;
    assert(none[0] == 0);
    let data = head + rest;
    if head.len() > 0 {
        assert(data[0] == head[0]);
        if head.len() == 2 {
            assert(data[1] == head[1]);
        } else if head.len() == 5 {
            assert(data[1] == head[1] && data[2] == head[2] && data[3] == head[3] && data[4]
                == head[4]);
        }
    }
}

/// A version 4 signature of a type and by algorithms that are known can be read where its
/// subpackets that are not signed can be told apart; any other can be read in any case.
pub proof fn signature_is_read_by_its_subpackets(
    codes: (u8, u8, u8),
    first_len: (u8, u8),
    signed: Seq<u8>,
    second_len: (u8, u8),
    unsigned: Seq<u8>,
    rest: Seq<u8>,
)
    requires
        signed.len() == first_len.0 * 256 + first_len.1,
        unsigned.len() == second_len.0 * 256 + second_len.1,
    ensures
        signature_readable(
            seq![4, codes.0, codes.1, codes.2, first_len.0, first_len.1] + signed + seq![
                second_len.0,
                second_len.1,
            ] + unsigned + rest,
        ) <==> {
            ||| !(codes.0 == 1 || codes.0 == 16 || codes.0 == 17 || codes.0 == 18 || codes.0 == 19
                || codes.0 == 24 || codes.0 == 25 || codes.0 == 31 || codes.0 == 40 || codes.0
                == 48)
            ||| !(codes.1 == 1 || codes.1 == 3 || codes.1 == 17)
            ||| !(codes.2 == 1 || codes.2 == 2 || codes.2 == 3 || codes.2 == 8 || codes.2 == 9
                || codes.2 == 10 || codes.2 == 11)
            ||| subpackets_readable(unsigned)
        },
{
    let head: Seq<u8> = seq![4, codes.0, codes.1, codes.2, first_len.0, first_len.1];
    let body = head + signed + seq![second_len.0, second_len.1] + unsigned + rest;
    assert(body[0] == 4 && body[1] == codes.0 && body[2] == codes.1 && body[3] == codes.2);
    assert(body[4] == first_len.0 && body[5] == first_len.1);
    let at = 6 + u16_at(body, 4);
    assert(at == 6 + signed.len());
    assert(body[at] == second_len.0 && body[at + 1] == second_len.1);
    assert(u16_at(body, at) == unsigned.len());
    assert(body.subrange(at + 2, at + 2 + unsigned.len()) =~= unsigned);
}

/// A signature of another version, or one that is cut off before the end of its subpackets, can be
/// read: it is refused without a look at them.
pub proof fn other_signatures_can_be_read(
    body: Seq<u8>,
    head: Seq<u8>,
    signed: Seq<u8>,
    second_len: (u8, u8),
    unsigned: Seq<u8>,
)
    requires
        head.len() == 6,
    ensures
        body.len() < 6 || body[0] != 4 ==> signature_readable(body),
        signed.len() < head[4] * 256 + head[5] + 2 ==> signature_readable(head + signed),
        signed.len() == head[4] * 256 + head[5] && unsigned.len() < second_len.0 * 256
            + second_len.1 ==> signature_readable(
            head + signed + seq![second_len.0, second_len.1] + unsigned,
        ),
{
    let cut = head + signed;
    assert(cut[4] == head[4] && cut[5] == head[5]);
    if signed.len() == head[4] * 256 + head[5] {
        let longer = head + signed + seq![second_len.0, second_len.1] + unsigned;
        assert(longer[4] == head[4] && longer[5] == head[5]);
        let at = 6 + u16_at(longer, 4);
        assert(longer[at] == second_len.0 && longer[at + 1] == second_len.1);
    }
}

/// Whether `head` is the head of a packet with a body of `len` bytes: the length is given in one,
/// two or four bytes, of which the two lowest bits of the first byte tell.
pub open spec fn is_packet_head(head: Seq<u8>, len: int) -> bool {
    &&& head.len() > 0
    &&& 128 <= head[0] < 192
    &&& {
        ||| head[0] % 4 == 0 && head.len() == 2 && len == head[1]
        ||| head[0] % 4 == 1 && head.len() == 3 && len == head[1] * 0x100 + head[2]
        ||| head[0] % 4 == 2 && head.len() == 5 && len == head[1] * 0x100_0000 + head[2] * 0x1_0000
            + head[3] * 0x100 + head[4]
    }
}

proof fn lemma_first_packet(head: Seq<u8>, len: int, body: Seq<u8>, rest: Seq<u8>)
    requires
        is_packet_head(head, len),
        body.len() == len || (body.len() < len && rest.len() == 0),
    ensures
        first_packet(head + body + rest) == Some(
            PacketView {
                tag: (head[0] - 128) / 4,
                body,
                end: (head.len() + body.len()) as int,
            },
        ),
{
    let bytes = head + body + rest;
    assert(bytes[0] == head[0]);
    assert(bytes[1] == head[1]);
    if head.len() == 3 {
        assert(bytes[2] == head[2]);
    } else if head.len() == 5 {
        assert(bytes[2] == head[2] && bytes[3] == head[3] && bytes[4] == head[4]);
        assert(u32_at(bytes, 1) == len);
    }
    assert(bytes.subrange(head.len() as int, (head.len() + body.len()) as int) =~= body);
}

/// A packet can be read where it is no signature, or a signature that can be read. Its body may be
/// cut off; what follows it does not matter.
pub proof fn packet_is_read_by_its_body(head: Seq<u8>, len: int, body: Seq<u8>, rest: Seq<u8>)
    requires
        is_packet_head(head, len),
        body.len() == len || (body.len() < len && rest.len() == 0),
    ensures
        is_readable(head + body + rest) <==> !(136 <= head[0] < 140) || signature_readable(body),
{
    lemma_first_packet(head, len, body, rest);
}

/// What does not start with a packet whose length is given can be read: it is refused.
pub proof fn other_bytes_can_be_read(bytes: Seq<u8>)
    requires
        bytes.len() < 2 || bytes[0] < 128 || bytes[0] >= 192 || bytes[0] % 4 == 3 || (bytes[0] % 4
            == 1 && bytes.len() < 3) || (bytes[0] % 4 == 2 && bytes.len() < 5),
    ensures
        is_readable(bytes),
        key_file_readable(bytes),
{
}

/// A key file can be read where each of its packets can be, up to the first that is refused, and
/// no number of an RSA key among them takes 8192 bytes or more.
pub proof fn key_file_is_read_by_packets(head: Seq<u8>, len: int, body: Seq<u8>, rest: Seq<u8>)
    requires
        is_packet_head(head, len),
        body.len() == len || (body.len() < len && rest.len() == 0),
    ensures
        key_file_readable(head + body + rest) <==> {
            &&& is_readable(head + body + rest)
            &&& packet_content(head + body + rest) matches Some(content) ==> {
                &&& content matches PacketContentView::Key(PublicKeyView::Rsa(n, e)) ==> n.len()
                    < 8192 && e.len() < 8192
                &&& key_file_readable(rest)
            }
        },
{
    let bytes = head + body + rest;
    lemma_first_packet(head, len, body, rest);
    assert(bytes.skip((head.len() + body.len()) as int) =~= rest);
}

/// Keys and packets are seen as what they hold.
pub proof fn packets_are_seen_in_full(key: PublicKey, content: PacketContent)
    ensures
        match key {
            PublicKey::Rsa(n, e) => key@ == PublicKeyView::Rsa(n@, e@),
            PublicKey::Other => key@ == PublicKeyView::Other,
        },
        match content {
            PacketContent::Signature(issuer, Some(value)) => content@
                == PacketContentView::Signature(issuer, Some(value@)),
            PacketContent::Signature(issuer, None) => content@ == PacketContentView::Signature(
                issuer,
                None,
            ),
            PacketContent::Key(key) => content@ == PacketContentView::Key(key@),
            PacketContent::Junk => content@ == PacketContentView::Junk,
        },
{
}

} // verus!
