//! The keys that sign release files, and the check of a signature against them.
use crate::packets::{
    can_read_packet, is_key_file_readable, is_readable, key_file_readable, packet_content,
    read_packet, PacketContent, PacketContentView, PublicKey, PublicKeyView,
};
use gpgrv::{Keyring, PubKey};
use crate::text::same;
use vstd::prelude::*;
use vstd::string::*;

verus! {

#[verifier::external_type_specification]
#[verifier::external_body]
pub struct ExKeyring(gpgrv::Keyring);

/// A message and its detached signature.
pub struct Clearsigned {
    pub text: Vec<u8>,
    pub signature: Vec<u8>,
}

#[verifier::ext_equal]
pub struct ClearsignedView {
    pub text: Seq<u8>,
    pub signature: Seq<u8>,
}

impl View for Clearsigned {
    type V = ClearsignedView;

    open spec fn view(&self) -> ClearsignedView {
        ClearsignedView { text: self.text@, signature: self.signature@ }
    }
}

/// The keys that a keyring holds, each with the id that it goes by.
pub uninterp spec fn keyring_keys(keyring: Keyring) -> Set<(PublicKeyView, u64)>;

/// The keys that `gpgrv::Keyring::append_keys_from` takes out of a key file, and how
/// many key packets it counts; no number where it refuses the file, of which it then
/// keeps the keys that come before what it refuses.
pub uninterp spec fn key_file(bytes: Seq<u8>) -> (Set<(PublicKeyView, u64)>, Option<usize>);

/// The message and the signature in a clearsigned file, as
/// `gpgrv::parse_clearsign_armour` takes them apart; `None` where it refuses the file.
pub uninterp spec fn clearsigned(contents: Seq<u8>) -> Option<ClearsignedView>;

/// What `gpgrv::verify_clearsign_armour` says of a clearsigned file with the keys `keys`:
/// the text of the error with which it refuses the file, or `None` where it accepts it.
pub uninterp spec fn refusal(
    contents: Seq<u8>,
    keys: Set<(PublicKeyView, u64)>,
) -> Option<Seq<char>>;

/// Whether a clearsigned file is accepted by one of the keys.
pub open spec fn is_validly_signed(
    contents: Seq<u8>,
    keys: Set<(PublicKeyView, u64)>,
) -> bool {
    refusal(contents, keys) is None
}

/// How many bytes an RSA signature must have for keys to be tried on it.
pub const MIN_SIGNATURE: usize = 256;

/// The id of the keys that are tried on a clearsigned file; `None` where it is refused
/// before any is tried. Without keys, a file on which keys are tried is refused for want
/// of them.
pub open spec fn tried_id(contents: Seq<u8>) -> Option<u64> {
    match clearsigned(contents) {
        Some(parts) => match packet_content(parts.signature) {
            Some(PacketContentView::Signature(Some(id), Some(value))) => if value.len()
                >= MIN_SIGNATURE && refusal(contents, Set::empty()) == Some(
                "no known keys could validate the signature"@,
            ) {
                Some(id)
            } else {
                None
            },
            _ => None,
        },
        None => None,
    }
}

/// Whether a number that is given by its bytes, the least significant last, is odd.
pub open spec fn is_odd(number: Seq<u8>) -> bool {
    number.len() > 0 && number.last() % 2 == 1
}

/// Whether a signature can be checked with `key`.
pub open spec fn is_usable(key: PublicKeyView) -> bool {
    key matches PublicKeyView::Rsa(n, e) ==> is_odd(n) && is_odd(e)
}

/// Whether a signature by the key with the id `id` can be checked with `keys`.
pub open spec fn usable_keys(keys: Set<(PublicKeyView, u64)>, id: u64) -> bool {
    forall|key: PublicKeyView| #[trigger] keys.contains((key, id)) ==> is_usable(key)
}

/// Whether the signature of a clearsigned file can be read.
pub open spec fn has_readable_signature(contents: Seq<u8>) -> bool {
    clearsigned(contents) matches Some(parts) ==> is_readable(parts.signature)
}

/// Whether the signature of a clearsigned file can be checked with `keys`.
pub open spec fn is_verifiable(contents: Seq<u8>, keys: Set<(PublicKeyView, u64)>) -> bool {
    &&& has_readable_signature(contents)
    &&& tried_id(contents) matches Some(id) ==> usable_keys(keys, id)
}

/// Whether `keys` hold an RSA key that goes by the id `id`.
pub open spec fn has_rsa_key(keys: Set<(PublicKeyView, u64)>, id: u64) -> bool {
    exists|n: Seq<u8>, e: Seq<u8>| #[trigger] keys.contains((PublicKeyView::Rsa(n, e), id))
}

/// Whether a clearsigned file names a signer whose key is among `keys`.
pub open spec fn has_known_signer(contents: Seq<u8>, keys: Set<(PublicKeyView, u64)>) -> bool {
    &&& clearsigned(contents) matches Some(parts)
    &&& packet_content(parts.signature) matches Some(PacketContentView::Signature(Some(id), _))
    &&& has_rsa_key(keys, id)
}

/// `gpgrv::Keyring::new` makes a keyring without keys.
pub assume_specification[ gpgrv::Keyring::new ]() -> (r: Keyring)
    ensures
        keyring_keys(r) == Set::<(PublicKeyView, u64)>::empty(),
;

/// Adds the keys of a key file: `gpgrv::Keyring::append_keys_from`. What is added,
/// and whether the file is refused, depends on the file alone.
#[verifier::external_body]
fn add_keys(keyring: &mut Keyring, bytes: &[u8]) -> (r: Result<usize, failure::Error>)
    requires
        key_file_readable(bytes@),
    ensures
        keyring_keys(*final(keyring)) == keyring_keys(*old(keyring)).union(key_file(bytes@).0),
        r matches Ok(n) ==> key_file(bytes@).1 == Some(n),
        r is Err ==> key_file(bytes@).1 is None,
{
    keyring.append_keys_from(bytes)
}

/// Whether `why` is the error with which a keyring that holds `keys` refuses a key file.
pub closed spec fn refuses_file(
    keys: Set<(PublicKeyView, u64)>,
    bytes: Seq<u8>,
    why: failure::Error,
) -> bool {
    exists|keyring: &mut Keyring, file: &[u8]|
        {
            &&& keyring_keys(*keyring) == keys
            &&& file@ == bytes
            &&& #[trigger] call_ensures(add_keys, (keyring, file), Err(why))
        }
}

/// The views of `keys`.
pub open spec fn key_views(keys: Seq<PublicKey>) -> Seq<PublicKeyView> {
    keys.map_values(|k: PublicKey| k@)
}

/// Lists the keys that go by an id: `gpgrv::Keyring::keys_with_id`. Their order is
/// left open.
#[verifier::external_body]
fn keys_with_id(keyring: &Keyring, id: u64) -> (r: Vec<PublicKey>)
    ensures
        forall|key: PublicKeyView|
            key_views(r@).contains(key) <==> #[trigger] keyring_keys(*keyring).contains((key, id)),
{
    keyring.keys_with_id(id).into_iter().map(|key| match key {
        PubKey::Rsa { n, e } => PublicKey::Rsa(n.clone(), e.clone()),
        PubKey::Ecdsa { .. } => PublicKey::Other,
        PubKey::Ed25519 { .. } => PublicKey::Other,
        PubKey::Elgaml { .. } => PublicKey::Other,
        PubKey::Dsa { .. } => PublicKey::Other,
    }).collect()
}

/// Takes a clearsigned file apart: `gpgrv::parse_clearsign_armour`. The parts, and
/// whether the file is refused, depend on the file alone.
#[verifier::external_body]
pub(crate) fn split_clearsigned(contents: &[u8]) -> (r: Option<Clearsigned>)
    ensures
        r matches Some(parts) ==> clearsigned(contents@) == Some(parts@),
        r is None ==> clearsigned(contents@) is None,
{
    let mut text = Vec::new();
    let parts = gpgrv::parse_clearsign_armour(contents, &mut text).ok()?;
    Some(Clearsigned { text, signature: parts.signature })
}

/// Why a clearsigned file was refused, and the same in words.
pub struct Refusal {
    pub why: failure::Error,
    pub text: String,
}

/// Checks the signature of a clearsigned file: `gpgrv::verify_clearsign_armour`.
/// Whether it is accepted, and the text of the error if not, depends on the file and on
/// the keys. What comes out of an accepted file is its message, and its signer is known.
#[verifier::external_body]
fn verify_clearsigned(contents: &[u8], keyring: &Keyring) -> (r: Result<Vec<u8>, Refusal>)
    requires
        is_verifiable(contents@, keyring_keys(*keyring)),
    ensures
        r is Ok ==> refusal(contents@, keyring_keys(*keyring)) is None,
        r matches Err(e) ==> refusal(contents@, keyring_keys(*keyring)) == Some(e.text@),
        r matches Ok(text) ==> {
            &&& has_known_signer(contents@, keyring_keys(*keyring))
            &&& clearsigned(contents@)->0.text == text@
        },
{
    let mut text = Vec::new();
    match gpgrv::verify_clearsign_armour(contents, &mut text, keyring) {
        Ok(()) => Ok(text),
        Err(why) => Err(Refusal { text: why.to_string(), why }),
    }
}

/// Whether `why` is the error with which a clearsigned file is refused with the keys `keys`.
pub closed spec fn refuses_signature(
    contents: Seq<u8>,
    keys: Set<(PublicKeyView, u64)>,
    why: failure::Error,
) -> bool {
    exists|file: &[u8], keyring: &Keyring, text: String|
        {
            &&& file@ == contents
            &&& keyring_keys(*keyring) == keys
            &&& #[trigger] call_ensures(
                verify_clearsigned,
                (file, keyring),
                Err(Refusal { why, text }),
            )
        }
}

/// A file that is to hold keys, and what reading it gave.
pub struct KeyFile {
    pub path: String,
    pub content: Result<Vec<u8>, std::io::Error>,
}

/// Why the keys of a file could not be had.
#[allow(inconsistent_fields)]
pub enum KeyringError {
    /// The file could not be read.
    Read { path: String, why: std::io::Error },
    /// The file does not hold keys alone.
    Keys { path: String, why: failure::Error },
}

impl KeyringError {
    /// Says which file does not hold keys alone, where `why` says what it holds
    /// instead.
    pub fn message(path: &str, why: &str) -> (r: String)
        ensures
            r@ == "failed to add keys from keyring at "@ + path@ + ": "@ + why@,
    {
        let mut r = crate::text::join3("failed to add keys from keyring at ", path, ": ");
        r.append(why);
        r
    }
}

/// Whether reading `file` gave something that can be searched for keys, if it gave
/// anything.
pub open spec fn is_searchable(file: KeyFile) -> bool {
    file.content matches Ok(bytes) ==> key_file_readable(bytes@)
}

/// Whether the files that are looked at, up to the first that is not sound, can be
/// searched for keys.
pub open spec fn are_searchable(files: Seq<KeyFile>) -> bool {
    forall|i: int|
        0 <= i < files.len() && i <= first_unsound(files) ==> is_searchable(#[trigger] files[i])
}

/// Whether `error` says why `file`, the first that is not sound, was not taken into a keyring
/// that holds `keys`.
pub open spec fn is_error_of(
    error: KeyringError,
    file: KeyFile,
    keys: Set<(PublicKeyView, u64)>,
) -> bool {
    match file.content {
        Ok(bytes) => {
            &&& error matches KeyringError::Keys { path, why }
            &&& path@ == file.path@
            &&& refuses_file(keys, bytes@, why)
        },
        Err(e) => error == (KeyringError::Read { path: file.path, why: e }),
    }
}

/// Whether `file` was read and holds keys alone.
pub open spec fn is_sound(file: KeyFile) -> bool {
    file.content matches Ok(bytes) && key_file(bytes@).1 is Some
}

/// The keys of all of `files`.
pub open spec fn keys_of_files(files: Seq<KeyFile>) -> Set<(PublicKeyView, u64)>
    decreases files.len(),
{
    if files.len() == 0 {
        Set::empty()
    } else {
        let rest = keys_of_files(files.drop_last());
        match files.last().content {
            Ok(bytes) => rest.union(key_file(bytes@).0),
            Err(_) => rest,
        }
    }
}

/// A keyring that was collected from files holds the keys of every one of them.
pub proof fn keys_of_every_file_are_held(files: Seq<KeyFile>, i: int)
    requires
        0 <= i < files.len(),
    ensures
        files[i].content matches Ok(bytes) ==> key_file(bytes@).0.subset_of(keys_of_files(files)),
    decreases files.len(),
{
    if i < files.len() - 1 {
        keys_of_every_file_are_held(files.drop_last(), i);
        assert(files.drop_last()[i] == files[i]);
    }
}

/// The position of the first file that is not sound, or the number of files where
/// there is none.
pub open spec fn first_unsound(files: Seq<KeyFile>) -> nat
    decreases files.len(),
{
    if files.len() == 0 || !is_sound(files[0]) {
        0
    } else {
        1 + first_unsound(files.drop_first())
    }
}

proof fn lemma_first_unsound_bound(files: Seq<KeyFile>, n: int)
    requires
        0 <= n <= files.len(),
        forall|i: int| 0 <= i < n ==> is_sound(#[trigger] files[i]),
    ensures
        first_unsound(files) >= n,
    decreases n,
{
    if n > 0 {
        assert(is_sound(files[0]));
        let rest = files.drop_first();
        assert forall|i: int| 0 <= i < n - 1 implies is_sound(#[trigger] rest[i]) by {
            assert(rest[i] == files[i + 1]);
        }
        lemma_first_unsound_bound(rest, n - 1);
    }
}

proof fn lemma_first_unsound(files: Seq<KeyFile>, n: int)
    requires
        0 <= n <= files.len(),
        forall|i: int| 0 <= i < n ==> is_sound(#[trigger] files[i]),
        n < files.len() ==> !is_sound(files[n]),
    ensures
        first_unsound(files) == n,
    decreases n,
{
    if n > 0 {
        assert(is_sound(files[0]));
        let rest = files.drop_first();
        assert forall|i: int| 0 <= i < n - 1 implies is_sound(#[trigger] rest[i]) by {
            assert(rest[i] == files[i + 1]);
        }
        lemma_first_unsound(rest, n - 1);
    }
}

/// The keys that apt trusts.
pub struct AptKeyring(Keyring);

impl View for AptKeyring {
    type V = Set<(PublicKeyView, u64)>;

    closed spec fn view(&self) -> Set<(PublicKeyView, u64)> {
        keyring_keys(self.0)
    }
}

impl AptKeyring {
    /// Collects the keys of `files`. The first that cannot be read or does not hold
    /// keys alone is an error.
    pub fn new(files: Vec<KeyFile>) -> (r: Result<Self, KeyringError>)
        requires
            are_searchable(files@),
        ensures
            r is Ok <==> first_unsound(files@) == files@.len(),
            r matches Ok(keyring) ==> keyring@ == keys_of_files(files@),
            r matches Err(why) ==> {
                let i = first_unsound(files@) as int;
                is_error_of(why, files@[i], keys_of_files(files@.take(i)))
            },
    {
        let mut keyring = AptKeyring(Keyring::new());
        let mut left = files;
        let ghost mut done: int = 0;
        assert(left@ == files@.skip(0));
        while left.len() > 0
            invariant
                0 <= done <= files@.len(),
                left@ == files@.skip(done),
                keyring@ == keys_of_files(files@.take(done)),
                are_searchable(files@),
                forall|i: int| 0 <= i < done ==> is_sound(#[trigger] files@[i]),
            decreases left@.len(),
        {
            let file = left.remove(0);
            proof {
                lemma_first_unsound_bound(files@, done);
                assert(file == files@[done]);
                assert(is_searchable(files@[done]));
            }
            assert(left@ == files@.skip(done + 1));
            match file.content {
                Ok(bytes) => {
                    if let Err(why) = keyring.append_keys_from(file.path.as_str(), bytes.as_slice()) {
                        proof {
                            lemma_first_unsound(files@, done);
                        }
                        return Err(why);
                    }
                    proof {
                        let next = files@.take(done + 1);
                        assert(next.drop_last() == files@.take(done));
                        assert(next.last() == file);
                    }
                },
                Err(why) => {
                    proof {
                        lemma_first_unsound(files@, done);
                    }
                    return Err(KeyringError::Read { path: file.path, why });
                },
            }
            proof {
                done = done + 1;
            }
        }
        proof {
            lemma_first_unsound(files@, done);
            assert(files@.take(done) == files@);
        }
        Ok(keyring)
    }

    /// Adds the keys of the file at `path`, which holds `bytes`, and returns how many
    /// they are.
    pub fn append_keys_from(&mut self, path: &str, bytes: &[u8]) -> (r: Result<
        usize,
        KeyringError,
    >)
        requires
            key_file_readable(bytes@),
        ensures
            final(self)@ == old(self)@.union(key_file(bytes@).0),
            r matches Ok(n) ==> key_file(bytes@).1 == Some(n),
            r matches Err(e) ==> {
                &&& key_file(bytes@).1 is None
                &&& e matches KeyringError::Keys { path: at, why }
                &&& at@ == path@
                &&& refuses_file(old(self)@, bytes@, why)
            },
    {
        match add_keys(&mut self.0, bytes) {
            Ok(n) => Ok(n),
            Err(why) => Err(KeyringError::Keys { path: path.to_owned(), why }),
        }
    }

    /// Collects the keys of `files`; `None` where one that is looked at cannot be
    /// searched for keys.
    pub fn try_new(files: Vec<KeyFile>) -> (r: Option<Result<Self, KeyringError>>)
        ensures
            r is Some <==> are_searchable(files@),
            r matches Some(Ok(keyring)) ==> {
                &&& first_unsound(files@) == files@.len()
                &&& keyring@ == keys_of_files(files@)
            },
            r matches Some(Err(why)) ==> {
                let i = first_unsound(files@) as int;
                &&& i < files@.len()
                &&& is_error_of(why, files@[i], keys_of_files(files@.take(i)))
            },
    {
        if can_search(&files) {
            proof {
                lemma_first_unsound_within(files@);
            }
            Some(AptKeyring::new(files))
        } else {
            None
        }
    }

    /// Adds the keys of the file at `path`, which holds `bytes`; `None`, and nothing is
    /// added, where it cannot be searched for keys.
    pub fn try_append_keys_from(&mut self, path: &str, bytes: &[u8]) -> (r: Option<
        Result<usize, KeyringError>,
    >)
        ensures
            r is Some <==> key_file_readable(bytes@),
            r is None ==> *final(self) == *old(self),
            r is Some ==> final(self)@ == old(self)@.union(key_file(bytes@).0),
            r matches Some(Ok(n)) ==> key_file(bytes@).1 == Some(n),
            r matches Some(Err(e)) ==> {
                &&& key_file(bytes@).1 is None
                &&& e matches KeyringError::Keys { path: at, why }
                &&& at@ == path@
                &&& refuses_file(old(self)@, bytes@, why)
            },
    {
        if is_key_file_readable(bytes) {
            Some(self.append_keys_from(path, bytes))
        } else {
            None
        }
    }

    /// Tests whether the signature of a clearsigned file can be checked.
    pub fn can_verify(&self, contents: &[u8]) -> (r: bool)
        ensures
            r == is_verifiable(contents@, self@),
    {
        let parts = match split_clearsigned(contents) {
            Some(parts) => parts,
            None => {
                return true;
            },
        };
        if !can_read_packet(parts.signature.as_slice()) {
            return false;
        }
        match read_packet(parts.signature.as_slice()) {
            Some(PacketContent::Signature(Some(id), Some(value))) => {
                if value.len() < MIN_SIGNATURE {
                    return true;
                }
                let none = Keyring::new();
                match verify_clearsigned(contents, &none) {
                    Ok(_) => true,
                    Err(e) => !same(
                        e.text.as_str(),
                        "no known keys could validate the signature",
                    ) || self.has_usable_keys(id),
                }
            },
            _ => true,
        }
    }

    /// Tests whether a signature by the key with the id `id` can be checked.
    fn has_usable_keys(&self, id: u64) -> (r: bool)
        ensures
            r == usable_keys(self@, id),
    {
        let keys = keys_with_id(&self.0, id);
        for i in 0..keys.len()
            invariant
                forall|key: PublicKeyView|
                    key_views(keys@).contains(key) <==> #[trigger] self@.contains((key, id)),
                forall|k: int| 0 <= k < i ==> is_usable(#[trigger] key_views(keys@)[k]),
        {
            let ghost view = key_views(keys@)[i as int];
            assert(key_views(keys@).contains(view));
            assert(self@.contains((view, id)));
            if let PublicKey::Rsa(n, e) = &keys[i] {
                if !odd(n) || !odd(e) {
                    assert(!is_usable(view));
                    return false;
                }
            }
        }
        assert forall|key: PublicKeyView| #[trigger] self@.contains((key, id)) implies is_usable(
            key,
        ) by {
            assert(key_views(keys@).contains(key));
        }
        true
    }

    /// Checks the signature of a clearsigned file, and returns its message.
    pub(crate) fn verify(&self, contents: &[u8]) -> (r: Result<Vec<u8>, failure::Error>)
        requires
            is_verifiable(contents@, self@),
        ensures
            r is Ok <==> is_validly_signed(contents@, self@),
            r matches Err(why) ==> refuses_signature(contents@, self@, why),
            r matches Ok(text) ==> {
                &&& has_known_signer(contents@, self@)
                &&& clearsigned(contents@)->0.text == text@
            },
    {
        match verify_clearsigned(contents, &self.0) {
            Ok(text) => Ok(text),
            Err(Refusal { why, .. }) => Err(why),
        }
    }
}

impl std::ops::Deref for AptKeyring {
    type Target = Keyring;

    fn deref(&self) -> (r: &Keyring)
        ensures
            keyring_keys(*r) == self@,
    {
        &self.0
    }
}

proof fn lemma_first_unsound_within(files: Seq<KeyFile>)
    ensures
        first_unsound(files) <= files.len(),
    decreases files.len(),
{
    if files.len() > 0 {
        lemma_first_unsound_within(files.drop_first());
    }
}

/// Tests whether the files that are looked at can be searched for keys.
fn can_search(files: &Vec<KeyFile>) -> (r: bool)
    ensures
        r == are_searchable(files@),
{
    let mut i: usize = 0;
    while i < files.len()
        invariant
            i <= files@.len(),
            forall|k: int| 0 <= k < i ==> is_sound(#[trigger] files@[k]),
            forall|k: int| 0 <= k < i ==> is_searchable(#[trigger] files@[k]),
        decreases files@.len() - i,
    {
        proof {
            lemma_first_unsound_bound(files@, i as int);
        }
        match &files[i].content {
            Ok(bytes) => {
                if !is_key_file_readable(bytes.as_slice()) {
                    assert(!is_searchable(files@[i as int]));
                    return false;
                }
                let mut probe = Keyring::new();
                if add_keys(&mut probe, bytes.as_slice()).is_err() {
                    proof {
                        lemma_first_unsound(files@, i as int);
                    }
                    return true;
                }
            },
            Err(_) => {
                proof {
                    lemma_first_unsound(files@, i as int);
                }
                return true;
            },
        }
        i = i + 1;
    }
    true
}

/// Tests whether a number is odd.
fn odd(number: &Vec<u8>) -> (r: bool)
    ensures
        r == is_odd(number@),
{
    number.len() > 0 && number[number.len() - 1] % 2 == 1
}

/// A signature can be checked with an RSA key whose modulus and exponent are odd, however long they
/// are, and with none where one of them is even or empty. A key of another kind does no harm.
pub proof fn odd_keys_are_usable(n: Seq<u8>, e: Seq<u8>)
    ensures
        is_usable(PublicKeyView::Rsa(n, e)) <==> n.len() > 0 && n[n.len() - 1] % 2 == 1 && e.len()
            > 0 && e[e.len() - 1] % 2 == 1,
        is_usable(PublicKeyView::Other),
{
}

/// A clearsigned file whose signature can be read can be verified where all RSA keys that go by the
/// id of its signer are odd, however long they are and whatever other keys there are.
pub proof fn file_signed_by_odd_keys_can_be_verified(
    contents: Seq<u8>,
    keys: Set<(PublicKeyView, u64)>,
)
    requires
        clearsigned(contents) matches Some(parts) ==> {
            &&& is_readable(parts.signature)
            &&& packet_content(parts.signature) matches Some(
                PacketContentView::Signature(Some(id), _),
            ) ==> forall|n: Seq<u8>, e: Seq<u8>| #[trigger]
                keys.contains((PublicKeyView::Rsa(n, e), id)) ==> n.len() > 0 && n[n.len() - 1] % 2
                    == 1 && e.len() > 0 && e[e.len() - 1] % 2 == 1
        },
    ensures
        is_verifiable(contents, keys),
{
    if let Some(id) = tried_id(contents) {
        assert forall|key: PublicKeyView| #[trigger] keys.contains((key, id)) implies is_usable(
            key,
        ) by {
            if let PublicKeyView::Rsa(n, e) = key {
                assert(keys.contains((PublicKeyView::Rsa(n, e), id)));
            }
        }
    }
}

/// The same of the test that a keyring makes before it verifies a file.
pub proof fn keyring_verifies_files_signed_by_odd_keys(
    keyring: &AptKeyring,
    contents: &[u8],
    r: bool,
)
    requires
        call_ensures(AptKeyring::can_verify, (keyring, contents), r),
        clearsigned(contents@) matches Some(parts) ==> {
            &&& is_readable(parts.signature)
            &&& packet_content(parts.signature) matches Some(
                PacketContentView::Signature(Some(id), _),
            ) ==> forall|n: Seq<u8>, e: Seq<u8>| #[trigger]
                keyring@.contains((PublicKeyView::Rsa(n, e), id)) ==> n.len() > 0 && n[n.len() - 1]
                    % 2 == 1 && e.len() > 0 && e[e.len() - 1] % 2 == 1
        },
    ensures
        r,
{
    file_signed_by_odd_keys_can_be_verified(contents@, keyring@);
}

/// A file cannot be verified only where its signature cannot be read, or is one on which keys are
/// tried and a key that goes by the id of its signer is even. Keys are tried where the signature is
/// long enough and the file, without any keys, is refused for want of them.
pub proof fn only_even_keys_stand_against_verifying(
    contents: Seq<u8>,
    keys: Set<(PublicKeyView, u64)>,
)
    requires
        !is_verifiable(contents, keys),
    ensures
        clearsigned(contents) matches Some(parts) && (!is_readable(parts.signature) || (
        packet_content(parts.signature) matches Some(
            PacketContentView::Signature(Some(id), Some(value)),
        ) && value.len() >= 256 && refusal(contents, Set::empty()) == Some(
            "no known keys could validate the signature"@,
        ) && exists|n: Seq<u8>, e: Seq<u8>| #[trigger]
            keys.contains((PublicKeyView::Rsa(n, e), id)) && !(n.len() > 0 && n[n.len() - 1] % 2
                == 1 && e.len() > 0 && e[e.len() - 1] % 2 == 1))),
{
    if has_readable_signature(contents) {
        let id = tried_id(contents)->0;
        let key = choose|key: PublicKeyView| #[trigger]
            keys.contains((key, id)) && !is_usable(key);
        match key {
            PublicKeyView::Rsa(n, e) => {
                assert(keys.contains((PublicKeyView::Rsa(n, e), id)));
            },
            PublicKeyView::Other => {},
        }
    }
}

/// A file whose signature cannot be read is not verified, nor is one on which an even key would be
/// tried.
pub proof fn even_keys_are_not_tried(
    contents: Seq<u8>,
    parts: ClearsignedView,
    keys: Set<(PublicKeyView, u64)>,
    id: u64,
    value: Seq<u8>,
    n: Seq<u8>,
    e: Seq<u8>,
)
    requires
        clearsigned(contents) == Some(parts),
    ensures
        !is_readable(parts.signature) ==> !is_verifiable(contents, keys),
        packet_content(parts.signature) == Some(
            PacketContentView::Signature(Some(id), Some(value)),
        ) && value.len() >= 256 && refusal(contents, Set::empty()) == Some(
            "no known keys could validate the signature"@,
        ) && keys.contains((PublicKeyView::Rsa(n, e), id)) && !(n.len() > 0 && n[n.len() - 1] % 2
            == 1 && e.len() > 0 && e[e.len() - 1] % 2 == 1) ==> !is_verifiable(contents, keys),
{
    if keys.contains((PublicKeyView::Rsa(n, e), id)) && usable_keys(keys, id) {
        assert(is_usable(PublicKeyView::Rsa(n, e)));
    }
}

/// A file whose signature is accepted is signed by a key that the keyring holds under the id in the
/// signature, and its message is what comes out; one that is refused is refused for the reason
/// that comes out.
pub(crate) proof fn verified_message_is_the_signed_one(
    keyring: &AptKeyring,
    contents: &[u8],
    r: Result<Vec<u8>, failure::Error>,
)
    requires
        call_ensures(AptKeyring::verify, (keyring, contents), r),
    ensures
        r is Ok <==> refusal(contents@, keyring@) is None,
        r matches Ok(text) ==> {
            &&& clearsigned(contents@) matches Some(parts)
            &&& parts.text == text@
            &&& packet_content(parts.signature) matches Some(
                PacketContentView::Signature(Some(id), _),
            )
            &&& exists|n: Seq<u8>, e: Seq<u8>| #[trigger]
                keyring@.contains((PublicKeyView::Rsa(n, e), id))
        },
        r matches Err(why) ==> refuses_signature(contents@, keyring@, why),
{
}

/// The first file that was not read, or that does not hold keys alone, is found.
pub proof fn first_unsound_file_is_found(files: Seq<KeyFile>, n: int)
    requires
        0 <= n <= files.len(),
        forall|i: int|
            0 <= i < n ==> ((#[trigger] files[i]).content matches Ok(bytes) && key_file(
                bytes@,
            ).1 is Some),
        n < files.len() ==> !(files[n].content matches Ok(bytes) && key_file(bytes@).1 is Some),
    ensures
        first_unsound(files) == n,
{
    assert forall|i: int| 0 <= i < n implies is_sound(#[trigger] files[i]) by {}
    lemma_first_unsound(files, n);
}

/// A keyring that was collected from files holds what one of them holds, and nothing else.
pub proof fn held_keys_are_those_of_the_files(files: Seq<KeyFile>, key: (PublicKeyView, u64))
    ensures
        keys_of_files(files).contains(key) <==> exists|i: int|
            0 <= i < files.len() && ((#[trigger] files[i]).content matches Ok(bytes) && key_file(
                bytes@,
            ).0.contains(key)),
    decreases files.len(),
{
    if files.len() > 0 {
        let rest = files.drop_last();
        held_keys_are_those_of_the_files(rest, key);
        if exists|i: int|
            0 <= i < rest.len() && ((#[trigger] rest[i]).content matches Ok(bytes) && key_file(
                bytes@,
            ).0.contains(key)) {
            let i = choose|i: int|
                0 <= i < rest.len() && ((#[trigger] rest[i]).content matches Ok(bytes) && key_file(
                    bytes@,
                ).0.contains(key));
            assert(files[i] == rest[i]);
        }
        if exists|i: int|
            0 <= i < files.len() && ((#[trigger] files[i]).content matches Ok(bytes) && key_file(
                bytes@,
            ).0.contains(key)) {
            let i = choose|i: int|
                0 <= i < files.len() && ((#[trigger] files[i]).content matches Ok(bytes)
                    && key_file(bytes@).0.contains(key));
            if i < rest.len() {
                assert(rest[i] == files[i]);
            }
        }
        let last = files.len() - 1;
        assert(files[last] == files.last());
    }
}

/// Files are searched for keys up to the first that is not sound: of these, each that was read
/// must be one that can be read packet by packet, and no other is asked for.
pub proof fn files_are_searched_up_to_the_first_unsound(files: Seq<KeyFile>, n: int)
    requires
        0 <= n <= files.len(),
        forall|i: int|
            0 <= i < n ==> ((#[trigger] files[i]).content matches Ok(bytes) && key_file(
                bytes@,
            ).1 is Some),
        n < files.len() ==> !(files[n].content matches Ok(bytes) && key_file(bytes@).1 is Some),
    ensures
        are_searchable(files) <==> forall|i: int|
            0 <= i < files.len() && i <= n ==> ((#[trigger] files[i]).content matches Ok(bytes)
                ==> key_file_readable(bytes@)),
{
    first_unsound_file_is_found(files, n);
    if are_searchable(files) {
        assert forall|i: int| 0 <= i < files.len() && i <= n implies ((
        #[trigger] files[i]).content matches Ok(bytes) ==> key_file_readable(bytes@)) by {
            assert(is_searchable(files[i]));
        }
    }
}

/// A keyring is collected from files that all were read and hold keys alone, and holds the keys of
/// each of them; otherwise the first that is not so is named, with what was wrong with it.
pub proof fn keyring_is_collected_from_all_files(
    files: Vec<KeyFile>,
    n: int,
    r: Result<AptKeyring, KeyringError>,
)
    requires
        call_ensures(AptKeyring::new, (files,), r),
        0 <= n <= files@.len(),
        forall|i: int|
            0 <= i < n ==> ((#[trigger] files@[i]).content matches Ok(bytes) && key_file(
                bytes@,
            ).1 is Some),
        n < files@.len() ==> !(files@[n].content matches Ok(bytes) && key_file(bytes@).1 is Some),
    ensures
        n == files@.len() ==> (r matches Ok(keyring) && forall|key: (PublicKeyView, u64)|
            #[trigger] keyring@.contains(key) <==> exists|i: int|
                0 <= i < n && ((#[trigger] files@[i]).content matches Ok(bytes) && key_file(
                    bytes@,
                ).0.contains(key))),
        n < files@.len() ==> match files@[n].content {
            Ok(bytes) => {
                &&& r matches Err(KeyringError::Keys { path, why })
                &&& path@ == files@[n].path@
                &&& refuses_file(keys_of_files(files@.take(n)), bytes@, why)
            },
            Err(e) => {
                &&& r matches Err(KeyringError::Read { path, why })
                &&& path@ == files@[n].path@
                &&& why == e
            },
        },
{
    first_unsound_file_is_found(files@, n);
    if n == files@.len() {
        let keyring = r->Ok_0;
        assert forall|key: (PublicKeyView, u64)| #[trigger]
            keyring@.contains(key) <==> exists|i: int|
                0 <= i < n && ((#[trigger] files@[i]).content matches Ok(bytes) && key_file(
                    bytes@,
                ).0.contains(key)) by {
            held_keys_are_those_of_the_files(files@, key);
        }
    }
}

/// Adding the keys of a file keeps the keys that are held, and adds those of the file and no
/// others. How many they are is told where the file holds keys alone, and which file it is where it
/// does not.
pub proof fn adding_keys_keeps_the_others()
    ensures
        forall|k: &mut AptKeyring, path: &str, bytes: &[u8], r: Result<usize, KeyringError>|
            #![trigger call_ensures(AptKeyring::append_keys_from, (k, path, bytes), r)]
            call_ensures(AptKeyring::append_keys_from, (k, path, bytes), r) ==> {
                &&& forall|key: (PublicKeyView, u64)| #[trigger]
                    (*final(k))@.contains(key) <==> (*k)@.contains(key) || key_file(
                        bytes@,
                    ).0.contains(key)
                &&& r is Ok <==> key_file(bytes@).1 is Some
                &&& r matches Ok(n) ==> key_file(bytes@).1 == Some(n)
                &&& r matches Err(e) ==> (e matches KeyringError::Keys { path: at, why } && at@
                    == path@ && refuses_file((*k)@, bytes@, why))
            },
{
}

/// The keys of files are collected, or added, exactly where the files can be searched for keys,
/// with the same outcome as without the test.
pub proof fn searchable_files_are_searched(files: Vec<KeyFile>, r: Option<Result<AptKeyring, KeyringError>>)
    requires
        call_ensures(AptKeyring::try_new, (files,), r),
    ensures
        r is Some <==> are_searchable(files@),
        r matches Some(Ok(keyring)) ==> first_unsound(files@) == files@.len() && keyring@
            == keys_of_files(files@),
        r matches Some(Err(error)) ==> ({
            let n = first_unsound(files@) as int;
            &&& n < files@.len()
            &&& files@[n].content matches Err(e) ==> (error matches KeyringError::Read { path, why }
                && path@ == files@[n].path@ && why == e)
            &&& files@[n].content matches Ok(bytes) ==> (error matches KeyringError::Keys {
                path,
                why,
            } && path@ == files@[n].path@ && refuses_file(
                keys_of_files(files@.take(n)),
                bytes@,
                why,
            ))
        }),
        forall|
            k: &mut AptKeyring,
            path: &str,
            bytes: &[u8],
            r: Option<Result<usize, KeyringError>>,
        |
            #![trigger call_ensures(AptKeyring::try_append_keys_from, (k, path, bytes), r)]
            call_ensures(AptKeyring::try_append_keys_from, (k, path, bytes), r) ==> {
                &&& r is Some <==> key_file_readable(bytes@)
                &&& r is None ==> (*final(k))@ == (*k)@
                &&& r is Some ==> forall|key: (PublicKeyView, u64)| #[trigger]
                    (*final(k))@.contains(key) <==> (*k)@.contains(key) || key_file(
                        bytes@,
                    ).0.contains(key)
                &&& r matches Some(Ok(n)) ==> key_file(bytes@).1 == Some(n)
                &&& r matches Some(Err(e)) ==> key_file(bytes@).1 is None && (
                e matches KeyringError::Keys { path: at, why } && at@ == path@ && refuses_file(
                    (*k)@,
                    bytes@,
                    why,
                ))
            },
{
}

/// An error about a file in words names the file, and then what is wrong with it.
pub proof fn key_errors_name_the_file(path: &str, why: &str, r: String)
    requires
        call_ensures(KeyringError::message, (path, why), r),
    ensures
        r@ == "failed to add keys from keyring at "@ + path@ + ": "@ + why@,
{
}

/// A signer is known where the signature of a file names an id, and an RSA key is held under it. A
/// file is validly signed where nothing is said against it.
pub proof fn signers_are_known_by_their_ids(contents: Seq<u8>, keys: Set<(PublicKeyView, u64)>)
    ensures
        has_known_signer(contents, keys) <==> (clearsigned(contents) matches Some(parts) && (
        packet_content(parts.signature) matches Some(PacketContentView::Signature(Some(id), _))
            && exists|n: Seq<u8>, e: Seq<u8>| #[trigger]
            keys.contains((PublicKeyView::Rsa(n, e), id)))),
        is_validly_signed(contents, keys) <==> refusal(contents, keys) is None,
{
}

/// The errors of a keyring are those of the outside calls, made with the same keys on the same
/// files.
proof fn refusals_are_the_outside_ones(
    keys: Set<(PublicKeyView, u64)>,
    bytes: Seq<u8>,
    why: failure::Error,
)
    ensures
        refuses_file(keys, bytes, why) ==> exists|keyring: &mut Keyring, file: &[u8]|
            keyring_keys(*keyring) == keys && file@ == bytes && #[trigger] call_ensures(
                add_keys,
                (keyring, file),
                Err(why),
            ),
        refuses_signature(bytes, keys, why) ==> exists|
            file: &[u8],
            keyring: &Keyring,
            text: String,
        |
            file@ == bytes && keyring_keys(*keyring) == keys && #[trigger] call_ensures(
                verify_clearsigned,
                (file, keyring),
                Err(Refusal { why, text }),
            ),
{
}

/// A clearsigned file is seen as its message and its signature.
pub proof fn clearsigned_files_are_seen_in_full(parts: Clearsigned)
    ensures
        parts@.text == parts.text@,
        parts@.signature == parts.signature@,
{
}

/// Keys are collected from all files that can be searched, and added from every file that can be
/// read packet by packet.
pub proof fn readable_files_are_taken(files: Vec<KeyFile>, path: &str, bytes: &[u8])
    ensures
        are_searchable(files@) ==> call_requires(AptKeyring::new, (files,)),
        call_requires(AptKeyring::try_new, (files,)),
        forall|k: &mut AptKeyring|
            key_file_readable(bytes@) ==> #[trigger] call_requires(
                AptKeyring::append_keys_from,
                (k, path, bytes),
            ),
        forall|k: &mut AptKeyring| #[trigger]
            call_requires(AptKeyring::try_append_keys_from, (k, path, bytes)),
        forall|k: &AptKeyring| #[trigger] call_requires(AptKeyring::can_verify, (k, bytes)),
{
}

} // verus!
