use apt_fetcher::keyring::{AptKeyring, KeyFile, KeyringError};
use apt_fetcher::packets::{can_read_packet, is_key_file_readable};

const KEY: &str = "\
    99010d0459682f00010800c330738c50a378738d407990a69b25128ff9e26defac80a0cd75cf68a30d7e7ac3\
    c3494f176cbe54ab9a197c01c9ed9a1c0d1306d1563d97f0b718209342279933498c9b2376bbbd827e127db3\
    866dcc8a0a6254b1fa05dba6ad2d2f797cfb912c8a4cd1f860c5a7d5285f6437e3c9821f47a7c3a130198ea6\
    9cef2a3027eb0ce9aceb47f7278eece2d4a3aa3cbaa7f63cc32438d81f682785042de13d3fa1317ec40740ac\
    8fe240ec680e53e420360f5b8626ed9b290b563ccc1c9ac984e538f8f1d91c35dff2badbc5a04abaf6b799de\
    2a57d9904895ffde93f6cc068f965c59b68602414565fb6d087eeabf32b81140e22f2db38e18347c04d25837\
    9e7c330011010001";

const OTHER_KEY: &str = "\
    99020d044e95a65e011000b3f5b78f585cbb9b468fba14734bf4019e9c70e513e3ef5ee123034d17c9bd3ce3\
    0a5542c95c12f9f86919a5357cc18201f16f79b182bbe60865b7dfd05f4a72ab3be1dfb44715b3537bb2135a\
    a905811c8c6ca6cbd00fc29aadb450a035cde9c8c825d55d1556d15d4c3ee558ea691d3c376b3496ae422155\
    54cf2b049e00836b83359dba19cc37c2407c3a6fb47f45ccdbdad718ef49148031d21b8f6da74d4dcf86359d\
    c3d3e1ef94c0958b39b95a1e0b507cdee971366c55bf154adb4e49a90530f5f99f1987b8340dbf3f64f6a767\
    cb9b9edb68b34ab1b4b389991e2a26510ede0df5d6510ab6d321f57811df12a12d7be81143347922f012d281\
    2e423b92ce7b024b55cb667b7b0055d63ea5acbb07bc779d09a9a374c6699e83a56d6e5d6c0d7206f17ede0d\
    0edd0669a51ea2d1f67382f75868bd82c098b89437cc749f91fa366d8c1b6023bc83b23a6fcbcf5f30b30eb2\
    452726f2db78221a44bc56dd8477b23b07eabc1be141f2d315396b6879a16e76c06d954210ff0c704e178b53\
    c3638df17155f9f677e6b5198172eb81fdbac4888b0860e70b0c2939bc27468259f305e22efc5c2f68828727\
    c652ff251ba959b54f88e46f7b70cac10eef5f87dc94ca3bb5dec354642932f0be68b39864fad7bb0f14ff22\
    44d24c6332ef6ae72bbc06c7d23d5ae66d79e9cac2487530ccabb1d38f0c6d6fd0c8c5895e75a50011010001";

/// A message that was signed with the first key.
const HELLO: &str = "-----BEGIN PGP SIGNED MESSAGE-----
Hash: SHA256

Hello
-----BEGIN PGP SIGNATURE-----

iQEcBAEBCAAGBQJZaC9kAAoJEDVxbJqpu5dV/AQH/3jgwCEs8l3aKG6cQyj7eBYY
MnOcSPoIiATkFq9+a8DbvSu6XAPCaVDR5nq90Wqr+647K/39/kIq3u+mMiVW42hx
bKqZccjfklepoMALfK2awuXaaykEjU2Cq80QbUshVoiVDIVAx0YKugGGVB+yGJBe
LyeCanGEzySEcpMC0ye5BdCAnvDLZxnxTQih8zFn+X+7EZA1BX8GI03wVFO/ioIU
l0ONSvSWICC+zJURuT4z5ZAHhPUF7wmhTEzFpieUfHVwq8FbCDwql5cpL0Gju+8g
6tLc2IkEztDdqgum7kHmN+R9xynHRQlrBHA7PXgE83fFC32xJXpSgseZnuGr2F8=
-----END PGP SIGNATURE-----
";

/// A message that was signed with the second key.
const HELLO_WORLD: &str = "-----BEGIN PGP SIGNED MESSAGE-----
Hash: SHA256

Hello, world!
-----BEGIN PGP SIGNATURE-----

iQIcBAEBCAAGBQJaBMknAAoJELGV4cR3m6myBgMP/0ac0Jfy0w7AXbTLpmzHHtmE
WkJpxiPS0F7C6I1Z3pdF6b51akEFi2cGPFjONs687x9DgmeaDfya9IqFUgzUy4lA
LbrVQCBn4QEaVB8UjRZGvfzlMy+F563W5XWJ457cdubdv/2SLhzGnyLZPXmLl7vi
4durah84+o3sT0BzJgs2KoXW8pASkEAakcnmGa1y/LOETMajTCW5frgv4blXbE2J
J3G/AoOw8+wQyf/CPzLadBEGXZIdTvKZlqUJyMT7DEDXGWQW47X+bfHiB8S4BxLt
1oZdIf1yYKSHch+iIjpo2E4RehR91sUvBOqttlVw8y12+QXJBkPieC0yanyrr+zM
Nxc0C/R1l1jbLiMakXsmk8vrUNP6xHwEu0ykg6TlyCLLX70DQ0iK2L6gHW1vf6Ln
4vU9Tfk+yTCa3sxQZjhQLJGLySpKpqnX9T/9AL0yKGzH7Qkd/L0KjHPktKrHrg4n
96Xcdes9RU3buBVfY4TAPUZDlz0QC1QPWorDVy2H8pQEUeX81pgDInlKmHTU1Vgm
x9PpBLVppdLfcKVQ6jx/QQAahR9k04WRvAYFtKChKtoo7KbTO9Y7Gytug6aqxeEi
SjHCAHTgGz0zVxXmVgjIQuINFuj9YEc2MhGZAIGb7CGVD8cijBY7WKYxpQ3EIOgX
5mfgynqdURCBGFcdZq6M
=Vi1y
-----END PGP SIGNATURE-----
";

/// A message whose signature names the id that the first key has with an even exponent.
const EVEN_HELLO: &str = "-----BEGIN PGP SIGNED MESSAGE-----
Hash: SHA256

Hello
-----BEGIN PGP SIGNATURE-----

iQEcBAEBCAAGBQJZaC9kAAoJELkntRAWi+bW/AQH/3jgwCEs8l3aKG6cQyj7eBYY
MnOcSPoIiATkFq9+a8DbvSu6XAPCaVDR5nq90Wqr+647K/39/kIq3u+mMiVW42hx
bKqZccjfklepoMALfK2awuXaaykEjU2Cq80QbUshVoiVDIVAx0YKugGGVB+yGJBe
LyeCanGEzySEcpMC0ye5BdCAnvDLZxnxTQih8zFn+X+7EZA1BX8GI03wVFO/ioIU
l0ONSvSWICC+zJURuT4z5ZAHhPUF7wmhTEzFpieUfHVwq8FbCDwql5cpL0Gju+8g
6tLc2IkEztDdqgum7kHmN+R9xynHRQlrBHA7PXgE83fFC32xJXpSgseZnuGr2F8=
-----END PGP SIGNATURE-----
";

fn bytes(hex: &str) -> Vec<u8> {
    (0..hex.len() / 2).map(|i| u8::from_str_radix(&hex[2 * i..2 * i + 2], 16).unwrap()).collect()
}

fn file(path: &str, content: Vec<u8>) -> KeyFile {
    KeyFile { path: path.to_string(), content: Ok(content) }
}

fn ring(keys: Vec<Vec<u8>>) -> AptKeyring {
    AptKeyring::new(keys.into_iter().map(|key| file("key", key)).collect()).ok().unwrap()
}

#[test]
fn keys_are_counted() {
    let mut keyring = ring(Vec::new());
    assert!(matches!(keyring.append_keys_from("a", &bytes(KEY)), Ok(1)));
    let mut both = bytes(KEY);
    both.extend(bytes(OTHER_KEY));
    assert!(matches!(keyring.append_keys_from("b", &both), Ok(2)));
    assert!(matches!(keyring.append_keys_from("c", &[]), Ok(0)));
}

#[test]
fn keyring_holds_the_keys_of_all_files() {
    let keyring = ring(vec![bytes(KEY), bytes(OTHER_KEY)]);
    assert_eq!(keyring.keys_with_id(0x35716c9aa9bb9755).len(), 1);
    assert_eq!(keyring.keys_with_id(0xb195e1c4779ba9b2).len(), 1);
    assert_eq!(keyring.keys_with_id(1).len(), 0);
}

#[test]
fn file_without_keys_is_an_error() {
    let files = vec![file("good", bytes(KEY)), file("bad", b"text".to_vec())];
    match AptKeyring::new(files) {
        Err(KeyringError::Keys { path, why }) => {
            assert_eq!(path, "bad");
            let message = KeyringError::message(&path, &why.to_string());
            assert!(message.starts_with("failed to add keys from keyring at bad: "));
            let bad = gpgrv::Keyring::new().append_keys_from(b"text".as_ref());
            assert_eq!(why.to_string(), bad.err().unwrap().to_string());
        }
        _ => panic!(),
    }
}

#[test]
fn unreadable_file_is_an_error() {
    let missing = std::io::Error::new(std::io::ErrorKind::NotFound, "gone");
    let files = vec![
        KeyFile { path: "missing".to_string(), content: Err(missing) },
        file("bad", b"text".to_vec()),
    ];
    match AptKeyring::new(files) {
        Err(KeyringError::Read { path, why }) => {
            assert_eq!(path, "missing");
            assert_eq!(why.kind(), std::io::ErrorKind::NotFound);
        }
        _ => panic!(),
    }
}

#[test]
fn keys_before_an_error_are_kept() {
    let mut keyring = ring(Vec::new());
    let mut damaged = bytes(KEY);
    damaged.push(0);
    assert!(keyring.append_keys_from("a", &damaged).is_err());
    assert_eq!(keyring.keys_with_id(0x35716c9aa9bb9755).len(), 1);
}

#[test]
fn signatures_can_be_checked() {
    let keyring = ring(vec![bytes(KEY)]);
    assert!(keyring.can_verify(HELLO.as_bytes()));
    assert!(keyring.can_verify(HELLO_WORLD.as_bytes()));
    assert!(keyring.can_verify(b"not signed"));
}

#[test]
fn even_keys_cannot_be_used() {
    let mut even = bytes(KEY);
    let last = even.len() - 1;
    even[last] = 0;
    let mut keyring = ring(Vec::new());
    assert!(matches!(keyring.append_keys_from("even", &even), Ok(1)));
    assert_eq!(keyring.keys_with_id(0xb927b510168be6d6).len(), 1);
    assert!(!keyring.can_verify(EVEN_HELLO.as_bytes()));
    assert!(keyring.can_verify(HELLO.as_bytes()));
    assert!(ring(vec![bytes(KEY)]).can_verify(EVEN_HELLO.as_bytes()));
}

#[test]
fn key_files_are_told_to_be_readable() {
    assert!(is_key_file_readable(&bytes(KEY)));
    assert!(is_key_file_readable(&bytes(OTHER_KEY)));
    assert!(is_key_file_readable(&[]));
    assert!(is_key_file_readable(b"text"));
}

#[test]
fn oversized_keys_are_told_to_be_unreadable() {
    for (first, readable) in vec![(0x7f, false), (0xff, true)] {
        let mut body = vec![4, 0, 0, 0, 0, 1, 0xff, 0xff, first];
        body.extend(vec![0xff; 8191]);
        body.extend(vec![0, 1, 1]);
        let mut packet = vec![0x99, (body.len() / 256) as u8, (body.len() % 256) as u8];
        packet.extend(body);
        assert_eq!(is_key_file_readable(&packet), readable);
        assert!(can_read_packet(&packet));
    }
}

#[test]
fn cut_subpackets_are_told_to_be_unreadable() {
    let whole = vec![0x88, 11, 4, 1, 1, 8, 0, 0, 0, 1, 100, 0, 0];
    assert!(can_read_packet(&whole));
    let cut = vec![0x88, 11, 4, 1, 1, 8, 0, 0, 0, 1, 200, 0, 0];
    assert!(!can_read_packet(&cut));
    assert!(!is_key_file_readable(&cut));
    assert!(can_read_packet(&[]));
}

#[test]
fn refused_signatures_need_not_be_whole() {
    for (place, code) in vec![(3, 2), (4, 2), (5, 7)] {
        let mut packet = vec![0x88, 11, 4, 1, 1, 8, 0, 0, 0, 1, 200, 0, 0];
        packet[place] = code;
        assert!(can_read_packet(&packet));
        let mut keyring = ring(Vec::new());
        assert!(matches!(
            keyring.try_append_keys_from("a", &packet),
            Some(Err(KeyringError::Keys { .. }))
        ));
    }
}

#[test]
fn nothing_behind_a_refused_packet_matters() {
    let mut bytes_of_file = bytes(KEY);
    bytes_of_file.push(0);
    bytes_of_file.extend(vec![0x88, 11, 4, 1, 1, 8, 0, 0, 0, 1, 200, 0, 0]);
    assert!(is_key_file_readable(&bytes_of_file));
    let mut keyring = ring(Vec::new());
    assert!(matches!(
        keyring.try_append_keys_from("a", &bytes_of_file),
        Some(Err(KeyringError::Keys { .. }))
    ));
    assert_eq!(keyring.keys_with_id(0x35716c9aa9bb9755).len(), 1);
}

#[test]
fn nothing_behind_a_bad_file_matters() {
    let cut = vec![0x88, 11, 4, 1, 1, 8, 0, 0, 0, 1, 200, 0, 0];
    let files = vec![file("good", bytes(KEY)), file("bad", b"text".to_vec()), file("cut", cut.clone())];
    match AptKeyring::try_new(files) {
        Some(Err(KeyringError::Keys { path, .. })) => assert_eq!(path, "bad"),
        _ => panic!(),
    }
    assert!(AptKeyring::try_new(vec![file("good", bytes(KEY)), file("cut", cut.clone())]).is_none());
    assert!(matches!(AptKeyring::try_new(vec![file("good", bytes(KEY))]), Some(Ok(_))));
    let mut keyring = ring(Vec::new());
    assert!(keyring.try_append_keys_from("cut", &cut).is_none());
}

#[test]
fn unused_keys_need_not_be_usable() {
    let mut even = bytes(KEY);
    let last = even.len() - 1;
    even[last] = 0;
    let keyring = ring(vec![even]);
    assert!(!keyring.can_verify(EVEN_HELLO.as_bytes()));
    let tampered = EVEN_HELLO.replace("Hello", "Howdy");
    assert!(keyring.can_verify(tampered.as_bytes()));
}
