use downloader::{Checksum, ChecksumError, CsType, Hasher};

const EMPTY: [(&str, usize); 6] = [
    ("d41d8cd98f00b204e9800998ecf8427e", 32),
    ("da39a3ee5e6b4b0d3255bfef95601890afd80709", 40),
    ("d14a028c2a3a2bc9476102bb288234c415a2b01f828ea62ac5b3e42f", 56),
    ("e3b0c44298fc1c149afbf4c8996fb92427ae41e4649b934ca495991b7852b855", 64),
    ("38b060a751ac96384cd9327eb1b1e36a21fdb71114be07434c0cc7bf63f6e1da274edebfe76f65fbd51ad2f14898b95b", 96),
    ("cf83e1357eefb8bdf1542850d66d8007d620e4050b5715dc83f4a921d36ce9ce47d0d13c5d85f2b0ff8318d2877eec2f63b931bd47417a81a538327af927da3e", 128),
];

#[test]
fn empty_input_has_the_known_digest_of_each_algorithm() {
    for (digest, size) in EMPTY {
        assert_eq!(digest.len(), size);
        let checksum = Checksum::new(digest).unwrap();
        assert!(checksum.verify());
    }
}

#[test]
fn abc_has_the_known_digests() {
    let cases = [
        "900150983cd24fb0d6963f7d28e17f72",
        "a9993e364706816aba3e25717850c26c9cd0d89d",
        "23097d223405d8228642a477bda255b32aadbce4bda0b3f7e36c9da7",
        "ba7816bf8f01cfea414140de5dae2223b00361a396177a9cb410ff61f20015ad",
        "cb00753f45a35e8bb5a03d699ac65007272c32ab0eded1631a8b605a43ff5bed8086072ba1e7cc2358baeca134c825a7",
        "ddaf35a193617abacc417349ae20413112e6fa4e89a97ea20a9eeee64b55d39a2192992a274fc1a836ba3c23a3feebbd454d4423643ce80e2a9ac94fa54ca49f",
    ];
    for digest in cases {
        let mut checksum = Checksum::new(digest).unwrap();
        checksum.update(b"abc");
        assert!(checksum.verify());
    }
}

#[test]
fn split_input_hashes_like_the_whole() {
    let data: Vec<u8> = (0..1000u32).map(|i| (i % 256) as u8).collect();
    for kind in [CsType::MD5, CsType::Sha1, CsType::Sha224, CsType::Sha256, CsType::Sha384, CsType::Sha512] {
        let mut whole = Hasher::from(kind);
        whole.update(&data);
        let expected = whole.finalize();
        for cut in [0usize, 1, 63, 64, 65, 500, 999, 1000] {
            let mut pieces = Hasher::from(kind);
            pieces.update(&data[..cut]);
            pieces.update(&data[cut..]);
            assert_eq!(pieces.finalize(), expected);
        }
    }
}

#[test]
fn digest_is_lower_case_hex_of_the_right_length() {
    let sizes = [
        (CsType::MD5, 32),
        (CsType::Sha1, 40),
        (CsType::Sha224, 56),
        (CsType::Sha256, 64),
        (CsType::Sha384, 96),
        (CsType::Sha512, 128),
    ];
    for (kind, size) in sizes {
        let text = Hasher::from(kind).finalize();
        assert_eq!(text.len(), size);
        assert!(text.chars().all(|c| c.is_ascii_digit() || ('a'..='f').contains(&c)));
    }
}

#[test]
fn unknown_digest_length_is_refused() {
    assert!(matches!(Checksum::new("abcdef"), Err(ChecksumError::UnrecognizedSize)));
    assert!(matches!(Checksum::new(""), Err(ChecksumError::UnrecognizedSize)));
}

#[test]
fn altered_digest_does_not_verify() {
    let mut checksum =
        Checksum::new("ba7816bf8f01cfea414140de5dae2223b00361a396177a9cb410ff61f20015ae").unwrap();
    checksum.update(b"abc");
    assert!(!checksum.verify());
}

#[test]
fn upper_case_digest_does_not_verify() {
    let mut checksum = Checksum::new("900150983CD24FB0D6963F7D28E17F72").unwrap();
    checksum.update(b"abc");
    assert!(!checksum.verify());
}

#[test]
fn new_inner_keeps_the_given_algorithm() {
    let mut checksum = Checksum::new_inner("a9993e364706816aba3e25717850c26c9cd0d89d", CsType::Sha1);
    checksum.update(b"a");
    checksum.update(b"bc");
    assert!(checksum.verify());
}
