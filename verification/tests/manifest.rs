use ruplicity::manifest::{from_hex, nibble, unescape, Manifest, ManifestChain, ParseError, WordIter};

const MANIFEST: &[u8] = b"Hostname dellxps
Localdir dir1
Volume 1:
    StartingPath   .
    EndingPath     \"a\\x20b\" 2
    Hash SHA1 e4a2e8e2abfba2cb24772e5ff9da4b85b3c19a0c
Volume 2:
    StartingPath   \"a\\x20b\" 3
    EndingPath     c
    Hash SHA1 0011
";

#[test]
fn parse_manifest_data() {
    let m = Manifest::parse(MANIFEST).unwrap();
    assert_eq!(m.hostname(), "dellxps");
    assert_eq!(m.local_dir().unwrap().as_bytes(), b"dir1");
    assert_eq!(m.last_volume_index(), 2);
    let v1 = m.volume(1).unwrap();
    assert_eq!(v1.start_path_bytes(), b".");
    assert_eq!(v1.end_path_bytes(), b"a b");
    assert_eq!(v1.start_block(), None);
    assert_eq!(v1.end_block(), Some(2));
    assert_eq!(v1.hash_type(), "SHA1");
    assert_eq!(v1.hash().to_vec(),
               vec![0xe4, 0xa2, 0xe8, 0xe2, 0xab, 0xfb, 0xa2, 0xcb, 0x24, 0x77, 0x2e, 0x5f,
                    0xf9, 0xda, 0x4b, 0x85, 0xb3, 0xc1, 0x9a, 0x0c]);
    let v2 = m.volume(2).unwrap();
    assert_eq!(v2.start_block(), Some(3));
    assert_eq!(v2.hash(), &[0x00, 0x11]);
    assert!(m.volume(0).is_none());
    assert!(m.volume(3).is_none());
}

#[test]
fn volumes_of_path() {
    let m = Manifest::parse(MANIFEST).unwrap();
    assert_eq!(m.first_volume_of_path(b"a b"), Some(1));
    assert_eq!(m.last_volume_of_path(b"a b"), Some(2));
    assert_eq!(m.first_volume_of_path(b"b"), Some(2));
    assert_eq!(m.first_volume_of_path(b"zzz"), None);
    assert_eq!(m.last_volume_of_path(b"zzz"), None);
}

#[test]
fn manifest_errors() {
    match Manifest::parse(b"Host dellxps\n") {
        Err(ParseError::MissingKeyword(k)) => assert_eq!(k, "Hostname"),
        other => panic!("unexpected {:?}", other),
    }
    match Manifest::parse(b"") {
        Err(ParseError::Io(e)) => assert_eq!(e.kind(), std::io::ErrorKind::UnexpectedEof),
        other => panic!("unexpected {:?}", other),
    }
    assert!(Manifest::parse(b"Hostname h\n").unwrap_err().is_unexpected_eof());
    assert!(!Manifest::parse(b"Host h\n").unwrap_err().is_unexpected_eof());
    let swapped = b"Hostname h\nLocaldir d\nVolume 2:\n StartingPath a\n EndingPath b\n Hash SHA1 00\n";
    match Manifest::parse(swapped) {
        Err(e) => {
            assert_eq!(e.to_display_string(), "volumes are not sorted around volume 2");
            assert_eq!(e.description(), Some("a volume is missing or volumes are unsorted"));
        }
        other => panic!("unexpected {:?}", other),
    }
    let no_hash = b"Hostname h\nLocaldir d\nVolume 1:\n StartingPath a\n EndingPath b\n Hash SHA1\n";
    match Manifest::parse(no_hash) {
        Err(ParseError::MissingHash) => {}
        other => panic!("unexpected {:?}", other),
    }
    let bad_num = b"Hostname h\nLocaldir d\nVolume x:\n";
    match Manifest::parse(bad_num) {
        Err(ParseError::ParseInt(_)) => {}
        other => panic!("unexpected {:?}", other),
    }
}

#[test]
fn hex_and_escapes() {
    assert_eq!(nibble(b'a'), 10);
    assert_eq!(nibble(b'9'), 9);
    assert_eq!(nibble(b'G'), 0);
    assert_eq!(from_hex(b"0aff1"), vec![0x0a, 0xff]);
    assert_eq!(unescape(b"\"a\\x20b\""), b"a b".to_vec());
    // a backslash not followed by an escape is dropped
    assert_eq!(unescape(b"a\\qb"), b"aqb".to_vec());
    assert_eq!(unescape(b"\""), b"\"".to_vec());
    assert_eq!(unescape(b""), Vec::<u8>::new());
}

#[test]
fn words_skip_spaces() {
    let mut w = WordIter::new(b"  one  two ");
    assert_eq!(w.next_word(), Some(&b"one"[..]));
    assert_eq!(w.next_word(), Some(&b"two"[..]));
    assert_eq!(w.next_word(), None);
}

#[test]
fn manifest_chain_holds_manifests() {
    let m = Manifest::parse(MANIFEST).unwrap();
    let chain = ManifestChain::new(vec![m]);
    assert!(chain.get(0).is_some());
    assert!(chain.get(1).is_none());
    assert_eq!(chain.iter().count(), 1);
}
