use riscv_paging::microflop::{build_archive, Error, FileName, HeaderEntryType, Microflop, MAGIC};

#[test]
fn test() {
    assert_eq!(HeaderEntryType::try_from_u8(1), Ok(HeaderEntryType::Entry));
    assert_eq!(HeaderEntryType::try_from_u8(0), Ok(HeaderEntryType::End));
    assert_eq!(HeaderEntryType::try_from_u8(5), Err(()));
}

#[test]
fn magic_is_mewing() {
    assert_eq!(MAGIC, u64::from_le_bytes(*b"*mewing*"));
}

#[test]
fn file_names() {
    let n = FileName::new("init").unwrap();
    assert_eq!(&n.0[..5], b"init\0");
    assert_eq!(n.as_str(), Ok("init"));
    assert_eq!(FileName::new("fifteen_bytes__").unwrap_err(), Error::BadEntry);
    assert_eq!(FileName::new("fourteen_bytes").unwrap().as_str(), Ok("fourteen_bytes"));
    assert_eq!(FileName([b'a'; 15]).as_str(), Err(Error::BadEntry));
    let mut bad = [0u8; 15];
    bad[0] = 0xff;
    assert_eq!(FileName(bad).as_str(), Err(Error::BadEntry));
    assert_eq!(FileName::empty().as_str(), Ok(""));
}

#[test]
fn build_then_read_back() {
    let names = vec![FileName::new("a").unwrap(), FileName::new("bb").unwrap()];
    let contents = vec![vec![1u8, 2, 3], b"hello world".to_vec()];
    let bytes = build_archive(&names, &contents).unwrap();
    // header, three entries, then 8 + 16 bytes of padded data
    assert_eq!(bytes.len(), 8 + 3 * 24 + 8 + 16);
    assert_eq!(&bytes[..8], b"*mewing*");
    let mf = Microflop::new(&bytes).unwrap();
    let mut files = mf.files();
    let (n0, d0) = files.next().unwrap().unwrap();
    assert_eq!(n0.as_str(), Ok("a"));
    assert_eq!(d0, &[1u8, 2, 3]);
    let (n1, d1) = files.next().unwrap().unwrap();
    assert_eq!(n1.as_str(), Ok("bb"));
    assert_eq!(d1, b"hello world");
    assert_eq!(files.next(), Ok(None));
    assert_eq!(files.next(), Ok(None));

    let mut entries = mf.entries();
    let (e0, _) = entries.next().unwrap().unwrap();
    assert_eq!(e0.begin.0, 80);
    assert_eq!(e0.end.0, 83);
    let (e1, _) = entries.next().unwrap().unwrap();
    assert_eq!(e1.begin.0, 88);
    assert_eq!(e1.end.0, 99);
}

#[test]
fn bad_archives() {
    assert_eq!(Microflop::new(b"*mewing").unwrap_err(), Error::BadMagic);
    assert_eq!(Microflop::new(b"*meowing*").unwrap_err(), Error::BadMagic);
    let mut bytes = b"*mewing*".to_vec();
    bytes.extend_from_slice(&[0u8; 10]);
    let mf = Microflop::new(&bytes).unwrap();
    assert_eq!(mf.files().next(), Err(Error::BadEntry));
    let mut bytes = b"*mewing*".to_vec();
    let mut entry = [0u8; 24];
    entry[15] = 7;
    bytes.extend_from_slice(&entry);
    assert_eq!(Microflop::new(&bytes).unwrap().entries().next().unwrap_err(), Error::BadEntry);
}

#[test]
fn entry_with_file_outside_archive_is_refused() {
    let names = vec![FileName::new("x").unwrap()];
    let contents = vec![vec![9u8; 4]];
    let mut bytes = build_archive(&names, &contents).unwrap();
    bytes.truncate(bytes.len() - 8);
    let mf = Microflop::new(&bytes).unwrap();
    assert_eq!(mf.files().next(), Err(Error::BadEntry));
}

#[test]
fn serialize_entry_layout() {
    let names = vec![FileName::new("k").unwrap()];
    let contents = vec![vec![]];
    let bytes = build_archive(&names, &contents).unwrap();
    let mut out = vec![];
    let mf = Microflop::new(&bytes).unwrap();
    let (e, data) = mf.entries().next().unwrap().unwrap();
    assert!(data.is_empty());
    e.serialize(&mut out);
    assert_eq!(out, bytes[8..32].to_vec());
    assert_eq!(out[15], 1);
    assert_eq!(&out[16..20], &56u32.to_le_bytes());
}

#[test]
fn too_long_file_name_is_bad_entry() {
    assert_eq!(FileName::new("a_name_of_20_bytes__"), Err(Error::BadEntry));
}
