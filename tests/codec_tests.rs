use securevault::codec::{
    decode_entry, decode_header, encode_entry, encode_header, read_varint, write_varint,
    ArgonParamsOnDisk, VaultEntry, VaultHeader,
};

fn entry(id: u8, title: &str, user: &str, pass: &str) -> VaultEntry {
    VaultEntry {
        id: [id; 16],
        title: title.to_string(),
        username: user.to_string(),
        password: pass.to_string(),
    }
}

#[test]
fn varint_encodes_300_in_two_bytes() {
    let mut out = Vec::new();
    write_varint(&mut out, 300);
    assert_eq!(out, vec![0xAC, 0x02]);
    assert_eq!(read_varint(&out, 0, u64::MAX), Some((300, 2)));
}

#[test]
fn varint_small_values_are_one_byte() {
    let mut out = Vec::new();
    write_varint(&mut out, 0);
    write_varint(&mut out, 127);
    assert_eq!(out, vec![0, 127]);
}

#[test]
fn varint_over_cap_is_refused() {
    let mut out = Vec::new();
    write_varint(&mut out, 70000);
    assert_eq!(read_varint(&out, 0, 0xFFFF), None);
    assert_eq!(read_varint(&out, 0, 0xFFFF_FFFF), Some((70000, 3)));
}

#[test]
fn varint_cut_short_is_refused() {
    assert_eq!(read_varint(&[0x80, 0x80], 0, u64::MAX), None);
}

#[test]
fn entry_encoding_layout() {
    let e = entry(7, "Email", "alice", "p@ss");
    let b = encode_entry(&e);
    let mut expected = vec![7u8; 16];
    expected.push(5);
    expected.extend_from_slice(b"Email");
    expected.push(5);
    expected.extend_from_slice(b"alice");
    expected.push(4);
    expected.extend_from_slice(b"p@ss");
    assert_eq!(b, expected);
}

#[test]
fn entry_round_trip() {
    let e = entry(1, "Bank ünïcödé", "bob", "s3cr3t!");
    let d = decode_entry(&encode_entry(&e)).unwrap();
    assert_eq!(d.id, e.id);
    assert_eq!(d.title, e.title);
    assert_eq!(d.username, e.username);
    assert_eq!(d.password, e.password);
}

#[test]
fn tombstone_round_trip() {
    let e = entry(9, "", "", "");
    let b = encode_entry(&e);
    assert_eq!(b.len(), 19);
    let d = decode_entry(&b).unwrap();
    assert!(d.title.is_empty() && d.username.is_empty() && d.password.is_empty());
}

#[test]
fn entry_with_trailing_bytes_is_refused() {
    let mut b = encode_entry(&entry(1, "a", "b", "c"));
    b.push(0);
    assert!(decode_entry(&b).is_none());
}

#[test]
fn entry_with_invalid_utf8_is_refused() {
    let mut b = vec![0u8; 16];
    b.extend_from_slice(&[2, 0xFF, 0xFE, 0, 0]);
    assert!(decode_entry(&b).is_none());
}

#[test]
fn header_round_trip() {
    let h = VaultHeader {
        magic: *b"SVLT1",
        version: 1,
        kdf_params: ArgonParamsOnDisk { mem_kib: 262144, iterations: 3, parallelism: 4 },
        salt_kek: [3u8; 32],
        wrapped_dek: vec![5u8; 60],
    };
    let b = encode_header(&h);
    // 5 magic + 1 version + 3 mem + 1 + 1 + 32 salt + 1 length + 60
    assert_eq!(b.len(), 104);
    let d = decode_header(&b).unwrap();
    assert_eq!(d.magic, h.magic);
    assert_eq!(d.version, 1);
    assert_eq!(d.kdf_params.mem_kib, 262144);
    assert_eq!(d.kdf_params.iterations, 3);
    assert_eq!(d.kdf_params.parallelism, 4);
    assert_eq!(d.salt_kek, h.salt_kek);
    assert_eq!(d.wrapped_dek, h.wrapped_dek);
}

#[test]
fn header_truncated_is_refused() {
    let h = VaultHeader {
        magic: *b"SVLT1",
        version: 1,
        kdf_params: ArgonParamsOnDisk { mem_kib: 64, iterations: 1, parallelism: 1 },
        salt_kek: [0u8; 32],
        wrapped_dek: vec![1u8; 60],
    };
    let b = encode_header(&h);
    assert!(decode_header(&b[..b.len() - 1]).is_none());
}
