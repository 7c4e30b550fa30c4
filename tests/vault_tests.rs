use securevault::codec::{ArgonParamsOnDisk, VaultEntry, VaultHeader};
use securevault::error::VaultError;
use securevault::vault::{seal_record_with_nonce, VaultStore};

fn header() -> VaultHeader {
    VaultHeader {
        magic: *b"SVLT1",
        version: 1,
        kdf_params: ArgonParamsOnDisk { mem_kib: 64, iterations: 1, parallelism: 1 },
        salt_kek: [1u8; 32],
        wrapped_dek: vec![2u8; 60],
    }
}

fn entry(id: u8, title: &str) -> VaultEntry {
    VaultEntry {
        id: [id; 16],
        title: title.to_string(),
        username: "user".to_string(),
        password: "pw".to_string(),
    }
}

fn new_file() -> (Vec<u8>, VaultStore) {
    let img = VaultStore::create(&header()).unwrap();
    let vs = VaultStore::open("v.svlt".to_string(), &img).unwrap();
    (img, vs)
}

const DEK: [u8; 32] = [42u8; 32];

#[test]
fn create_then_open_keeps_header() {
    let (img, vs) = new_file();
    let n = u32::from_le_bytes([img[0], img[1], img[2], img[3]]) as usize;
    assert_eq!(img.len(), 4 + n);
    assert_eq!(vs.header.magic, *b"SVLT1");
    assert_eq!(vs.header.kdf_params.mem_kib, 64);
    assert_eq!(vs.header.wrapped_dek, vec![2u8; 60]);
    assert_eq!(vs.path, "v.svlt");
    assert_eq!(vs.read_all_entries(&DEK, &img).unwrap().len(), 0);
}

#[test]
fn bad_magic_is_invalid_header() {
    let mut h = header();
    h.magic = *b"SVLT2";
    let img = VaultStore::create(&h).unwrap();
    assert!(matches!(VaultStore::open(String::new(), &img), Err(VaultError::InvalidHeader)));
}

#[test]
fn bad_version_is_invalid_header() {
    let mut h = header();
    h.version = 2;
    let img = VaultStore::create(&h).unwrap();
    assert!(matches!(VaultStore::open(String::new(), &img), Err(VaultError::InvalidHeader)));
}

#[test]
fn short_file_is_io_error() {
    assert!(matches!(VaultStore::open(String::new(), &[1, 0]), Err(VaultError::Io)));
    assert!(matches!(VaultStore::open(String::new(), &[200, 0, 0, 0, 1]), Err(VaultError::Io)));
}

#[test]
fn records_replay_in_append_order() {
    let (mut file, vs) = new_file();
    for (i, t) in ["a", "b", "c"].iter().enumerate() {
        let rec = vs.write_entry(&DEK, &entry(i as u8, t)).unwrap();
        let len = u32::from_le_bytes([rec[0], rec[1], rec[2], rec[3]]) as usize;
        assert_eq!(len, rec.len() - 4);
        assert_eq!(&rec[4..20], &[i as u8; 16]);
        file.extend_from_slice(&rec);
    }
    let all = vs.read_all_entries(&DEK, &file).unwrap();
    let titles: Vec<&str> = all.iter().map(|e| e.title.as_str()).collect();
    assert_eq!(titles, vec!["a", "b", "c"]);
    assert_eq!(all[1].username, "user");
}

#[test]
fn last_write_wins_and_tombstones_remove() {
    let (mut file, vs) = new_file();
    file.extend(vs.write_entry(&DEK, &entry(1, "Email")).unwrap());
    file.extend(vs.write_entry(&DEK, &entry(2, "Bank")).unwrap());
    file.extend(vs.update_entry(&DEK, entry(1, "Email2")).unwrap());
    file.extend(vs.delete_entry(&DEK, [2u8; 16]).unwrap());
    let raw = vs.list_entries(&DEK, &file).unwrap();
    assert_eq!(raw.len(), 4);
    assert_eq!(raw[3].1, "");
    let active = vs.list_active_entries(&DEK, &file).unwrap();
    assert_eq!(active, vec![([1u8; 16], "Email2".to_string())]);
    let got = vs.get_entry(&DEK, &file, [1u8; 16]).unwrap().unwrap();
    assert_eq!(got.title, "Email2");
    let gone = vs.get_entry(&DEK, &file, [2u8; 16]).unwrap().unwrap();
    assert!(gone.title.is_empty() && gone.username.is_empty() && gone.password.is_empty());
    assert!(vs.get_entry(&DEK, &file, [3u8; 16]).unwrap().is_none());
}

#[test]
fn delete_then_write_again_revives() {
    let (mut file, vs) = new_file();
    file.extend(vs.write_entry(&DEK, &entry(1, "x")).unwrap());
    file.extend(vs.delete_entry(&DEK, [1u8; 16]).unwrap());
    assert!(vs.list_active_entries(&DEK, &file).unwrap().is_empty());
    file.extend(vs.write_entry(&DEK, &entry(1, "y")).unwrap());
    assert_eq!(vs.list_active_entries(&DEK, &file).unwrap(), vec![([1u8; 16], "y".to_string())]);
}

#[test]
fn truncation_at_every_offset_gives_a_prefix() {
    let (mut file, vs) = new_file();
    let start = file.len();
    for i in 0..3u8 {
        file.extend(vs.write_entry(&DEK, &entry(i, "t")).unwrap());
    }
    let full = vs.read_all_entries(&DEK, &file).unwrap();
    for cut in start..file.len() {
        let got = vs.read_all_entries(&DEK, &file[..cut]).unwrap();
        assert!(got.len() < full.len());
        for (a, b) in got.iter().zip(full.iter()) {
            assert_eq!(a.id, b.id);
        }
    }
}

#[test]
fn corrupt_record_mid_log_is_corrupt_log() {
    let (mut file, vs) = new_file();
    let start = file.len();
    file.extend(vs.write_entry(&DEK, &entry(1, "a")).unwrap());
    file.extend(vs.write_entry(&DEK, &entry(2, "b")).unwrap());
    file[start + 40] ^= 1;
    assert!(matches!(vs.read_all_entries(&DEK, &file), Err(VaultError::CorruptLog)));
}

#[test]
fn wrong_dek_is_corrupt_log() {
    let (mut file, vs) = new_file();
    file.extend(vs.write_entry(&DEK, &entry(1, "a")).unwrap());
    assert!(matches!(vs.read_all_entries(&[0u8; 32], &file), Err(VaultError::CorruptLog)));
}

#[test]
fn short_length_field_ends_replay() {
    let (mut file, vs) = new_file();
    file.extend(vs.write_entry(&DEK, &entry(1, "a")).unwrap());
    file.extend_from_slice(&[10, 0, 0, 0, 1, 2, 3]);
    assert_eq!(vs.read_all_entries(&DEK, &file).unwrap().len(), 1);
}

#[test]
fn sealing_with_a_given_nonce_is_exact() {
    let (mut file, vs) = new_file();
    let e = entry(5, "Email");
    let a = seal_record_with_nonce(&DEK, &e, &[7u8; 12]).unwrap();
    let b = seal_record_with_nonce(&DEK, &e, &[7u8; 12]).unwrap();
    assert_eq!(a, b);
    assert_eq!(&a[20..32], &[7u8; 12]);
    let c = seal_record_with_nonce(&DEK, &e, &[8u8; 12]).unwrap();
    assert_ne!(a[32..], c[32..]);
    file.extend(a);
    let all = vs.read_all_entries(&DEK, &file).unwrap();
    assert_eq!(all.len(), 1);
    assert_eq!(all[0].title, "Email");
}
