use securevault::codec::VaultHeader;
use securevault::crypto::ArgonParams;
use securevault::error::VaultError;
use securevault::keyring::{
    build_header, create_entry, delete_entry, list_entries, read_entry, unlock, unlock_vault,
    update_entry,
};
use securevault::vault::VaultStore;

fn small_params() -> ArgonParams {
    ArgonParams { mem_kib: 64, iterations: 1, parallelism: 1 }
}

fn vault(master: &[u8]) -> (VaultHeader, Vec<u8>) {
    let h = build_header(master, &small_params(), &[1u8; 32], &[2u8; 32], &[3u8; 12]);
    let img = VaultStore::create(&h).unwrap();
    (h, img)
}

#[test]
fn unlock_with_same_master_succeeds() {
    let (h, img) = vault(b"hunter2");
    assert_eq!(unlock(&h, b"hunter2"), Ok([2u8; 32]));
    assert_eq!(unlock_vault(&img, b"hunter2"), Ok(true));
    let n = u32::from_le_bytes([img[0], img[1], img[2], img[3]]) as usize;
    assert_eq!(img.len(), 4 + n);
}

#[test]
fn unlock_with_other_master_fails() {
    let (h, img) = vault(b"hunter2");
    assert_eq!(unlock(&h, b"hunter3"), Err(VaultError::AuthenticationFailed));
    assert_eq!(unlock_vault(&img, b"hunter3"), Err(VaultError::AuthenticationFailed));
}

#[test]
fn unlock_with_refused_costs_is_invalid_argument() {
    let (mut h, _) = vault(b"m");
    h.kdf_params.iterations = 0;
    assert_eq!(unlock(&h, b"m"), Err(VaultError::InvalidArgument));
}

#[test]
fn entry_lifecycle() {
    let (_, mut file) = vault(b"hunter2");
    let (id, rec) = create_entry(&file, b"hunter2", "Email".into(), "alice".into(), "p@ss".into()).unwrap();
    assert_eq!(id.len(), 36);
    for (i, c) in id.chars().enumerate() {
        if [8, 13, 18, 23].contains(&i) {
            assert_eq!(c, '-');
        } else {
            assert!(c.is_ascii_digit() || ('a'..='f').contains(&c));
        }
    }
    assert_eq!(id.chars().nth(14), Some('4'));
    file.extend(rec);
    let listed = list_entries(&file, b"hunter2").unwrap();
    assert_eq!(listed, vec![(id.clone(), "Email".to_string())]);

    let before = file.len();
    let rec = update_entry(&file, b"hunter2", &id, "Email2".into(), "alice".into(), "new".into()).unwrap();
    file.extend(rec);
    assert!(file.len() > before);
    assert_eq!(read_entry(&file, b"hunter2", &id).unwrap().title, "Email2");
    assert_eq!(list_entries(&file, b"hunter2").unwrap(), vec![(id.clone(), "Email2".to_string())]);

    file.extend(delete_entry(&file, b"hunter2", &id).unwrap());
    assert!(list_entries(&file, b"hunter2").unwrap().is_empty());
    let gone = read_entry(&file, b"hunter2", &id).unwrap();
    assert!(gone.title.is_empty() && gone.username.is_empty() && gone.password.is_empty());
}

#[test]
fn read_of_unknown_id_is_not_found() {
    let (_, file) = vault(b"m");
    assert!(matches!(
        read_entry(&file, b"m", "67e55044-10b1-426f-9247-bb680e5fe0c8"),
        Err(VaultError::NotFound)
    ));
}

#[test]
fn malformed_id_is_invalid_argument() {
    let (_, file) = vault(b"m");
    assert!(matches!(read_entry(&file, b"m", "not-a-uuid"), Err(VaultError::InvalidArgument)));
    assert!(matches!(delete_entry(&file, b"m", "xyz"), Err(VaultError::InvalidArgument)));
}

#[test]
fn wrong_master_blocks_every_operation() {
    let (_, file) = vault(b"m");
    assert!(matches!(list_entries(&file, b"x"), Err(VaultError::AuthenticationFailed)));
    assert!(matches!(
        create_entry(&file, b"x", "t".into(), "u".into(), "p".into()),
        Err(VaultError::AuthenticationFailed)
    ));
}

