use vaultura::error::VaulturaError;
use vaultura::models::{Group, Item, KdfParams, VaultPayload};
use vaultura::vault_file::{
    create_vault, export_vault, import_vault, read_vault, read_vault_header, write_vault,
    SALT_LENGTH,
};

fn test_params() -> KdfParams {
    KdfParams { memory_cost_kib: 1024, time_cost: 1, parallelism: 1 }
}

#[test]
fn test_create_and_read_vault() {
    let params = test_params();

    let data = create_vault("master_password", &params).unwrap();
    let (payload, read_params) = read_vault(&data, "master_password").unwrap();

    assert!(payload.groups.is_empty());
    assert!(payload.items.is_empty());
    assert_eq!(payload.meta.version, 1);
    assert_eq!(read_params, params);
}

#[test]
fn test_write_and_read_with_data() {
    let params = test_params();

    let mut payload = VaultPayload::default();
    let group = Group::new("Test".to_string(), None);
    let item = Item::new("Login".to_string(), Some(group.id));
    payload.groups.push(group);
    payload.items.push(item);

    let data = write_vault("password", &params, &payload).unwrap();
    let (read_payload, _) = read_vault(&data, "password").unwrap();
    assert_eq!(read_payload, payload);
}

#[test]
fn test_wrong_password() {
    let params = test_params();

    let data = create_vault("correct", &params).unwrap();
    let result = read_vault(&data, "wrong");
    assert!(matches!(result, Err(VaulturaError::WrongPassword)));
}

#[test]
fn test_corrupted_file() {
    let data = b"garbage data that is not a vault".to_vec();
    let result = read_vault(&data, "password");
    assert!(result.is_err());
}

#[test]
fn test_truncated_file() {
    let data = b"VLT".to_vec();
    let result = read_vault(&data, "password");
    assert!(matches!(result, Err(VaulturaError::InvalidVaultFile { .. })));
}

#[test]
fn test_read_vault_header() {
    let params = test_params();

    let data = create_vault("password", &params).unwrap();
    let (salt, read_params) = read_vault_header(&data).unwrap();
    assert_eq!(salt.len(), SALT_LENGTH);
    assert_eq!(read_params, params);
}

#[test]
fn vault_file_test_export_import() {
    let params = test_params();

    let mut payload = VaultPayload::default();
    payload.groups.push(Group::new("G".to_string(), None));
    let original_data = write_vault("pass1", &params, &payload).unwrap();

    let (read_payload, _) = read_vault(&original_data, "pass1").unwrap();
    let export_data = export_vault("pass2", &params, &read_payload).unwrap();

    let imported = import_vault(&export_data, "pass2").unwrap();
    assert_eq!(imported, payload);
}

#[test]
fn test_two_writes_differ() {
    // a fresh salt and nonce per write: the same payload never encrypts to
    // the same file twice
    let params = test_params();
    let payload = VaultPayload::default();
    let data1 = write_vault("pw", &params, &payload).unwrap();
    let data2 = write_vault("pw", &params, &payload).unwrap();
    assert_ne!(data1, data2);
}

#[test]
fn test_bad_magic_rejected() {
    let params = test_params();
    let mut data = create_vault("pw", &params).unwrap();
    data[0] ^= 0xFF;
    let result = read_vault(&data, "pw");
    assert!(matches!(result, Err(VaulturaError::InvalidVaultFile { .. })));
}

#[test]
fn test_bad_version_rejected() {
    let params = test_params();
    let mut data = create_vault("pw", &params).unwrap();
    data[4] = 0xEE;
    let result = read_vault(&data, "pw");
    assert!(matches!(result, Err(VaulturaError::InvalidVaultFile { .. })));
}

#[test]
fn test_flipped_ciphertext_bit_is_wrong_password() {
    let params = test_params();
    let mut data = create_vault("pw", &params).unwrap();
    let last = data.len() - 1;
    data[last] ^= 0x01;
    let result = read_vault(&data, "pw");
    assert!(matches!(result, Err(VaulturaError::WrongPassword)));
}
