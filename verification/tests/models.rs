use vaultura::codec::{
    read_bytes, read_group, read_item, read_meta, write_bytes, write_group, write_item, write_meta,
};
use vaultura::codec::{decode_payload, encode_payload};
use vaultura::models::{
    CipherParams, Group, Item, KdfParams, PasswordHistoryEntry, VaultMeta, VaultPayload,
};

#[test]
fn test_kdf_params_roundtrip() {
    let params = KdfParams::default();
    let mut encoded: Vec<u8> = Vec::new();
    vaultura::codec::write_u32(&mut encoded, params.memory_cost_kib);
    vaultura::codec::write_u32(&mut encoded, params.time_cost);
    vaultura::codec::write_u32(&mut encoded, params.parallelism);
    let (m, p1) = vaultura::codec::read_u32(&encoded, 0).unwrap();
    let (t, p2) = vaultura::codec::read_u32(&encoded, p1).unwrap();
    let (p, _) = vaultura::codec::read_u32(&encoded, p2).unwrap();
    let decoded = KdfParams { memory_cost_kib: m, time_cost: t, parallelism: p };
    assert_eq!(params, decoded);
}

#[test]
fn test_group_roundtrip() {
    let group = Group::new("Test Group".to_string(), None);
    let mut encoded: Vec<u8> = Vec::new();
    write_group(&mut encoded, &group);
    let (decoded, used) = read_group(&encoded, 0).unwrap();
    assert_eq!(used, encoded.len());
    assert_eq!(group, decoded);
}

#[test]
fn test_item_roundtrip() {
    let mut item = Item::new("Test Item".to_string(), None);
    item.username = "user@example.com".to_string();
    item.password = "secret123".to_string();
    item.url = "https://example.com".to_string();
    item.notes = "Some notes".to_string();
    item.tags = vec!["tag1".to_string(), "tag2".to_string()];
    item.password_history.push(PasswordHistoryEntry {
        password: "old_pass".to_string(),
        changed_at: 1_700_000_000_000,
    });
    let mut encoded: Vec<u8> = Vec::new();
    write_item(&mut encoded, &item);
    let (decoded, used) = read_item(&encoded, 0).unwrap();
    assert_eq!(used, encoded.len());
    assert_eq!(item, decoded);
}

#[test]
fn test_vault_payload_roundtrip() {
    let mut payload = VaultPayload::default();
    payload.groups.push(Group::new("Group1".to_string(), None));
    payload
        .items
        .push(Item::new("Item1".to_string(), Some(payload.groups[0].id)));
    let encoded = encode_payload(&payload);
    let decoded: VaultPayload = decode_payload(&encoded).unwrap();
    assert_eq!(payload, decoded);
}

#[test]
fn test_vault_meta_roundtrip() {
    let meta = VaultMeta::default();
    let mut encoded: Vec<u8> = Vec::new();
    write_meta(&mut encoded, &meta);
    let (decoded, used) = read_meta(&encoded, 0).unwrap();
    assert_eq!(used, encoded.len());
    assert_eq!(meta, decoded);
}

#[test]
fn test_cipher_params_roundtrip() {
    let params = CipherParams { nonce: vec![1, 2, 3, 4, 5] };
    let mut encoded: Vec<u8> = Vec::new();
    write_bytes(&mut encoded, params.nonce.as_slice());
    let (nonce, used) = read_bytes(&encoded, 0).unwrap();
    assert_eq!(used, encoded.len());
    let decoded = CipherParams { nonce };
    assert_eq!(params, decoded);
}
