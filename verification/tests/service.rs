use vaultura::error::VaulturaError;
use vaultura::models::KdfParams;
use vaultura::vault_service::{ItemDraft, VaultService};

fn test_params() -> KdfParams {
    KdfParams { memory_cost_kib: 1024, time_cost: 1, parallelism: 1 }
}

fn setup() -> VaultService {
    let mut svc = VaultService::new(test_params());
    svc.create("password").unwrap();
    svc
}

#[test]
fn test_create_and_unlock() {
    let mut svc = VaultService::new(test_params());

    assert!(!svc.is_unlocked());
    let data = svc.create("password").unwrap();
    assert!(svc.is_unlocked());

    svc.lock();
    assert!(!svc.is_unlocked());

    svc.unlock(&data, "password").unwrap();
    assert!(svc.is_unlocked());
}

#[test]
fn test_wrong_password_unlock() {
    let mut svc = VaultService::new(test_params());
    let data = svc.create("correct").unwrap();
    svc.lock();

    let result = svc.unlock(&data, "wrong");
    assert!(matches!(result, Err(VaulturaError::WrongPassword)));
}

#[test]
fn test_crud_groups() {
    let mut svc = setup();

    let gid = svc.create_group("Work".to_string(), None).unwrap();
    assert_eq!(svc.groups().unwrap().len(), 1);
    assert_eq!(svc.groups().unwrap()[0].name, "Work");

    svc.update_group(gid, "Personal".to_string(), None).unwrap();
    assert_eq!(svc.groups().unwrap()[0].name, "Personal");

    svc.delete_group(gid).unwrap();
    assert!(svc.groups().unwrap().is_empty());
}

#[test]
fn test_crud_items() {
    let mut svc = setup();

    let draft = ItemDraft {
        title: "GitHub".to_string(),
        username: "user@example.com".to_string(),
        password: "secret".to_string(),
        url: "https://github.com".to_string(),
        notes: "My GitHub account".to_string(),
        tags: vec!["dev".to_string()],
        group_id: None,
    };

    let item_id = svc.create_item(draft).unwrap();
    assert_eq!(svc.items().unwrap().len(), 1);

    let item = svc.get_item(item_id).unwrap();
    assert_eq!(item.title, "GitHub");
    assert_eq!(item.username, "user@example.com");

    let update = ItemDraft {
        title: "GitHub Updated".to_string(),
        username: "new@example.com".to_string(),
        password: "new_secret".to_string(),
        url: "https://github.com".to_string(),
        notes: "Updated notes".to_string(),
        tags: vec!["dev".to_string(), "vcs".to_string()],
        group_id: None,
    };
    svc.update_item(item_id, update).unwrap();

    let item = svc.get_item(item_id).unwrap();
    assert_eq!(item.title, "GitHub Updated");
    assert_eq!(item.password_history.len(), 1);
    assert_eq!(item.password_history[0].password, "secret");

    svc.delete_item(item_id).unwrap();
    assert!(svc.items().unwrap().is_empty());
}

#[test]
fn test_update_item_same_password_keeps_history_empty() {
    let mut svc = setup();
    let draft = ItemDraft {
        title: "Site".to_string(),
        password: "secret".to_string(),
        ..Default::default()
    };
    let item_id = svc.create_item(draft).unwrap();

    let update = ItemDraft {
        title: "Site Renamed".to_string(),
        password: "secret".to_string(),
        ..Default::default()
    };
    svc.update_item(item_id, update).unwrap();

    let item = svc.get_item(item_id).unwrap();
    assert_eq!(item.title, "Site Renamed");
    assert_eq!(item.password_history.len(), 0);
}

#[test]
fn test_delete_group_ungroups_items() {
    let mut svc = setup();

    let gid = svc.create_group("Work".to_string(), None).unwrap();
    let draft = ItemDraft {
        title: "Item".to_string(),
        group_id: Some(gid),
        ..Default::default()
    };
    let item_id = svc.create_item(draft).unwrap();

    svc.delete_group(gid).unwrap();
    let item = svc.get_item(item_id).unwrap();
    assert_eq!(item.group_id, None);
}

#[test]
fn test_items_in_group() {
    let mut svc = setup();

    let gid = svc.create_group("Work".to_string(), None).unwrap();
    svc.create_item(ItemDraft {
        title: "In group".to_string(),
        group_id: Some(gid),
        ..Default::default()
    })
    .unwrap();
    svc.create_item(ItemDraft {
        title: "No group".to_string(),
        ..Default::default()
    })
    .unwrap();

    assert_eq!(svc.items_in_group(Some(gid)).unwrap().len(), 1);
    assert_eq!(svc.items_in_group(None).unwrap().len(), 2);
}

#[test]
fn test_search() {
    let mut svc = setup();

    svc.create_item(ItemDraft {
        title: "GitHub".to_string(),
        username: "user@example.com".to_string(),
        tags: vec!["dev".to_string()],
        ..Default::default()
    })
    .unwrap();
    svc.create_item(ItemDraft {
        title: "Gmail".to_string(),
        username: "user@gmail.com".to_string(),
        tags: vec!["email".to_string()],
        ..Default::default()
    })
    .unwrap();

    assert_eq!(svc.search("git").unwrap().len(), 1);
    assert_eq!(svc.search("user").unwrap().len(), 2);
    assert_eq!(svc.search("dev").unwrap().len(), 1);
    assert_eq!(svc.search("GitHub user").unwrap().len(), 1);
    assert_eq!(svc.search("nonexistent").unwrap().len(), 0);
    assert_eq!(svc.search("").unwrap().len(), 2);
}

#[test]
fn test_search_case_insensitive() {
    let mut svc = setup();

    svc.create_item(ItemDraft {
        title: "GitHub".to_string(),
        ..Default::default()
    })
    .unwrap();

    assert_eq!(svc.search("github").unwrap().len(), 1);
    assert_eq!(svc.search("GITHUB").unwrap().len(), 1);
}

#[test]
fn test_search_in_group() {
    let mut svc = setup();

    let gid = svc.create_group("Work".to_string(), None).unwrap();
    svc.create_item(ItemDraft {
        title: "GitHub".to_string(),
        group_id: Some(gid),
        ..Default::default()
    })
    .unwrap();
    svc.create_item(ItemDraft {
        title: "GitLab".to_string(),
        ..Default::default()
    })
    .unwrap();

    assert_eq!(svc.search_in_group("git", Some(gid)).unwrap().len(), 1);
    assert_eq!(svc.search_in_group("git", None).unwrap().len(), 2);
}

#[test]
fn test_dirty_flag() {
    let mut svc = setup();
    assert!(!svc.is_dirty());

    svc.create_item(ItemDraft {
        title: "Test".to_string(),
        ..Default::default()
    })
    .unwrap();
    assert!(svc.is_dirty());

    svc.save().unwrap();
    assert!(!svc.is_dirty());
}

#[test]
fn test_lock_unlock_persists() {
    let mut svc = VaultService::new(test_params());
    svc.create("password").unwrap();

    svc.create_item(ItemDraft {
        title: "Persistent".to_string(),
        ..Default::default()
    })
    .unwrap();
    let data = svc.save().unwrap();
    svc.lock();

    svc.unlock(&data, "password").unwrap();
    assert_eq!(svc.items().unwrap().len(), 1);
    assert_eq!(svc.items().unwrap()[0].title, "Persistent");
}

#[test]
fn vault_service_test_export_import() {
    let mut svc1 = VaultService::new(test_params());
    svc1.create("pass1").unwrap();
    svc1.create_group("Group1".to_string(), None).unwrap();
    svc1.create_item(ItemDraft {
        title: "Item1".to_string(),
        ..Default::default()
    })
    .unwrap();
    svc1.save().unwrap();
    let export_data = svc1.export("export_pass").unwrap();

    let mut svc2 = VaultService::new(test_params());
    svc2.create("pass2").unwrap();
    let count = svc2.import(&export_data, "export_pass").unwrap();
    assert_eq!(count, 2); // 1 group + 1 item
    assert_eq!(svc2.items().unwrap().len(), 1);
    assert_eq!(svc2.groups().unwrap().len(), 1);
}

#[test]
fn test_reimport_adds_nothing() {
    let mut svc1 = VaultService::new(test_params());
    svc1.create("pass1").unwrap();
    svc1.create_group("Group1".to_string(), None).unwrap();
    svc1.create_item(ItemDraft {
        title: "Item1".to_string(),
        ..Default::default()
    })
    .unwrap();
    let export_data = svc1.export("export_pass").unwrap();

    let mut svc2 = VaultService::new(test_params());
    svc2.create("pass2").unwrap();
    let first = svc2.import(&export_data, "export_pass").unwrap();
    assert_eq!(first, 2);
    let second = svc2.import(&export_data, "export_pass").unwrap();
    assert_eq!(second, 0);
    assert_eq!(svc2.items().unwrap().len(), 1);
    assert_eq!(svc2.groups().unwrap().len(), 1);
}

#[test]
fn test_vault_locked_errors() {
    let svc = VaultService::new(test_params());

    assert!(matches!(svc.items(), Err(VaulturaError::VaultLocked)));
    assert!(matches!(svc.groups(), Err(VaulturaError::VaultLocked)));
    assert!(matches!(svc.search("x"), Err(VaulturaError::VaultLocked)));
}

#[test]
fn test_not_found_errors() {
    let mut svc = setup();
    assert!(matches!(
        svc.get_item(42),
        Err(VaulturaError::ItemNotFound(42))
    ));
    assert!(matches!(
        svc.update_group(7, "x".to_string(), None),
        Err(VaulturaError::GroupNotFound(7))
    ));
    assert!(matches!(
        svc.delete_item(9),
        Err(VaulturaError::ItemNotFound(9))
    ));
}

#[test]
fn test_fresh_ids_differ() {
    let mut svc = setup();
    let g1 = svc.create_group("A".to_string(), None).unwrap();
    let g2 = svc.create_group("B".to_string(), None).unwrap();
    assert_ne!(g1, g2);
}

#[test]
fn test_unlock_after_create_dirty_false() {
    let mut svc = VaultService::new(test_params());
    let data = svc.create("pw").unwrap();
    assert!(!svc.is_dirty());
    svc.lock();
    svc.unlock(&data, "pw").unwrap();
    assert!(!svc.is_dirty());
}
