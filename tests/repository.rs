use vault_core::model::{Attachment, Vault, VaultItem, VAULT_VERSION};
use vault_core::repository::{
    add_item, create_empty_vault, delete_item, fresh_id, position_of, update_item,
};

fn item(id: &str, title: &str) -> VaultItem {
    VaultItem {
        id: id.to_string(),
        title: title.to_string(),
        username: None,
        password: None,
        url: None,
        notes: None,
        category: None,
        attachments: Vec::new(),
        updated_at: 0,
    }
}

fn vault_of(ids: &[&str]) -> Vault {
    Vault { items: ids.iter().map(|i| item(i, "t")).collect(), version: 1 }
}

fn ids(v: &Vault) -> Vec<String> {
    v.items.iter().map(|i| i.id.clone()).collect()
}

#[test]
fn empty_vault_has_no_items_and_version_one() {
    let v = create_empty_vault();
    assert!(v.items.is_empty());
    assert_eq!(v.version, 1);
    assert_eq!(VAULT_VERSION, 1);
    assert_eq!(Vault::default(), v);
}

#[test]
fn add_item_appends_a_blank_item_with_a_new_id() {
    let v = add_item(vault_of(&["a", "b"]), "Mail".to_string());
    assert_eq!(v.items.len(), 3);
    assert_eq!(ids(&v)[..2], ["a".to_string(), "b".to_string()]);
    let last = &v.items[2];
    assert_eq!(last.title, "Mail");
    assert!(last.id != "a" && last.id != "b");
    assert_eq!(last.id.len(), 36);
    assert!(last.username.is_none() && last.password.is_none() && last.url.is_none());
    assert!(last.notes.is_none() && last.category.is_none() && last.attachments.is_empty());
    assert!(last.updated_at > 1_600_000_000);
}

#[test]
fn add_item_twice_gives_distinct_ids() {
    let v = add_item(add_item(create_empty_vault(), "x".to_string()), "x".to_string());
    assert_eq!(v.items.len(), 2);
    assert_ne!(v.items[0].id, v.items[1].id);
    assert_eq!(v.version, 1);
}

#[test]
fn new_item_is_blank() {
    let it = VaultItem::new("Bank".to_string());
    assert_eq!(it.title, "Bank");
    assert!(it.attachments.is_empty());
    assert!(it.username.is_none());
}

#[test]
fn fresh_id_keeps_an_unused_candidate() {
    let v = vault_of(&["a", "b"]);
    assert_eq!(fresh_id(&v.items, "c".to_string()), "c");
}

#[test]
fn fresh_id_lengthens_a_used_candidate() {
    let v = vault_of(&["a", "a-", "bcd"]);
    let id = fresh_id(&v.items, "a".to_string());
    assert_eq!(id, "a--");
}

#[test]
fn position_of_finds_the_first_match() {
    let v = vault_of(&["a", "b", "b"]);
    assert_eq!(position_of(&v.items, &"b".to_string()), Some(1));
    assert_eq!(position_of(&v.items, &"z".to_string()), None);
}

#[test]
fn update_item_replaces_in_place() {
    let mut changed = item("b", "new title");
    changed.username = Some("me".to_string());
    changed.attachments.push(Attachment { name: "key.pem".to_string(), data: vec![1, 2, 3] });
    let v = update_item(vault_of(&["a", "b", "c"]), changed.clone());
    assert_eq!(ids(&v), vec!["a", "b", "c"]);
    assert_eq!(v.items[1], changed);
    assert_eq!(v.items[0], item("a", "t"));
    assert_eq!(v.items[2], item("c", "t"));
}

#[test]
fn update_item_with_unknown_id_is_a_no_op() {
    let before = vault_of(&["a", "b"]);
    let after = update_item(before.clone(), item("zz", "other"));
    assert_eq!(after, before);
}

#[test]
fn delete_item_removes_the_match_and_keeps_order() {
    let v = delete_item(vault_of(&["a", "b", "c", "d"]), "b".to_string());
    assert_eq!(ids(&v), vec!["a", "c", "d"]);
    assert_eq!(v.version, 1);
}

#[test]
fn delete_item_removes_every_match() {
    let v = delete_item(vault_of(&["b", "a", "b"]), "b".to_string());
    assert_eq!(ids(&v), vec!["a"]);
}

#[test]
fn delete_item_with_unknown_id_is_a_no_op() {
    let before = vault_of(&["a", "b"]);
    let after = delete_item(before.clone(), "q".to_string());
    assert_eq!(after, before);
}

#[test]
fn delete_item_on_empty_vault() {
    let v = delete_item(create_empty_vault(), "a".to_string());
    assert!(v.items.is_empty());
}
