use divider::JsonStore;

#[test]
fn store_names_its_file() {
    let store = JsonStore::new("ledgers/shire.json");
    assert_eq!(store.file_path, "ledgers/shire.json");
}
