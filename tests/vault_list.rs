use quick_add::vaults::{collect_vaults, vault_from_entry, RegistryEntry};

fn entry(id: &str, path: &str, exists: bool) -> RegistryEntry {
    RegistryEntry { id: id.to_string(), path: path.to_string(), exists }
}

#[test]
fn deleted_vault_is_dropped_without_error() {
    let es = vec![entry("a", "/home/u/Work", true), entry("b", "/home/u/Gone", false)];
    let vs = collect_vaults(&es);
    assert_eq!(vs.len(), 1);
    assert_eq!(vs[0].id, "a");
    assert_eq!(vs[0].path, "/home/u/Work");
    assert_eq!(vs[0].name, "Work");
}

#[test]
fn vault_name_is_last_segment() {
    let vs = collect_vaults(&vec![entry("k", "/home/u/My Vault/", true)]);
    assert_eq!(vs[0].name, "My Vault");
}

#[test]
fn degenerate_path_is_its_own_name() {
    let vs = collect_vaults(&vec![entry("r", "/", true)]);
    assert_eq!(vs[0].name, "/");
    let v = vault_from_entry("i", "/x/..", None);
    assert_eq!(v.name, "/x/..");
}

#[test]
fn no_entries_no_vaults() {
    assert!(collect_vaults(&vec![]).is_empty());
    assert!(collect_vaults(&vec![entry("a", "/a", false)]).is_empty());
}
