//! The vaults that a registry lists and that are still on disk.
use vstd::prelude::*;

verus! {

/// A vault: its registry key, its root directory and its display name.
#[derive(Debug, Clone)]
pub struct Vault {
    pub id: String,
    pub path: String,
    pub name: String,
}

/// One entry of the vault registry, with whether its directory exists.
#[derive(Debug)]
pub struct RegistryEntry {
    pub id: String,
    pub path: String,
    pub exists: bool,
}

/// The entries whose directory exists, in registry order.
pub open spec fn present(es: Seq<RegistryEntry>) -> Seq<RegistryEntry>
    decreases es.len(),
{
    if es.len() == 0 {
        seq![]
    } else if es.last().exists {
        present(es.drop_last()).push(es.last())
    } else {
        present(es.drop_last())
    }
}

/// Relies on `std::path::Path::file_name`, read lossily as UTF-8: the final
/// component of the path, if it has one. What counts as a component depends on
/// the platform's path syntax, so nothing more is stated.
#[verifier::external_body]
fn final_component(path: &str) -> (r: Option<String>) {
    std::path::Path::new(path).file_name().map(|n| n.to_string_lossy().to_string())
}

/// The vault `id` at `path`, named by `file_name`, or by the whole path when the
/// path has no final component.
pub fn vault_from_entry(id: &str, path: &str, file_name: Option<&str>) -> (v: Vault)
    ensures
        v.id@ == id@,
        v.path@ == path@,
        v.name@ == match file_name {
            Some(n) => n@,
            None => path@,
        },
{
    let name = match file_name {
        Some(n) => n.to_owned(),
        None => path.to_owned(),
    };
    Vault { id: id.to_owned(), path: path.to_owned(), name }
}

/// The vaults of the registry entries whose directory exists, in registry
/// order; each is named after the final component of its path.
pub fn collect_vaults(entries: &Vec<RegistryEntry>) -> (r: Vec<Vault>)
    ensures
        r@.len() == present(entries@).len(),
        forall|k: int|
            0 <= k < r@.len() ==> {
                &&& (#[trigger] r@[k]).id@ == present(entries@)[k].id@
                &&& r@[k].path@ == present(entries@)[k].path@
            },
{
    let mut out: Vec<Vault> = Vec::new();
    let mut i: usize = 0;
    while i < entries.len()
        invariant
            i <= entries@.len(),
            out@.len() == present(entries@.subrange(0, i as int)).len(),
            forall|k: int|
                0 <= k < out@.len() ==> {
                    &&& (#[trigger] out@[k]).id@ == present(entries@.subrange(0, i as int))[k].id@
                    &&& out@[k].path@ == present(entries@.subrange(0, i as int))[k].path@
                },
        decreases entries@.len() - i,
    {
        let ghost upto = entries@.subrange(0, (i + 1) as int);
        assert(upto.drop_last() =~= entries@.subrange(0, i as int));
        assert(upto.last() == entries@[i as int]);
        let e = &entries[i];
        if e.exists {
            let file_name = final_component(e.path.as_str());
            let v = match &file_name {
                Some(n) => vault_from_entry(e.id.as_str(), e.path.as_str(), Some(n.as_str())),
                None => vault_from_entry(e.id.as_str(), e.path.as_str(), None),
            };
            out.push(v);
        }
        i += 1;
    }
    assert(entries@.subrange(0, i as int) =~= entries@);
    out
}

} // verus!
