//! In-memory operations on a decrypted vault. Each takes a vault by value and
//! hands back the changed vault; none touches storage or cryptography.
use vstd::prelude::*;
use vstd::string::*;

use crate::model::{has_id, ids_unique, is_blank_item, Vault, VaultItem};

verus! {

/// The items of `items` whose identifier differs from `id`, in their order.
pub open spec fn without_id(items: Seq<VaultItem>, id: Seq<char>) -> Seq<VaultItem> {
    items.filter(|it: VaultItem| it.id@ != id)
}

/// The position of the first item of `items` that carries `id`.
pub open spec fn first_index_of(items: Seq<VaultItem>, id: Seq<char>) -> int {
    choose|k: int|
        0 <= k < items.len() && items[k].id@ == id && forall|j: int|
            0 <= j < k ==> #[trigger] items[j].id@ != id
}

/// A fresh vault: no items, the current schema version.
pub fn create_empty_vault() -> (r: Vault)
    ensures
        r.items@.len() == 0,
        r.version == crate::model::VAULT_VERSION,
        r.wf(),
{
    Vault::default()
}

/// The position of the first item of `items` whose identifier is `id`.
pub fn position_of(items: &Vec<VaultItem>, id: &String) -> (r: Option<usize>)
    ensures
        r matches Some(k) ==> k < items@.len() && items@[k as int].id@ == id@ && forall|j: int|
            0 <= j < k ==> #[trigger] items@[j].id@ != id@,
        r is None <==> !has_id(items@, id@),
{
    let mut i: usize = 0;
    while i < items.len()
        invariant
            i <= items@.len(),
            forall|j: int| 0 <= j < i ==> #[trigger] items@[j].id@ != id@,
        decreases items@.len() - i,
    {
        if items[i].id == *id {
            return Some(i);
        }
        i = i + 1;
    }
    None
}

/// `candidate` when no item of `items` carries it; otherwise `candidate`
/// lengthened with `-` until no item carries it.
pub fn fresh_id(items: &Vec<VaultItem>, candidate: String) -> (r: String)
    ensures
        !has_id(items@, r@),
        !has_id(items@, candidate@) ==> r@ == candidate@,
{
    if position_of(items, &candidate).is_none() {
        return candidate;
    }
    let mut longest: usize = 0;
    let mut i: usize = 0;
    while i < items.len()
        invariant
            i <= items@.len(),
            forall|j: int| 0 <= j < i ==> #[trigger] items@[j].id@.len() <= longest,
            has_id(items@, candidate@),
        decreases items@.len() - i,
    {
        let n = items[i].id.as_str().unicode_len();
        if n > longest {
            longest = n;
        }
        i = i + 1;
    }
    let mut id = candidate;
    proof {
        let j = choose|j: int| 0 <= j < items@.len() && #[trigger] items@[j].id@ == id@;
        assert(items@[j].id@.len() <= longest);
    }
    loop
        invariant
            forall|j: int| 0 <= j < items@.len() ==> #[trigger] items@[j].id@.len() <= longest,
            id@.len() <= longest + 1,
            has_id(items@, candidate@),
        decreases longest + 1 - id@.len(),
    {
        if position_of(items, &id).is_none() {
            return id;
        }
        proof {
            let j = choose|j: int| 0 <= j < items@.len() && #[trigger] items@[j].id@ == id@;
            assert(items@[j].id@.len() <= longest);
            reveal_strlit("-");
        }
        id.append("-");
    }
}

/// Appends a new item with the given title and an identifier that no item of
/// the vault carries; every optional field is unset.
pub fn add_item(vault: Vault, title: String) -> (r: Vault)
    ensures
        r.version == vault.version,
        r.items@.len() == vault.items@.len() + 1,
        r.items@.drop_last() == vault.items@,
        is_blank_item(r.items@.last(), r.items@.last().id@, title@),
        !has_id(vault.items@, r.items@.last().id@),
        vault.wf() ==> r.wf(),
{
    let mut vault = vault;
    let ghost before = vault.items@;
    let mut item = VaultItem::new(title);
    item.id = fresh_id(&vault.items, item.id.clone());
    vault.items.push(item);
    proof {
        assert(vault.items@.drop_last() =~= before);
    }
    vault
}

/// Replaces the first item whose identifier is `updated_item.id` by
/// `updated_item`, in the same position; a vault without such an item comes
/// back unchanged.
pub fn update_item(vault: Vault, updated_item: VaultItem) -> (r: Vault)
    ensures
        r.version == vault.version,
        has_id(vault.items@, updated_item.id@) ==> r.items@ == vault.items@.update(
            first_index_of(vault.items@, updated_item.id@),
            updated_item,
        ),
        !has_id(vault.items@, updated_item.id@) ==> r.items@ == vault.items@,
        vault.wf() ==> r.wf(),
{
    let mut vault = vault;
    let ghost before = vault.items@;
    match position_of(&vault.items, &updated_item.id) {
        Some(k) => {
            proof {
                let f = first_index_of(before, updated_item.id@);
                if f < k {
                    assert(before[f].id@ != updated_item.id@);
                } else if f > k {
                    assert(before[k as int].id@ != updated_item.id@);
                }
                assert(f == k);
            }
            vault.items[k] = updated_item;
            proof {
                if ids_unique(before) {
                    assert forall|i: int, j: int|
                        0 <= i < vault.items@.len() && 0 <= j < vault.items@.len() && i
                            != j implies #[trigger] vault.items@[i].id@
                        != #[trigger] vault.items@[j].id@ by {
                        assert(before[i].id@ != before[j].id@);
                    }
                }
            }
        },
        None => {},
    }
    vault
}

/// Removes every item whose identifier is `id`, keeping the order of the rest.
pub fn delete_item(vault: Vault, id: String) -> (r: Vault)
    ensures
        r.version == vault.version,
        r.items@ == without_id(vault.items@, id@),
        vault.wf() ==> r.wf(),
{
    let mut vault = vault;
    let ghost orig = vault.items@;
    let ghost ver = vault.version;
    let ghost mut k: int = 0;
    let mut i: usize = 0;
    proof {
        reveal(Seq::filter);
        assert(orig.take(0).filter(|it: VaultItem| it.id@ != id@) =~= Seq::<VaultItem>::empty());
        assert(vault.items@ =~= without_id(orig.take(0), id@) + orig.skip(0));
    }
    while i < vault.items.len()
        invariant
            0 <= k <= orig.len(),
            i == without_id(orig.take(k), id@).len(),
            vault.items@ == without_id(orig.take(k), id@) + orig.skip(k),
            vault.version == ver,
        decreases vault.items@.len() - i,
    {
        let ghost kept = without_id(orig.take(k), id@);
        proof {
            reveal(Seq::filter);
            assert(orig.take(k + 1).drop_last() =~= orig.take(k));
            assert(orig.take(k + 1).last() == orig[k]);
            assert(vault.items@[i as int] == orig[k]);
        }
        if vault.items[i].id == id {
            vault.items.remove(i);
            proof {
                assert(without_id(orig.take(k + 1), id@) == kept);
                assert(vault.items@ =~= kept + orig.skip(k + 1));
                k = k + 1;
            }
        } else {
            proof {
                assert(without_id(orig.take(k + 1), id@) == kept.push(orig[k]));
                assert(vault.items@ =~= kept.push(orig[k]) + orig.skip(k + 1));
                k = k + 1;
            }
            i = i + 1;
        }
    }
    proof {
        assert(orig.take(k) =~= orig);
        assert(vault.items@ =~= without_id(orig, id@));
        if ids_unique(orig) {
            lemma_without_id_unique(orig, id@);
        }
    }
    vault
}

/// Every item kept by `without_id` comes from `items`, in order, so
/// identifiers that were unique stay unique.
pub proof fn lemma_without_id_unique(items: Seq<VaultItem>, id: Seq<char>)
    requires
        ids_unique(items),
    ensures
        ids_unique(without_id(items, id)),
        forall|it: VaultItem| #[trigger] without_id(items, id).contains(it) ==> items.contains(it),
    decreases items.len(),
{
    reveal(Seq::filter);
    if items.len() > 0 {
        let rest = items.drop_last();
        assert(ids_unique(rest));
        lemma_without_id_unique(rest, id);
        let kept = without_id(rest, id);
        if items.last().id@ != id {
            assert(without_id(items, id) == kept.push(items.last()));
            assert forall|i: int, j: int|
                0 <= i < kept.len() + 1 && 0 <= j < kept.len() + 1 && i != j implies #[trigger] kept.push(
                items.last(),
            )[i].id@ != #[trigger] kept.push(items.last())[j].id@ by {
                if i == kept.len() {
                    assert(kept.contains(kept[j]));
                    let m = choose|m: int| 0 <= m < rest.len() && rest[m] == kept[j];
                    assert(items[m] == rest[m]);
                } else if j == kept.len() {
                    assert(kept.contains(kept[i]));
                    let m = choose|m: int| 0 <= m < rest.len() && rest[m] == kept[i];
                    assert(items[m] == rest[m]);
                }
            }
            assert forall|it: VaultItem| #[trigger] without_id(items, id).contains(it) implies items.contains(
                it,
            ) by {
                if it != items.last() {
                    assert(kept.contains(it));
                    let m = choose|m: int| 0 <= m < rest.len() && rest[m] == it;
                    assert(items[m] == it);
                } else {
                    assert(items[items.len() - 1] == it);
                }
            }
        } else {
            assert(without_id(items, id) == kept);
            assert forall|it: VaultItem| #[trigger] without_id(items, id).contains(it) implies items.contains(
                it,
            ) by {
                let m = choose|m: int| 0 <= m < rest.len() && rest[m] == it;
                assert(items[m] == it);
            }
        }
    }
}

/// Deleting an identifier that no item carries leaves the items as they were.
pub proof fn lemma_delete_absent(items: Seq<VaultItem>, id: Seq<char>)
    requires
        !has_id(items, id),
    ensures
        without_id(items, id) == items,
    decreases items.len(),
{
    reveal(Seq::filter);
    if items.len() > 0 {
        let rest = items.drop_last();
        assert(!has_id(rest, id)) by {
            if has_id(rest, id) {
                let m = choose|m: int| 0 <= m < rest.len() && #[trigger] rest[m].id@ == id;
                assert(items[m].id@ == id);
            }
        }
        lemma_delete_absent(rest, id);
        assert(items.last().id@ != id) by {
            assert(items[items.len() - 1].id@ != id);
        }
        assert(rest.push(items.last()) =~= items);
    }
}

/// Deleting the identifier at position `k` of items with unique
/// identifiers removes exactly that item and keeps the order of the rest.
pub proof fn lemma_delete_at(items: Seq<VaultItem>, id: Seq<char>, k: int)
    requires
        ids_unique(items),
        0 <= k < items.len(),
        items[k].id@ == id,
    ensures
        without_id(items, id) == items.remove(k),
    decreases items.len(),
{
    reveal(Seq::filter);
    let rest = items.drop_last();
    if k == items.len() - 1 {
        assert(!has_id(rest, id)) by {
            if has_id(rest, id) {
                let m = choose|m: int| 0 <= m < rest.len() && #[trigger] rest[m].id@ == id;
                assert(items[m].id@ == id);
            }
        }
        lemma_delete_absent(rest, id);
        assert(items.remove(k) =~= rest);
    } else {
        assert(ids_unique(rest));
        lemma_delete_at(rest, id, k);
        assert(items.last().id@ != id) by {
            assert(items[items.len() - 1].id@ != items[k].id@);
        }
        assert(rest.remove(k).push(items.last()) =~= items.remove(k));
    }
}

/// In a vault whose identifiers are unique, deleting a present identifier
/// removes exactly one item, the one at its position, and keeps the order
/// of the others.
pub proof fn lemma_delete_present(items: Seq<VaultItem>, id: Seq<char>)
    requires
        ids_unique(items),
        has_id(items, id),
    ensures
        without_id(items, id).len() == items.len() - 1,
        without_id(items, id) == items.remove(first_index_of(items, id)),
{
    let k = choose|k: int| 0 <= k < items.len() && #[trigger] items[k].id@ == id;
    assert forall|j: int| 0 <= j < k implies #[trigger] items[j].id@ != id by {
        assert(items[j].id@ != items[k].id@);
    }
    let f = first_index_of(items, id);
    assert(items[f].id@ == id && 0 <= f < items.len());
    assert(f == k) by {
        if f != k {
            assert(items[f].id@ != items[k].id@);
        }
    }
    lemma_delete_at(items, id, k);
}

} // verus!
