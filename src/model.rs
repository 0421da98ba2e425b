//! The vault's records: items with their attachments, and the vault itself.
use vstd::prelude::*;

verus! {

/// A named blob of bytes carried by an item.
#[derive(Clone, Debug, PartialEq, Eq)]
pub struct Attachment {
    pub name: String,
    pub data: Vec<u8>,
}

/// One credential record. `id` is assigned once, when the item is made.
#[derive(Clone, Debug, PartialEq, Eq)]
pub struct VaultItem {
    pub id: String,
    pub title: String,
    pub username: Option<String>,
    pub password: Option<String>,
    pub url: Option<String>,
    pub notes: Option<String>,
    pub category: Option<String>,
    pub attachments: Vec<Attachment>,
    pub updated_at: i64,
}

/// The plaintext vault: an ordered sequence of items and a schema version.
#[derive(Clone, Debug, PartialEq, Eq)]
pub struct Vault {
    pub items: Vec<VaultItem>,
    pub version: u32,
}

/// The schema version of a freshly made vault.
pub const VAULT_VERSION: u32 = 1;

/// Whether some item of `items` carries the identifier `id`.
pub open spec fn has_id(items: Seq<VaultItem>, id: Seq<char>) -> bool {
    exists|i: int| 0 <= i < items.len() && #[trigger] items[i].id@ == id
}

/// No two items of `items` share an identifier.
pub open spec fn ids_unique(items: Seq<VaultItem>) -> bool {
    forall|i: int, j: int|
        0 <= i < items.len() && 0 <= j < items.len() && i != j ==> #[trigger] items[i].id@
            != #[trigger] items[j].id@
}

/// A freshly made item: the given title and identifier, nothing else set.
pub open spec fn is_blank_item(item: VaultItem, id: Seq<char>, title: Seq<char>) -> bool {
    &&& item.id@ == id
    &&& item.title@ == title
    &&& item.username is None
    &&& item.password is None
    &&& item.url is None
    &&& item.notes is None
    &&& item.category is None
    &&& item.attachments@.len() == 0
}

impl Vault {
    /// The vault's invariant: item identifiers are unique.
    pub open spec fn wf(&self) -> bool {
        ids_unique(self.items@)
    }
}

impl Default for Vault {
    fn default() -> (r: Vault)
        ensures
            r.items@.len() == 0,
            r.version == VAULT_VERSION,
    {
        Vault { items: Vec::new(), version: VAULT_VERSION }
    }
}

/// Relies on uuid's `Uuid::new_v4` and its hyphenated text form: a random
/// identifier of 36 characters, of which nothing more is known.
#[verifier::external_body]
fn random_uuid_text() -> (r: String)
    ensures
        r@.len() == 36,
{
    uuid::Uuid::new_v4().to_string()
}

/// Relies on chrono's `Utc::now().timestamp()`: the current time in seconds
/// since the epoch, which is never before the epoch when it returns.
#[verifier::external_body]
fn now_timestamp() -> (r: i64)
    ensures
        r >= 0,
{
    chrono::Utc::now().timestamp()
}

impl VaultItem {
    /// A new item with a random identifier, the given title, no optional
    /// fields, no attachments, stamped with the current time.
    pub fn new(title: String) -> (r: VaultItem)
        ensures
            r.title@ == title@,
            is_blank_item(r, r.id@, title@),
    {
        VaultItem {
            id: random_uuid_text(),
            title,
            username: None,
            password: None,
            url: None,
            notes: None,
            category: None,
            attachments: Vec::new(),
            updated_at: now_timestamp(),
        }
    }
}

} // verus!
