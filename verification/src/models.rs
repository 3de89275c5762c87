use vstd::prelude::*;

use crate::sys;

verus! {

/// Cost parameters for the key-derivation function, persisted per vault so a
/// vault can still be opened after the user's default settings change.
#[derive(Debug, Clone, Copy, PartialEq, Eq, Structural)]
pub struct KdfParams {
    pub memory_cost_kib: u32,
    pub time_cost: u32,
    pub parallelism: u32,
}

impl Default for KdfParams {
    /// 64 MiB of memory, three passes, four lanes.
    fn default() -> (r: Self)
        ensures
            r == (KdfParams { memory_cost_kib: 65536u32, time_cost: 3u32, parallelism: 4u32 }),
    {
        KdfParams { memory_cost_kib: 65536, time_cost: 3, parallelism: 4 }
    }
}

impl KdfParams {
    /// Cheap parameters, suitable only for tests.
    pub fn test_params() -> (r: Self)
        ensures
            r == (KdfParams { memory_cost_kib: 1024u32, time_cost: 1u32, parallelism: 1u32 }),
    {
        KdfParams { memory_cost_kib: 1024, time_cost: 1, parallelism: 1 }
    }
}

/// Per-encryption cipher parameters: the nonce that accompanied a ciphertext.
#[derive(Debug, Clone)]
pub struct CipherParams {
    pub nonce: Vec<u8>,
}

impl PartialEq for CipherParams {
    fn eq(&self, other: &CipherParams) -> (r: bool) {
        bytes_eq(&self.nonce, &other.nonce)
    }
}

impl vstd::std_specs::cmp::PartialEqSpecImpl for CipherParams {
    open spec fn obeys_eq_spec() -> bool {
        true
    }

    open spec fn eq_spec(&self, other: &CipherParams) -> bool {
        self.nonce@ == other.nonce@
    }
}

/// Metadata kept with every payload: format version and advisory timestamps
/// (milliseconds since the Unix epoch).
#[derive(Debug, Clone, Copy, PartialEq, Eq, Structural)]
pub struct VaultMeta {
    pub version: u32,
    pub created_at: i64,
    pub modified_at: i64,
}

impl Default for VaultMeta {
    /// Version 1, both timestamps set to the current time.
    fn default() -> (r: Self)
        ensures
            r.version == 1,
            r.created_at == r.modified_at,
    {
        let now = sys::now_millis();
        VaultMeta { version: 1, created_at: now, modified_at: now }
    }
}

/// The mathematical value of a [`Group`].
#[verifier::ext_equal]
pub struct GroupView {
    pub id: u128,
    pub name: Seq<char>,
    pub parent_id: Option<u128>,
    pub created_at: i64,
}

/// A named folder that organises items. `parent_id`, when present, is meant
/// to reference another group's id; the model does not enforce that the
/// reference exists or that parent chains are acyclic.
#[derive(Debug)]
pub struct Group {
    pub id: u128,
    pub name: String,
    pub parent_id: Option<u128>,
    pub created_at: i64,
}

impl View for Group {
    type V = GroupView;

    open spec fn view(&self) -> GroupView {
        GroupView {
            id: self.id,
            name: self.name@,
            parent_id: self.parent_id,
            created_at: self.created_at,
        }
    }
}

impl DeepView for Group {
    type V = GroupView;

    open spec fn deep_view(&self) -> GroupView {
        self.view()
    }
}

impl Group {
    /// A new group under a fresh random identifier, created now.
    pub fn new(name: String, parent_id: Option<u128>) -> (g: Group)
        ensures
            g@.name == name@,
            g@.parent_id == parent_id,
    {
        Group { id: sys::fresh_id(), name, parent_id, created_at: sys::now_millis() }
    }
}

impl Clone for Group {
    fn clone(&self) -> (r: Self)
        ensures
            r@ == self@,
    {
        Group {
            id: self.id,
            name: self.name.clone(),
            parent_id: self.parent_id,
            created_at: self.created_at,
        }
    }
}

impl PartialEq for Group {
    fn eq(&self, other: &Group) -> (r: bool) {
        let r = self.id == other.id && self.name == other.name && opt_id_eq(
            &self.parent_id,
            &other.parent_id,
        ) && self.created_at == other.created_at;
        proof {
            if r {
                assert(self@ =~= other@);
            }
        }
        r
    }
}

impl vstd::std_specs::cmp::PartialEqSpecImpl for Group {
    open spec fn obeys_eq_spec() -> bool {
        true
    }

    open spec fn eq_spec(&self, other: &Group) -> bool {
        self@ == other@
    }
}

/// The mathematical value of a [`PasswordHistoryEntry`].
#[verifier::ext_equal]
pub struct HistoryEntryView {
    pub password: Seq<char>,
    pub changed_at: i64,
}

/// A prior password of an item, together with the time it was replaced.
/// Immutable once appended.
#[derive(Debug)]
pub struct PasswordHistoryEntry {
    pub password: String,
    pub changed_at: i64,
}

impl View for PasswordHistoryEntry {
    type V = HistoryEntryView;

    open spec fn view(&self) -> HistoryEntryView {
        HistoryEntryView { password: self.password@, changed_at: self.changed_at }
    }
}

impl DeepView for PasswordHistoryEntry {
    type V = HistoryEntryView;

    open spec fn deep_view(&self) -> HistoryEntryView {
        self.view()
    }
}

impl Clone for PasswordHistoryEntry {
    fn clone(&self) -> (r: Self)
        ensures
            r@ == self@,
    {
        PasswordHistoryEntry { password: self.password.clone(), changed_at: self.changed_at }
    }
}

impl PartialEq for PasswordHistoryEntry {
    fn eq(&self, other: &PasswordHistoryEntry) -> (r: bool) {
        let r = self.password == other.password && self.changed_at == other.changed_at;
        proof {
            if r {
                assert(self@ =~= other@);
            }
        }
        r
    }
}

impl vstd::std_specs::cmp::PartialEqSpecImpl for PasswordHistoryEntry {
    open spec fn obeys_eq_spec() -> bool {
        true
    }

    open spec fn eq_spec(&self, other: &PasswordHistoryEntry) -> bool {
        self@ == other@
    }
}

/// The mathematical value of an [`Item`].
#[verifier::ext_equal]
pub struct ItemView {
    pub id: u128,
    pub group_id: Option<u128>,
    pub title: Seq<char>,
    pub username: Seq<char>,
    pub password: Seq<char>,
    pub url: Seq<char>,
    pub notes: Seq<char>,
    pub tags: Seq<Seq<char>>,
    pub password_history: Seq<HistoryEntryView>,
    pub created_at: i64,
    pub modified_at: i64,
}

/// A single credential record.
#[derive(Debug)]
pub struct Item {
    pub id: u128,
    pub group_id: Option<u128>,
    pub title: String,
    pub username: String,
    pub password: String,
    pub url: String,
    pub notes: String,
    pub tags: Vec<String>,
    pub password_history: Vec<PasswordHistoryEntry>,
    pub created_at: i64,
    pub modified_at: i64,
}

impl View for Item {
    type V = ItemView;

    open spec fn view(&self) -> ItemView {
        ItemView {
            id: self.id,
            group_id: self.group_id,
            title: self.title@,
            username: self.username@,
            password: self.password@,
            url: self.url@,
            notes: self.notes@,
            tags: self.tags.deep_view(),
            password_history: self.password_history.deep_view(),
            created_at: self.created_at,
            modified_at: self.modified_at,
        }
    }
}

impl DeepView for Item {
    type V = ItemView;

    open spec fn deep_view(&self) -> ItemView {
        self.view()
    }
}

impl Item {
    /// A new item under a fresh random identifier, all text fields empty,
    /// both timestamps set to the current time.
    pub fn new(title: String, group_id: Option<u128>) -> (it: Item)
        ensures
            it@.title == title@,
            it@.group_id == group_id,
            it@.username.len() == 0,
            it@.password.len() == 0,
            it@.url.len() == 0,
            it@.notes.len() == 0,
            it@.tags.len() == 0,
            it@.password_history.len() == 0,
    {
        let now = sys::now_millis();
        Item {
            id: sys::fresh_id(),
            group_id,
            title,
            username: String::new(),
            password: String::new(),
            url: String::new(),
            notes: String::new(),
            tags: Vec::new(),
            password_history: Vec::new(),
            created_at: now,
            modified_at: now,
        }
    }
}

impl Clone for Item {
    fn clone(&self) -> (r: Self)
        ensures
            r@ == self@,
    {
        let r = Item {
            id: self.id,
            group_id: self.group_id,
            title: self.title.clone(),
            username: self.username.clone(),
            password: self.password.clone(),
            url: self.url.clone(),
            notes: self.notes.clone(),
            tags: clone_strings(&self.tags),
            password_history: clone_history(&self.password_history),
            created_at: self.created_at,
            modified_at: self.modified_at,
        };
        proof {
            assert(r@ =~= self@);
        }
        r
    }
}

impl PartialEq for Item {
    fn eq(&self, other: &Item) -> (r: bool) {
        let r = self.id == other.id && opt_id_eq(&self.group_id, &other.group_id)
            && self.title == other.title && self.username == other.username && self.password
            == other.password && self.url == other.url && self.notes == other.notes
            && string_vecs_eq(&self.tags, &other.tags) && history_eq(
            &self.password_history,
            &other.password_history,
        ) && self.created_at == other.created_at && self.modified_at == other.modified_at;
        proof {
            if r {
                assert(self@ =~= other@);
            }
        }
        r
    }
}

impl vstd::std_specs::cmp::PartialEqSpecImpl for Item {
    open spec fn obeys_eq_spec() -> bool {
        true
    }

    open spec fn eq_spec(&self, other: &Item) -> bool {
        self@ == other@
    }
}

/// The mathematical value of a [`VaultPayload`].
#[verifier::ext_equal]
pub struct PayloadView {
    pub meta: VaultMeta,
    pub groups: Seq<GroupView>,
    pub items: Seq<ItemView>,
}

/// The entire decrypted contents of a vault: the unit of encryption.
#[derive(Debug, Clone)]
pub struct VaultPayload {
    pub meta: VaultMeta,
    pub groups: Vec<Group>,
    pub items: Vec<Item>,
}

impl View for VaultPayload {
    type V = PayloadView;

    open spec fn view(&self) -> PayloadView {
        PayloadView {
            meta: self.meta,
            groups: self.groups.deep_view(),
            items: self.items.deep_view(),
        }
    }
}

impl Default for VaultPayload {
    /// An empty payload under a fresh metadata record.
    fn default() -> (r: Self)
        ensures
            r@.meta.version == 1,
            r@.groups.len() == 0,
            r@.items.len() == 0,
    {
        VaultPayload { meta: VaultMeta::default(), groups: Vec::new(), items: Vec::new() }
    }
}

impl PartialEq for VaultPayload {
    fn eq(&self, other: &VaultPayload) -> (r: bool) {
        let r = self.meta == other.meta && groups_eq(&self.groups, &other.groups) && items_eq(
            &self.items,
            &other.items,
        );
        proof {
            if r {
                assert(self@ =~= other@);
            }
        }
        r
    }
}

impl vstd::std_specs::cmp::PartialEqSpecImpl for VaultPayload {
    open spec fn obeys_eq_spec() -> bool {
        true
    }

    open spec fn eq_spec(&self, other: &VaultPayload) -> bool {
        self@ == other@
    }
}

/// Equality of two optional identifiers.
pub fn opt_id_eq(a: &Option<u128>, b: &Option<u128>) -> (r: bool)
    ensures
        r == (a == b),
{
    match (a, b) {
        (Option::None, Option::None) => true,
        (Option::Some(x), Option::Some(y)) => x == y,
        _ => false,
    }
}

/// Equality of two byte buffers, by contents.
pub fn bytes_eq(a: &Vec<u8>, b: &Vec<u8>) -> (r: bool)
    ensures
        r == (a@ == b@),
{
    if a.len() != b.len() {
        proof {
            assert(a@.len() != b@.len());
        }
        return false;
    }
    let mut i: usize = 0;
    while i < a.len()
        invariant
            i <= a.len(),
            a@.len() == b@.len(),
            forall|k: int| 0 <= k < i ==> a@[k] == b@[k],
        decreases a.len() - i,
    {
        if a[i] != b[i] {
            return false;
        }
        i += 1;
    }
    proof {
        assert(a@ =~= b@);
    }
    true
}

/// Copy a list of strings, preserving its contents.
pub fn clone_strings(v: &Vec<String>) -> (r: Vec<String>)
    ensures
        r.deep_view() == v.deep_view(),
{
    let mut r: Vec<String> = Vec::new();
    let mut k: usize = 0;
    while k < v.len()
        invariant
            k <= v@.len(),
            r@.len() == k,
            forall|l: int| 0 <= l < k ==> r.deep_view()[l] == v.deep_view()[l],
        decreases v@.len() - k,
    {
        r.push(v[k].clone());
        k += 1;
    }
    proof {
        assert(r.deep_view() =~~= v.deep_view());
    }
    r
}

/// Copy a password history, preserving its contents.
pub fn clone_history(v: &Vec<PasswordHistoryEntry>) -> (r: Vec<PasswordHistoryEntry>)
    ensures
        r.deep_view() == v.deep_view(),
{
    let mut r: Vec<PasswordHistoryEntry> = Vec::new();
    let mut k: usize = 0;
    while k < v.len()
        invariant
            k <= v@.len(),
            r@.len() == k,
            forall|l: int| 0 <= l < k ==> r.deep_view()[l] == v.deep_view()[l],
        decreases v@.len() - k,
    {
        r.push(v[k].clone());
        k += 1;
    }
    proof {
        assert(r.deep_view() =~~= v.deep_view());
    }
    r
}

/// Equality of two lists of strings, by contents.
pub fn string_vecs_eq(a: &Vec<String>, b: &Vec<String>) -> (r: bool)
    ensures
        r == (a.deep_view() == b.deep_view()),
{
    if a.len() != b.len() {
        proof {
            assert(a.deep_view().len() == a@.len());
            assert(b.deep_view().len() == b@.len());
        }
        return false;
    }
    let mut i: usize = 0;
    while i < a.len()
        invariant
            i <= a.len(),
            a@.len() == b@.len(),
            forall|k: int| 0 <= k < i ==> a.deep_view()[k] == b.deep_view()[k],
        decreases a.len() - i,
    {
        if !(a[i] == b[i]) {
            proof {
                assert(a.deep_view()[i as int] == a@[i as int]@);
                assert(b.deep_view()[i as int] == b@[i as int]@);
            }
            return false;
        }
        i += 1;
    }
    proof {
        assert(a.deep_view() =~= b.deep_view());
    }
    true
}

/// Equality of two password histories, by contents.
pub fn history_eq(a: &Vec<PasswordHistoryEntry>, b: &Vec<PasswordHistoryEntry>) -> (r: bool)
    ensures
        r == (a.deep_view() == b.deep_view()),
{
    if a.len() != b.len() {
        proof {
            assert(a.deep_view().len() == a@.len());
            assert(b.deep_view().len() == b@.len());
        }
        return false;
    }
    let mut i: usize = 0;
    while i < a.len()
        invariant
            i <= a.len(),
            a@.len() == b@.len(),
            forall|k: int| 0 <= k < i ==> a.deep_view()[k] == b.deep_view()[k],
        decreases a.len() - i,
    {
        if !(a[i] == b[i]) {
            proof {
                assert(a.deep_view()[i as int] == a@[i as int]@);
                assert(b.deep_view()[i as int] == b@[i as int]@);
            }
            return false;
        }
        i += 1;
    }
    proof {
        assert(a.deep_view() =~= b.deep_view());
    }
    true
}

/// Equality of two group lists, by contents.
pub fn groups_eq(a: &Vec<Group>, b: &Vec<Group>) -> (r: bool)
    ensures
        r == (a.deep_view() == b.deep_view()),
{
    if a.len() != b.len() {
        proof {
            assert(a.deep_view().len() == a@.len());
            assert(b.deep_view().len() == b@.len());
        }
        return false;
    }
    let mut i: usize = 0;
    while i < a.len()
        invariant
            i <= a.len(),
            a@.len() == b@.len(),
            forall|k: int| 0 <= k < i ==> a.deep_view()[k] == b.deep_view()[k],
        decreases a.len() - i,
    {
        if !(a[i] == b[i]) {
            proof {
                assert(a.deep_view()[i as int] == a@[i as int]@);
                assert(b.deep_view()[i as int] == b@[i as int]@);
            }
            return false;
        }
        i += 1;
    }
    proof {
        assert(a.deep_view() =~= b.deep_view());
    }
    true
}

/// Equality of two item lists, by contents.
pub fn items_eq(a: &Vec<Item>, b: &Vec<Item>) -> (r: bool)
    ensures
        r == (a.deep_view() == b.deep_view()),
{
    if a.len() != b.len() {
        proof {
            assert(a.deep_view().len() == a@.len());
            assert(b.deep_view().len() == b@.len());
        }
        return false;
    }
    let mut i: usize = 0;
    while i < a.len()
        invariant
            i <= a.len(),
            a@.len() == b@.len(),
            forall|k: int| 0 <= k < i ==> a.deep_view()[k] == b.deep_view()[k],
        decreases a.len() - i,
    {
        if !(a[i] == b[i]) {
            proof {
                assert(a.deep_view()[i as int] == a@[i as int]@);
                assert(b.deep_view()[i as int] == b@[i as int]@);
            }
            return false;
        }
        i += 1;
    }
    proof {
        assert(a.deep_view() =~= b.deep_view());
    }
    true
}

} // verus!
