//! The vault service: lock/unlock state machine, in-memory data model, and
//! all CRUD, search and import/export logic.
//!
//! The service never touches the disk itself: `create`, `save` and `export`
//! return the bytes of a complete vault file for the caller to persist
//! atomically, and `unlock` and `import` take such bytes. Everything else is
//! pure in-memory logic, verified end to end.

use vstd::prelude::*;

use crate::error::VaulturaError;
use crate::models::{Group, GroupView, Item, ItemView, KdfParams, PasswordHistoryEntry, PayloadView, VaultPayload};
use crate::search;
use crate::sys;
use crate::vault_file;
use vstd::pervasive::VecAdditionalExecFns;
use vstd::utf8::encode_utf8;

verus! {

/// Draft for creating or editing items: the editable fields of an [`Item`].
#[derive(Debug, Clone, Default)]
pub struct ItemDraft {
    pub title: String,
    pub username: String,
    pub password: String,
    pub url: String,
    pub notes: String,
    pub tags: Vec<String>,
    pub group_id: Option<u128>,
}


/// Some group in the list carries this id.
pub open spec fn has_group(groups: Seq<GroupView>, id: u128) -> bool {
    exists|k: int| 0 <= k < groups.len() && (#[trigger] groups[k]).id == id
}

/// Some item in the list carries this id.
pub open spec fn has_item(items: Seq<ItemView>, id: u128) -> bool {
    exists|k: int| 0 <= k < items.len() && (#[trigger] items[k]).id == id
}

/// The first position in the list that carries this group id.
pub open spec fn is_first_group_match(groups: Seq<GroupView>, id: u128, k: int) -> bool {
    &&& 0 <= k < groups.len()
    &&& groups[k].id == id
    &&& forall|l: int| 0 <= l < k ==> (#[trigger] groups[l]).id != id
}

/// The first position in the list that carries this item id.
pub open spec fn is_first_item_match(items: Seq<ItemView>, id: u128, k: int) -> bool {
    &&& 0 <= k < items.len()
    &&& items[k].id == id
    &&& forall|l: int| 0 <= l < k ==> (#[trigger] items[l]).id != id
}

/// Keep the groups that do not carry this id.
pub open spec fn keep_group(id: u128) -> spec_fn(GroupView) -> bool {
    |g: GroupView| g.id != id
}

/// Keep the items that do not carry this id.
pub open spec fn keep_item(id: u128) -> spec_fn(ItemView) -> bool {
    |it: ItemView| it.id != id
}

/// An item with a reference to the deleted group loses it; others are
/// untouched.
pub open spec fn clear_group_ref(id: u128, it: ItemView) -> ItemView {
    if it.group_id == Some(id) {
        ItemView { group_id: None, ..it }
    } else {
        it
    }
}

/// The items that belong to this group.
pub open spec fn in_group(gid: u128) -> spec_fn(ItemView) -> bool {
    |it: ItemView| it.group_id == Some(gid)
}

/// The items that match this query.
pub open spec fn matches_query(q: Seq<char>) -> spec_fn(ItemView) -> bool {
    |it: ItemView| search::search_matches(q, it)
}

/// The items that match this query and, when a group is given, belong to it.
pub open spec fn matches_query_in_group(q: Seq<char>, gid: Option<u128>) -> spec_fn(
    ItemView,
) -> bool {
    |it: ItemView| search::search_matches(q, it) && (gid is Some ==> it.group_id == gid)
}

/// Merge incoming groups into the live list, skipping ids already present;
/// earlier incoming groups are visible to the id check for later ones.
pub open spec fn merge_groups(live: Seq<GroupView>, inc: Seq<GroupView>) -> Seq<GroupView>
    decreases inc.len(),
{
    if inc.len() == 0 {
        live
    } else {
        let nxt = if has_group(live, inc[0].id) {
            live
        } else {
            live.push(inc[0])
        };
        merge_groups(nxt, inc.drop_first())
    }
}

/// Merge incoming items into the live list, skipping ids already present.
pub open spec fn merge_items(live: Seq<ItemView>, inc: Seq<ItemView>) -> Seq<ItemView>
    decreases inc.len(),
{
    if inc.len() == 0 {
        live
    } else {
        let nxt = if has_item(live, inc[0].id) {
            live
        } else {
            live.push(inc[0])
        };
        merge_items(nxt, inc.drop_first())
    }
}

/// Merging one more incoming group appends it exactly when its id is still
/// absent after the earlier merges.
proof fn lemma_merge_groups_snoc(live: Seq<GroupView>, inc: Seq<GroupView>, x: GroupView)
    ensures
        merge_groups(live, inc.push(x)) == ({
            let m = merge_groups(live, inc);
            if has_group(m, x.id) {
                m
            } else {
                m.push(x)
            }
        }),
    decreases inc.len(),
{
    let p = inc.push(x);
    if inc.len() == 0 {
        let nxt = if has_group(live, x.id) {
            live
        } else {
            live.push(x)
        };
        assert(p[0] == x);
        assert(p.drop_first() =~= Seq::<GroupView>::empty());
        assert(merge_groups(nxt, p.drop_first()) == nxt);
        assert(merge_groups(live, p) == nxt);
        assert(merge_groups(live, inc) == live);
    } else {
        assert(p[0] == inc[0]);
        assert(p.drop_first() =~= inc.drop_first().push(x));
        let nxt = if has_group(live, inc[0].id) {
            live
        } else {
            live.push(inc[0])
        };
        lemma_merge_groups_snoc(nxt, inc.drop_first(), x);
        assert(merge_groups(live, p) == merge_groups(nxt, p.drop_first()));
        assert(merge_groups(live, inc) == merge_groups(nxt, inc.drop_first()));
    }
}

/// Merging one more incoming item appends it exactly when its id is still
/// absent after the earlier merges.
proof fn lemma_merge_items_snoc(live: Seq<ItemView>, inc: Seq<ItemView>, x: ItemView)
    ensures
        merge_items(live, inc.push(x)) == ({
            let m = merge_items(live, inc);
            if has_item(m, x.id) {
                m
            } else {
                m.push(x)
            }
        }),
    decreases inc.len(),
{
    let p = inc.push(x);
    if inc.len() == 0 {
        let nxt = if has_item(live, x.id) {
            live
        } else {
            live.push(x)
        };
        assert(p[0] == x);
        assert(p.drop_first() =~= Seq::<ItemView>::empty());
        assert(merge_items(nxt, p.drop_first()) == nxt);
        assert(merge_items(live, p) == nxt);
        assert(merge_items(live, inc) == live);
    } else {
        assert(p[0] == inc[0]);
        assert(p.drop_first() =~= inc.drop_first().push(x));
        let nxt = if has_item(live, inc[0].id) {
            live
        } else {
            live.push(inc[0])
        };
        lemma_merge_items_snoc(nxt, inc.drop_first(), x);
        assert(merge_items(live, p) == merge_items(nxt, p.drop_first()));
        assert(merge_items(live, inc) == merge_items(nxt, inc.drop_first()));
    }
}

/// A filter over elements that all satisfy the predicate keeps the sequence.
proof fn lemma_filter_all<A>(s: Seq<A>, p: spec_fn(A) -> bool)
    requires
        forall|k: int| 0 <= k < s.len() ==> p(#[trigger] s[k]),
    ensures
        s.filter(p) == s,
    decreases s.len(),
{
    reveal(Seq::filter);
    if s.len() > 0 {
        lemma_filter_all(s.drop_last(), p);
        assert(s.drop_last().push(s.last()) =~= s);
    }
}

/// Is any group with this id present?
fn has_group_exec(groups: &Vec<Group>, id: u128) -> (r: bool)
    ensures
        r == has_group(groups.deep_view(), id),
{
    let ghost dv = groups.deep_view();
    let mut k: usize = 0;
    while k < groups.len()
        invariant
            k <= groups@.len(),
            dv == groups.deep_view(),
            dv.len() == groups@.len(),
            forall|l: int| 0 <= l < k ==> (#[trigger] dv[l]).id != id,
        decreases groups@.len() - k,
    {
        if groups[k].id == id {
            proof {
                assert(dv[k as int] == groups@[k as int]@);
            }
            return true;
        }
        proof {
            assert(dv[k as int] == groups@[k as int]@);
        }
        k += 1;
    }
    false
}

/// Is any item with this id present?
fn has_item_exec(items: &Vec<Item>, id: u128) -> (r: bool)
    ensures
        r == has_item(items.deep_view(), id),
{
    let ghost dv = items.deep_view();
    let mut k: usize = 0;
    while k < items.len()
        invariant
            k <= items@.len(),
            dv == items.deep_view(),
            dv.len() == items@.len(),
            forall|l: int| 0 <= l < k ==> (#[trigger] dv[l]).id != id,
        decreases items@.len() - k,
    {
        if items[k].id == id {
            proof {
                assert(dv[k as int] == items@[k as int]@);
            }
            return true;
        }
        proof {
            assert(dv[k as int] == items@[k as int]@);
        }
        k += 1;
    }
    false
}

/// The single owner of one vault's decrypted state.
///
/// Locked: no payload and no password in memory. Unlocked: the decrypted
/// payload, the master password (needed to re-derive a key on save), and a
/// dirty flag marking unsaved changes.
pub struct VaultService {
    kdf_params: KdfParams,
    password: Option<String>,
    payload: Option<VaultPayload>,
    dirty: bool,
}

impl VaultService {
    /// The payload and the password are held together: both in the Unlocked
    /// state, neither in the Locked state.
    pub closed spec fn wf(&self) -> bool {
        self.payload is Some <==> self.password is Some
    }

    pub closed spec fn spec_is_unlocked(&self) -> bool {
        self.payload is Some
    }

    pub closed spec fn spec_payload(&self) -> PayloadView {
        self.payload->Some_0@
    }

    pub closed spec fn spec_password(&self) -> Seq<char> {
        self.password->Some_0@
    }

    pub closed spec fn spec_dirty(&self) -> bool {
        self.dirty
    }

    pub closed spec fn spec_kdf_params(&self) -> KdfParams {
        self.kdf_params
    }

    /// A fresh service over a vault, in the Locked state.
    pub fn new(kdf_params: KdfParams) -> (s: Self)
        ensures
            s.wf(),
            !s.spec_is_unlocked(),
            !s.spec_dirty(),
            s.spec_kdf_params() == kdf_params,
    {
        VaultService { kdf_params, password: None, payload: None, dirty: false }
    }

    pub fn is_unlocked(&self) -> (r: bool)
        ensures
            r == self.spec_is_unlocked(),
    {
        self.payload.is_some()
    }

    pub fn is_dirty(&self) -> (r: bool)
        ensures
            r == self.spec_dirty(),
    {
        self.dirty
    }

    /// Create a brand-new vault: encrypt an empty payload under the password
    /// and enter the Unlocked state with it, clean. The returned bytes are
    /// the new vault file; on failure the service is unchanged.
    pub fn create(&mut self, password: &str) -> (r: Result<Vec<u8>, VaulturaError>)
        requires
            old(self).wf(),
        ensures
            final(self).wf(),
            r matches Ok(data) ==> {
                &&& final(self).spec_is_unlocked()
                &&& final(self).spec_password() == password@
                &&& !final(self).spec_dirty()
                &&& final(self).spec_kdf_params() == old(self).spec_kdf_params()
                &&& final(self).spec_payload().groups.len() == 0
                &&& final(self).spec_payload().items.len() == 0
                &&& final(self).spec_payload().meta.version == 1
                &&& vault_file::header_ok(data@)
                &&& vault_file::file_params(data@) == old(self).spec_kdf_params()
                &&& vault_file::spec_open_payload(data@, password@) == Some(
                    final(self).spec_payload(),
                )
            },
            r is Err ==> *final(self) == *old(self),
            r matches Err(e) ==> e is Kdf || e is Encryption,
    {
        let payload = VaultPayload::default();
        let data = match vault_file::write_vault(password, &self.kdf_params, &payload) {
            Ok(d) => d,
            Err(e) => return Err(e),
        };
        self.password = Some(password.to_owned());
        self.payload = Some(payload);
        self.dirty = false;
        Ok(data)
    }

    /// Unlock from the bytes of an existing vault file: decrypt, adopt the
    /// stored parameters and payload, clean. On any failure the service is
    /// unchanged, and the error distinguishes a malformed file from a wrong
    /// password.
    pub fn unlock(&mut self, data: &Vec<u8>, password: &str) -> (r: Result<(), VaulturaError>)
        requires
            old(self).wf(),
        ensures
            final(self).wf(),
            r is Ok ==> {
                &&& final(self).spec_is_unlocked()
                &&& final(self).spec_password() == password@
                &&& !final(self).spec_dirty()
                &&& vault_file::header_ok(data@)
                &&& final(self).spec_kdf_params() == vault_file::file_params(data@)
                &&& vault_file::spec_open_payload(data@, password@) == Some(
                    final(self).spec_payload(),
                )
            },
            r is Err ==> *final(self) == *old(self),
            !vault_file::header_ok(data@) <==> (r matches Err(e) && e is InvalidVaultFile),
            r matches Err(e) && e is WrongPassword ==> vault_file::spec_open_payload(
                data@,
                password@,
            ) is None || vault_file::file_ciphertext(data@).len() > vault_file::MAX_CIPHERTEXT,
            vault_file::header_ok(data@) && !vault_file::file_kdf_ok(data@, password@) ==> (
            r matches Err(e) && e is Kdf),
            vault_file::header_ok(data@) && vault_file::file_ciphertext(data@).len()
                <= vault_file::MAX_CIPHERTEXT && !(r matches Err(e) && e is Kdf) ==> match vault_file::spec_open_payload(
                data@,
                password@,
            ) {
                Option::Some(p) => r is Ok && final(self).spec_payload() == p,
                Option::None => r is Err,
            },
    {
        let (payload, params) = match vault_file::read_vault(data, password) {
            Ok(pp) => pp,
            Err(e) => return Err(e),
        };
        self.password = Some(password.to_owned());
        self.kdf_params = params;
        self.payload = Some(payload);
        self.dirty = false;
        Ok(())
    }

    /// Lock the vault: discard the payload and password, clear the dirty
    /// flag. Always succeeds.
    pub fn lock(&mut self)
        ensures
            final(self).wf(),
            !final(self).spec_is_unlocked(),
            !final(self).spec_dirty(),
            final(self).spec_kdf_params() == old(self).spec_kdf_params(),
    {
        self.payload = None;
        self.password = None;
        self.dirty = false;
    }

    /// Serialize and encrypt the current payload under the held password and
    /// parameters, clearing the dirty flag. The returned bytes are the new
    /// vault file; the caller persists them atomically. Fails while Locked.
    pub fn save(&mut self) -> (r: Result<Vec<u8>, VaulturaError>)
        requires
            old(self).wf(),
        ensures
            final(self).wf(),
            !old(self).spec_is_unlocked() <==> (r matches Err(e) && e is VaultLocked),
            r matches Ok(data) ==> {
                &&& old(self).spec_is_unlocked()
                &&& final(self).spec_is_unlocked()
                &&& final(self).spec_payload() == old(self).spec_payload()
                &&& final(self).spec_password() == old(self).spec_password()
                &&& final(self).spec_kdf_params() == old(self).spec_kdf_params()
                &&& !final(self).spec_dirty()
                &&& vault_file::header_ok(data@)
                &&& vault_file::file_params(data@) == old(self).spec_kdf_params()
                &&& vault_file::spec_open_payload(data@, old(self).spec_password()) == Some(
                    old(self).spec_payload(),
                )
            },
            r is Err ==> *final(self) == *old(self),
            r matches Err(e) ==> e is VaultLocked || e is Kdf || e is Encryption,
            old(self).spec_is_unlocked() && crate::kdf::kdf_params_ok(old(self).spec_kdf_params())
                && encode_utf8(old(self).spec_password()).len() <= 0xffff_ffff
                && crate::codec::enc_payload(old(self).spec_payload()).len() + 16
                <= vault_file::MAX_CIPHERTEXT ==> !(r matches Err(e) && e is Encryption),
    {
        let password = match &self.password {
            Some(p) => p,
            None => return Err(VaulturaError::VaultLocked),
        };
        let payload = match &self.payload {
            Some(p) => p,
            None => return Err(VaulturaError::VaultLocked),
        };
        let data = match vault_file::write_vault(password.as_str(), &self.kdf_params, payload) {
            Ok(d) => d,
            Err(e) => return Err(e),
        };
        self.dirty = false;
        Ok(data)
    }

    /// The groups of the unlocked vault, in order.
    pub fn groups(&self) -> (r: Result<&Vec<Group>, VaulturaError>)
        ensures
            self.spec_is_unlocked() <==> r is Ok,
            r matches Ok(v) ==> v.deep_view() == self.spec_payload().groups,
            r matches Err(e) ==> e is VaultLocked,
    {
        match &self.payload {
            Some(p) => Ok(&p.groups),
            None => Err(VaulturaError::VaultLocked),
        }
    }

    /// Append a new group under a fresh random id and mark the vault dirty.
    pub fn create_group(&mut self, name: String, parent_id: Option<u128>) -> (r: Result<
        u128,
        VaulturaError,
    >)
        requires
            old(self).wf(),
        ensures
            final(self).wf(),
            old(self).spec_is_unlocked() <==> r is Ok,
            r is Err ==> *final(self) == *old(self) && (r matches Err(e) && e is VaultLocked),
            r matches Ok(id) ==> {
                let gs = final(self).spec_payload().groups;
                let old_gs = old(self).spec_payload().groups;
                &&& final(self).spec_is_unlocked()
                &&& gs.len() == old_gs.len() + 1
                &&& gs == old_gs.push(gs.last())
                &&& gs.last().id == id
                &&& gs.last().name == name@
                &&& gs.last().parent_id == parent_id
                &&& final(self).spec_payload().items == old(self).spec_payload().items
                &&& final(self).spec_payload().meta == old(self).spec_payload().meta
                &&& final(self).spec_dirty()
                &&& final(self).spec_password() == old(self).spec_password()
                &&& final(self).spec_kdf_params() == old(self).spec_kdf_params()
            },
    {
        let id;
        {
            let p = match &mut self.payload {
                Some(p) => p,
                None => return Err(VaulturaError::VaultLocked),
            };
            let ghost oldgs = p.groups.deep_view();
            let group = Group::new(name, parent_id);
            id = group.id;
            let ghost gv = group@;
            p.groups.push(group);
            proof {
                assert(p.groups.deep_view() =~~= oldgs.push(gv));
            }
        }
        self.dirty = true;
        Ok(id)
    }

    /// Rename or reparent the first group that carries this id; mark the
    /// vault dirty. Fails when the id is absent or the vault is locked.
    pub fn update_group(&mut self, id: u128, name: String, parent_id: Option<u128>) -> (r: Result<
        (),
        VaulturaError,
    >)
        requires
            old(self).wf(),
        ensures
            final(self).wf(),
            r is Ok <==> old(self).spec_is_unlocked() && has_group(
                old(self).spec_payload().groups,
                id,
            ),
            r is Err ==> *final(self) == *old(self),
            r matches Err(e) ==> if old(self).spec_is_unlocked() {
                e matches VaulturaError::GroupNotFound(g) && g == id
            } else {
                e is VaultLocked
            },
            r is Ok ==> {
                let gs = final(self).spec_payload().groups;
                let old_gs = old(self).spec_payload().groups;
                &&& exists|k: int|
                    is_first_group_match(old_gs, id, k) && gs == old_gs.update(
                        k,
                        GroupView {
                            id,
                            name: name@,
                            parent_id,
                            created_at: old_gs[k].created_at,
                        },
                    )
                &&& final(self).spec_payload().items == old(self).spec_payload().items
                &&& final(self).spec_payload().meta == old(self).spec_payload().meta
                &&& final(self).spec_dirty()
                &&& final(self).spec_password() == old(self).spec_password()
                &&& final(self).spec_kdf_params() == old(self).spec_kdf_params()
            },
    {
        let found;
        {
            let p = match &mut self.payload {
                Some(p) => p,
                None => return Err(VaulturaError::VaultLocked),
            };
            let ghost oldgs = p.groups.deep_view();
            let n = p.groups.len();
            let mut k: usize = 0;
            let mut idx: Option<usize> = None;
            while k < n
                invariant
                    k <= n,
                    n == p.groups@.len(),
                    oldgs == p.groups.deep_view(),
                    oldgs.len() == n,
                    match idx {
                        Option::Some(i) => is_first_group_match(oldgs, id, i as int) && k >= n,
                        Option::None => forall|l: int|
                            0 <= l < k ==> (#[trigger] oldgs[l]).id != id,
                    },
                decreases n - k,
            {
                if p.groups[k].id == id {
                    proof {
                        assert(oldgs[k as int] == p.groups@[k as int]@);
                    }
                    idx = Some(k);
                    k = n;
                } else {
                    proof {
                        assert(oldgs[k as int] == p.groups@[k as int]@);
                    }
                    k += 1;
                }
            }
            match idx {
                None => {
                    return Err(VaulturaError::GroupNotFound(id));
                },
                Some(i) => {
                    let created_at = p.groups[i].created_at;
                    let updated = Group { id, name, parent_id, created_at };
                    let ghost uv = updated@;
                    p.groups.set(i, updated);
                    proof {
                        assert(p.groups.deep_view() =~~= oldgs.update(i as int, uv));
                        assert(uv =~= (GroupView {
                            id,
                            name: name@,
                            parent_id,
                            created_at: oldgs[i as int].created_at,
                        }));
                    }
                    found = true;
                },
            }
        }
        if found {
            self.dirty = true;
        }
        Ok(())
    }

    /// Delete every group that carries this id and clear the group reference
    /// of every item that pointed at it: no dangling references remain. Marks
    /// the vault dirty; fails when the id is absent or the vault is locked.
    pub fn delete_group(&mut self, id: u128) -> (r: Result<(), VaulturaError>)
        requires
            old(self).wf(),
        ensures
            final(self).wf(),
            r is Ok <==> old(self).spec_is_unlocked() && has_group(
                old(self).spec_payload().groups,
                id,
            ),
            r is Err ==> *final(self) == *old(self),
            r matches Err(e) ==> if old(self).spec_is_unlocked() {
                e matches VaulturaError::GroupNotFound(g) && g == id
            } else {
                e is VaultLocked
            },
            r is Ok ==> {
                let old_p = old(self).spec_payload();
                let new_p = final(self).spec_payload();
                &&& new_p.groups == old_p.groups.filter(keep_group(id))
                &&& new_p.items.len() == old_p.items.len()
                &&& forall|k: int|
                    0 <= k < old_p.items.len() ==> #[trigger] new_p.items[k] == clear_group_ref(
                        id,
                        old_p.items[k],
                    )
                &&& forall|k: int|
                    0 <= k < new_p.items.len() ==> (#[trigger] new_p.items[k]).group_id != Some(
                        id,
                    )
                &&& new_p.meta == old_p.meta
                &&& final(self).spec_dirty()
                &&& final(self).spec_password() == old(self).spec_password()
                &&& final(self).spec_kdf_params() == old(self).spec_kdf_params()
            },
    {
        {
            let p = match &mut self.payload {
                Some(p) => p,
                None => return Err(VaulturaError::VaultLocked),
            };
            if !has_group_exec(&p.groups, id) {
                return Err(VaulturaError::GroupNotFound(id));
            }
            let ghost oldgs = p.groups.deep_view();
            let mut kept: Vec<Group> = Vec::new();
            let mut k: usize = 0;
            while k < p.groups.len()
                invariant
                    k <= p.groups@.len(),
                    oldgs == p.groups.deep_view(),
                    oldgs.len() == p.groups@.len(),
                    kept.deep_view() == oldgs.take(k as int).filter(keep_group(id)),
                decreases p.groups@.len() - k,
            {
                let ghost keptv = kept.deep_view();
                proof {
                    reveal(Seq::filter);
                    assert(oldgs[k as int] == p.groups@[k as int]@);
                    assert(oldgs.take(k + 1 as int).drop_last() =~= oldgs.take(k as int));
                    assert(oldgs.take(k + 1 as int).last() == oldgs[k as int]);
                }
                if p.groups[k].id != id {
                    kept.push(p.groups[k].clone());
                    proof {
                        assert(kept.deep_view() =~~= keptv.push(oldgs[k as int]));
                    }
                }
                k += 1;
            }
            proof {
                assert(oldgs.take(p.groups@.len() as int) =~= oldgs);
            }
            let ghost keptdv = kept.deep_view();
            let ghost oldmeta = p.meta;
            p.groups = kept;
            let ghost olditems = p.items.deep_view();
            let mut j: usize = 0;
            while j < p.items.len()
                invariant
                    j <= p.items@.len(),
                    p.groups.deep_view() == keptdv,
                    p.meta == oldmeta,
                    p.items.deep_view().len() == olditems.len(),
                    olditems.len() == p.items@.len(),
                    forall|l: int|
                        0 <= l < j ==> #[trigger] p.items.deep_view()[l] == clear_group_ref(
                            id,
                            olditems[l],
                        ),
                    forall|l: int|
                        j <= l < olditems.len() ==> #[trigger] p.items.deep_view()[l]
                            == olditems[l],
                decreases p.items@.len() - j,
            {
                let ghost before = p.items.deep_view();
                let clear = match p.items[j].group_id {
                    Some(g) => g == id,
                    None => false,
                };
                if clear {
                    proof {
                        assert(before[j as int] == p.items@[j as int]@);
                        assert(before[j as int] == olditems[j as int]);
                    }
                    let mut it = p.items[j].clone();
                    proof {
                        assert(it@ == before[j as int]);
                    }
                    it.group_id = None;
                    let ghost itv = it@;
                    p.items.set(j, it);
                    proof {
                        assert(p.items.deep_view() =~~= before.update(j as int, itv));
                        assert(itv =~= clear_group_ref(id, olditems[j as int]));
                    }
                } else {
                    proof {
                        assert(before[j as int] == p.items@[j as int]@);
                        assert(before[j as int] == clear_group_ref(id, olditems[j as int]));
                    }
                }
                j += 1;
            }
        }
        self.dirty = true;
        Ok(())
    }

    /// The items of the unlocked vault, in order.
    pub fn items(&self) -> (r: Result<&Vec<Item>, VaulturaError>)
        ensures
            self.spec_is_unlocked() <==> r is Ok,
            r matches Ok(v) ==> v.deep_view() == self.spec_payload().items,
            r matches Err(e) ==> e is VaultLocked,
    {
        match &self.payload {
            Some(p) => Ok(&p.items),
            None => Err(VaulturaError::VaultLocked),
        }
    }

    /// The items of one group, or every item when no group is given.
    pub fn items_in_group(&self, group_id: Option<u128>) -> (r: Result<Vec<&Item>, VaulturaError>)
        ensures
            self.spec_is_unlocked() <==> r is Ok,
            r matches Ok(v) ==> v.deep_view() == (match group_id {
                Option::None => self.spec_payload().items,
                Option::Some(gid) => self.spec_payload().items.filter(in_group(gid)),
            }),
            r matches Err(e) ==> e is VaultLocked,
    {
        let p = match &self.payload {
            Some(p) => p,
            None => return Err(VaulturaError::VaultLocked),
        };
        let ghost dv = p.items.deep_view();
        let mut out: Vec<&Item> = Vec::new();
        let mut k: usize = 0;
        while k < p.items.len()
            invariant
                k <= p.items@.len(),
                dv == p.items.deep_view(),
                dv.len() == p.items@.len(),
                out.deep_view() == (match group_id {
                    Option::None => dv.take(k as int),
                    Option::Some(gid) => dv.take(k as int).filter(in_group(gid)),
                }),
            decreases p.items@.len() - k,
        {
            let ghost outv = out.deep_view();
            proof {
                reveal(Seq::filter);
                assert(dv[k as int] == p.items@[k as int]@);
                assert(dv.take(k + 1 as int).drop_last() =~= dv.take(k as int));
                assert(dv.take(k + 1 as int).last() == dv[k as int]);
            }
            let keep = match group_id {
                None => true,
                Some(gid) => match p.items[k].group_id {
                    Some(g) => g == gid,
                    None => false,
                },
            };
            if keep {
                out.push(&p.items[k]);
                proof {
                    assert(out.deep_view() =~~= outv.push(dv[k as int]));
                }
            }
            k += 1;
        }
        proof {
            assert(dv.take(p.items@.len() as int) =~= dv);
        }
        Ok(out)
    }

    /// The first item that carries this id.
    pub fn get_item(&self, id: u128) -> (r: Result<&Item, VaulturaError>)
        ensures
            r is Ok <==> self.spec_is_unlocked() && has_item(self.spec_payload().items, id),
            r matches Ok(it) ==> exists|k: int|
                is_first_item_match(self.spec_payload().items, id, k) && it@
                    == self.spec_payload().items[k],
            r matches Err(e) ==> if self.spec_is_unlocked() {
                e matches VaulturaError::ItemNotFound(i) && i == id
            } else {
                e is VaultLocked
            },
    {
        let p = match &self.payload {
            Some(p) => p,
            None => return Err(VaulturaError::VaultLocked),
        };
        let ghost dv = p.items.deep_view();
        let mut k: usize = 0;
        while k < p.items.len()
            invariant
                k <= p.items@.len(),
                self.spec_is_unlocked(),
                dv == self.spec_payload().items,
                dv == p.items.deep_view(),
                dv.len() == p.items@.len(),
                forall|l: int| 0 <= l < k ==> (#[trigger] dv[l]).id != id,
            decreases p.items@.len() - k,
        {
            proof {
                assert(dv[k as int] == p.items@[k as int]@);
            }
            if p.items[k].id == id {
                proof {
                    assert(is_first_item_match(dv, id, k as int));
                }
                return Ok(&p.items[k]);
            }
            k += 1;
        }
        Err(VaulturaError::ItemNotFound(id))
    }

    /// Append a new item built from the draft, under a fresh random id, and
    /// mark the vault dirty.
    pub fn create_item(&mut self, draft: ItemDraft) -> (r: Result<u128, VaulturaError>)
        requires
            old(self).wf(),
        ensures
            final(self).wf(),
            old(self).spec_is_unlocked() <==> r is Ok,
            r is Err ==> *final(self) == *old(self) && (r matches Err(e) && e is VaultLocked),
            r matches Ok(id) ==> {
                let its = final(self).spec_payload().items;
                let old_its = old(self).spec_payload().items;
                &&& final(self).spec_is_unlocked()
                &&& its.len() == old_its.len() + 1
                &&& its == old_its.push(its.last())
                &&& its.last().id == id
                &&& its.last().title == draft.title@
                &&& its.last().username == draft.username@
                &&& its.last().password == draft.password@
                &&& its.last().url == draft.url@
                &&& its.last().notes == draft.notes@
                &&& its.last().tags == draft.tags.deep_view()
                &&& its.last().group_id == draft.group_id
                &&& its.last().password_history.len() == 0
                &&& final(self).spec_payload().groups == old(self).spec_payload().groups
                &&& final(self).spec_payload().meta == old(self).spec_payload().meta
                &&& final(self).spec_dirty()
                &&& final(self).spec_password() == old(self).spec_password()
                &&& final(self).spec_kdf_params() == old(self).spec_kdf_params()
            },
    {
        let id;
        {
            let p = match &mut self.payload {
                Some(p) => p,
                None => return Err(VaulturaError::VaultLocked),
            };
            let ghost oldits = p.items.deep_view();
            let mut item = Item::new(draft.title, draft.group_id);
            item.username = draft.username;
            item.password = draft.password;
            item.url = draft.url;
            item.notes = draft.notes;
            item.tags = draft.tags;
            id = item.id;
            let ghost iv = item@;
            p.items.push(item);
            proof {
                assert(p.items.deep_view() =~~= oldits.push(iv));
            }
        }
        self.dirty = true;
        Ok(id)
    }

    /// Overwrite the editable fields of the first item that carries this id
    /// and refresh its modified timestamp; when the password changes from a
    /// non-empty value, first append that prior password to the item's
    /// history. Marks the vault dirty; fails when the id is absent or the
    /// vault is locked.
    pub fn update_item(&mut self, id: u128, draft: ItemDraft) -> (r: Result<(), VaulturaError>)
        requires
            old(self).wf(),
        ensures
            final(self).wf(),
            r is Ok <==> old(self).spec_is_unlocked() && has_item(
                old(self).spec_payload().items,
                id,
            ),
            r is Err ==> *final(self) == *old(self),
            r matches Err(e) ==> if old(self).spec_is_unlocked() {
                e matches VaulturaError::ItemNotFound(i) && i == id
            } else {
                e is VaultLocked
            },
            r is Ok ==> {
                let its = final(self).spec_payload().items;
                let old_its = old(self).spec_payload().items;
                &&& its.len() == old_its.len()
                &&& exists|k: int|
                    #![trigger old_its[k]]
                    {
                        let fi = its[k];
                        let oi = old_its[k];
                        &&& is_first_item_match(old_its, id, k)
                        &&& forall|l: int| 0 <= l < its.len() && l != k ==> #[trigger] its[l] == old_its[l]
                        &&& fi.id == oi.id
                        &&& fi.group_id == draft.group_id
                        &&& fi.title == draft.title@
                        &&& fi.username == draft.username@
                        &&& fi.password == draft.password@
                        &&& fi.url == draft.url@
                        &&& fi.notes == draft.notes@
                        &&& fi.tags == draft.tags.deep_view()
                        &&& fi.created_at == oi.created_at
                        &&& if oi.password != draft.password@ && oi.password.len() > 0 {
                            &&& fi.password_history.len() == oi.password_history.len() + 1
                            &&& fi.password_history.take(oi.password_history.len() as int)
                                == oi.password_history
                            &&& fi.password_history.last().password == oi.password
                        } else {
                            fi.password_history == oi.password_history
                        }
                    }
                &&& final(self).spec_payload().groups == old(self).spec_payload().groups
                &&& final(self).spec_payload().meta == old(self).spec_payload().meta
                &&& final(self).spec_dirty()
                &&& final(self).spec_password() == old(self).spec_password()
                &&& final(self).spec_kdf_params() == old(self).spec_kdf_params()
            },
    {
        {
            let p = match &mut self.payload {
                Some(p) => p,
                None => return Err(VaulturaError::VaultLocked),
            };
            let ghost oldits = p.items.deep_view();
            let n = p.items.len();
            let mut k: usize = 0;
            let mut idx: Option<usize> = None;
            while k < n
                invariant
                    k <= n,
                    n == p.items@.len(),
                    oldits == p.items.deep_view(),
                    oldits.len() == n,
                    match idx {
                        Option::Some(i) => is_first_item_match(oldits, id, i as int) && k >= n,
                        Option::None => forall|l: int|
                            0 <= l < k ==> (#[trigger] oldits[l]).id != id,
                    },
                decreases n - k,
            {
                proof {
                    assert(oldits[k as int] == p.items@[k as int]@);
                }
                if p.items[k].id == id {
                    idx = Some(k);
                    k = n;
                } else {
                    k += 1;
                }
            }
            let i = match idx {
                None => {
                    return Err(VaulturaError::ItemNotFound(id));
                },
                Some(i) => i,
            };
            proof {
                assert(oldits[i as int] == p.items@[i as int]@);
            }
            let mut it = p.items[i].clone();
            proof {
                assert(it@ == oldits[i as int]);
            }
            let changed = !(it.password == draft.password) && !it.password.as_str().is_empty();
            if changed {
                let prior = it.password.clone();
                let ghost oldhist = it.password_history.deep_view();
                let entry = PasswordHistoryEntry { password: prior, changed_at: sys::now_millis() };
                let ghost ev = entry@;
                it.password_history.push(entry);
                proof {
                    assert(it.password_history.deep_view() =~~= oldhist.push(ev));
                    assert(oldhist.push(ev).take(oldhist.len() as int) =~= oldhist);
                }
            }
            it.title = draft.title;
            it.username = draft.username;
            it.password = draft.password;
            it.url = draft.url;
            it.notes = draft.notes;
            it.tags = draft.tags;
            it.group_id = draft.group_id;
            it.modified_at = sys::now_millis();
            let ghost itv = it@;
            p.items.set(i, it);
            proof {
                assert(p.items.deep_view() =~~= oldits.update(i as int, itv));
            }
        }
        self.dirty = true;
        Ok(())
    }

    /// Delete every item that carries this id; mark the vault dirty. Fails
    /// when the id is absent or the vault is locked.
    pub fn delete_item(&mut self, id: u128) -> (r: Result<(), VaulturaError>)
        requires
            old(self).wf(),
        ensures
            final(self).wf(),
            r is Ok <==> old(self).spec_is_unlocked() && has_item(
                old(self).spec_payload().items,
                id,
            ),
            r is Err ==> *final(self) == *old(self),
            r matches Err(e) ==> if old(self).spec_is_unlocked() {
                e matches VaulturaError::ItemNotFound(i) && i == id
            } else {
                e is VaultLocked
            },
            r is Ok ==> {
                &&& final(self).spec_payload().items == old(self).spec_payload().items.filter(
                    keep_item(id),
                )
                &&& final(self).spec_payload().groups == old(self).spec_payload().groups
                &&& final(self).spec_payload().meta == old(self).spec_payload().meta
                &&& final(self).spec_dirty()
                &&& final(self).spec_password() == old(self).spec_password()
                &&& final(self).spec_kdf_params() == old(self).spec_kdf_params()
            },
    {
        {
            let p = match &mut self.payload {
                Some(p) => p,
                None => return Err(VaulturaError::VaultLocked),
            };
            if !has_item_exec(&p.items, id) {
                return Err(VaulturaError::ItemNotFound(id));
            }
            let ghost oldits = p.items.deep_view();
            let mut kept: Vec<Item> = Vec::new();
            let mut k: usize = 0;
            while k < p.items.len()
                invariant
                    k <= p.items@.len(),
                    oldits == p.items.deep_view(),
                    oldits.len() == p.items@.len(),
                    kept.deep_view() == oldits.take(k as int).filter(keep_item(id)),
                decreases p.items@.len() - k,
            {
                let ghost keptv = kept.deep_view();
                proof {
                    reveal(Seq::filter);
                    assert(oldits[k as int] == p.items@[k as int]@);
                    assert(oldits.take(k + 1 as int).drop_last() =~= oldits.take(k as int));
                    assert(oldits.take(k + 1 as int).last() == oldits[k as int]);
                }
                if p.items[k].id != id {
                    kept.push(p.items[k].clone());
                    proof {
                        assert(kept.deep_view() =~~= keptv.push(oldits[k as int]));
                    }
                }
                k += 1;
            }
            proof {
                assert(oldits.take(p.items@.len() as int) =~= oldits);
            }
            p.items = kept;
        }
        self.dirty = true;
        Ok(())
    }

    /// Case-insensitive multi-token AND search across title, username, url,
    /// notes and tags; an empty query returns every item.
    pub fn search(&self, query: &str) -> (r: Result<Vec<&Item>, VaulturaError>)
        ensures
            self.spec_is_unlocked() <==> r is Ok,
            r matches Ok(v) ==> v.deep_view() == self.spec_payload().items.filter(
                matches_query(query@),
            ),
            r matches Err(e) ==> e is VaultLocked,
    {
        let p = match &self.payload {
            Some(p) => p,
            None => return Err(VaulturaError::VaultLocked),
        };
        let ghost dv = p.items.deep_view();
        if query.is_empty() {
            let mut out: Vec<&Item> = Vec::new();
            let mut k: usize = 0;
            while k < p.items.len()
                invariant
                    k <= p.items@.len(),
                    dv == p.items.deep_view(),
                    dv.len() == p.items@.len(),
                    out.deep_view() == dv.take(k as int),
                decreases p.items@.len() - k,
            {
                let ghost outv = out.deep_view();
                proof {
                    assert(dv[k as int] == p.items@[k as int]@);
                }
                out.push(&p.items[k]);
                proof {
                    assert(out.deep_view() =~~= outv.push(dv[k as int]));
                    assert(dv.take(k + 1 as int) =~= dv.take(k as int).push(dv[k as int]));
                }
                k += 1;
            }
            proof {
                assert(dv.take(p.items@.len() as int) =~= dv);
                assert forall|l: int| 0 <= l < dv.len() implies matches_query(query@)(
                    #[trigger] dv[l],
                ) by {}
                lemma_filter_all(dv, matches_query(query@));
            }
            return Ok(out);
        }
        let toks = search::query_tokens(query);
        let mut out: Vec<&Item> = Vec::new();
        let mut k: usize = 0;
        while k < p.items.len()
            invariant
                k <= p.items@.len(),
                dv == p.items.deep_view(),
                dv.len() == p.items@.len(),
                toks.deep_view() == search::spec_query_tokens(query@),
                query@.len() > 0,
                out.deep_view() == dv.take(k as int).filter(matches_query(query@)),
            decreases p.items@.len() - k,
        {
            let ghost outv = out.deep_view();
            proof {
                reveal(Seq::filter);
                assert(dv[k as int] == p.items@[k as int]@);
                assert(dv.take(k + 1 as int).drop_last() =~= dv.take(k as int));
                assert(dv.take(k + 1 as int).last() == dv[k as int]);
            }
            if search::item_matches_query(&p.items[k], &toks) {
                out.push(&p.items[k]);
                proof {
                    assert(out.deep_view() =~~= outv.push(dv[k as int]));
                }
            }
            k += 1;
        }
        proof {
            assert(dv.take(p.items@.len() as int) =~= dv);
        }
        Ok(out)
    }

    /// Search restricted to one group; with no group given, the unrestricted
    /// search results.
    pub fn search_in_group(&self, query: &str, group_id: Option<u128>) -> (r: Result<
        Vec<&Item>,
        VaulturaError,
    >)
        ensures
            self.spec_is_unlocked() <==> r is Ok,
            r matches Ok(v) ==> v.deep_view() == self.spec_payload().items.filter(
                matches_query_in_group(query@, group_id),
            ),
            r matches Err(e) ==> e is VaultLocked,
    {
        let p = match &self.payload {
            Some(p) => p,
            None => return Err(VaulturaError::VaultLocked),
        };
        let ghost dv = p.items.deep_view();
        let toks = search::query_tokens(query);
        let query_empty = query.is_empty();
        let mut out: Vec<&Item> = Vec::new();
        let mut k: usize = 0;
        while k < p.items.len()
            invariant
                k <= p.items@.len(),
                dv == p.items.deep_view(),
                dv.len() == p.items@.len(),
                toks.deep_view() == search::spec_query_tokens(query@),
                query_empty == (query@.len() == 0),
                out.deep_view() == dv.take(k as int).filter(
                    matches_query_in_group(query@, group_id),
                ),
            decreases p.items@.len() - k,
        {
            let ghost outv = out.deep_view();
            proof {
                reveal(Seq::filter);
                assert(dv[k as int] == p.items@[k as int]@);
                assert(dv.take(k + 1 as int).drop_last() =~= dv.take(k as int));
                assert(dv.take(k + 1 as int).last() == dv[k as int]);
            }
            let text_match = query_empty || search::item_matches_query(&p.items[k], &toks);
            let group_match = match group_id {
                None => true,
                Some(gid) => match p.items[k].group_id {
                    Some(g) => g == gid,
                    None => false,
                },
            };
            if text_match && group_match {
                out.push(&p.items[k]);
                proof {
                    assert(out.deep_view() =~~= outv.push(dv[k as int]));
                }
            }
            k += 1;
        }
        proof {
            assert(dv.take(p.items@.len() as int) =~= dv);
        }
        Ok(out)
    }

    /// Re-encrypt the current payload under a new password to a separate
    /// file's contents; the live vault is untouched.
    #[verifier::rlimit(100)]
    #[verifier::spinoff_prover]
    pub fn export(&self, password: &str) -> (r: Result<Vec<u8>, VaulturaError>)
        ensures
            !self.spec_is_unlocked() <==> (r matches Err(e) && e is VaultLocked),
            r matches Ok(data) ==> {
                &&& vault_file::header_ok(data@)
                &&& vault_file::file_params(data@) == self.spec_kdf_params()
                &&& vault_file::spec_open_payload(data@, password@) == Some(
                    self.spec_payload(),
                )
            },
            r matches Err(e) ==> e is VaultLocked || e is Kdf || e is Encryption,
            self.spec_is_unlocked() && crate::kdf::kdf_params_ok(self.spec_kdf_params())
                && encode_utf8(password@).len() <= 0xffff_ffff && crate::codec::enc_payload(
                self.spec_payload(),
            ).len() + 16 <= vault_file::MAX_CIPHERTEXT ==> !(r matches Err(e) && e is Encryption),
    {
        let p = match &self.payload {
            Some(p) => p,
            None => return Err(VaulturaError::VaultLocked),
        };
        vault_file::export_vault(password, &self.kdf_params, p)
    }

    /// Decrypt another vault file and merge its groups and items into the
    /// live payload, skipping every id already present; returns how many
    /// records were added and marks the vault dirty when any were.
    pub fn import(&mut self, data: &Vec<u8>, password: &str) -> (r: Result<usize, VaulturaError>)
        requires
            old(self).wf(),
        ensures
            final(self).wf(),
            r is Err ==> *final(self) == *old(self),
            r matches Ok(count) ==> {
                let old_p = old(self).spec_payload();
                let new_p = final(self).spec_payload();
                &&& old(self).spec_is_unlocked()
                &&& final(self).spec_is_unlocked()
                &&& match vault_file::spec_open_payload(data@, password@) {
                    Option::Some(inc) => {
                        &&& new_p.groups == merge_groups(old_p.groups, inc.groups)
                        &&& new_p.items == merge_items(old_p.items, inc.items)
                    },
                    Option::None => false,
                }
                &&& new_p.meta == old_p.meta
                &&& ({
                    let sum = (new_p.groups.len() - old_p.groups.len()) + (new_p.items.len()
                        - old_p.items.len());
                    count == if sum <= usize::MAX {
                        sum
                    } else {
                        usize::MAX as int
                    }
                })
                &&& final(self).spec_dirty() == (old(self).spec_dirty() || count > 0)
                &&& final(self).spec_password() == old(self).spec_password()
                &&& final(self).spec_kdf_params() == old(self).spec_kdf_params()
            },
            !vault_file::header_ok(data@) <==> (r matches Err(e) && e is InvalidVaultFile),
            old(self).spec_is_unlocked() && vault_file::header_ok(data@)
                && vault_file::file_ciphertext(data@).len() <= vault_file::MAX_CIPHERTEXT && !(
            r matches Err(e) && e is Kdf) ==> match vault_file::spec_open_payload(
                data@,
                password@,
            ) {
                Option::Some(_) => r is Ok,
                Option::None => r is Err,
            },
    {
        let imported = match vault_file::import_vault(data, password) {
            Ok(p) => p,
            Err(e) => return Err(e),
        };
        let added;
        {
            let p = match &mut self.payload {
                Some(p) => p,
                None => return Err(VaulturaError::VaultLocked),
            };
            let old_glen = p.groups.len();
            let old_ilen = p.items.len();
            let ghost live0_g = p.groups.deep_view();
            let ghost live0_i = p.items.deep_view();
            let ghost inc_g = imported.groups.deep_view();
            let ghost inc_i = imported.items.deep_view();
            let ghost meta0 = p.meta;
            let ghost items0 = p.items.deep_view();
            let mut k: usize = 0;
            while k < imported.groups.len()
                invariant
                    k <= imported.groups@.len(),
                    inc_g == imported.groups.deep_view(),
                    inc_g.len() == imported.groups@.len(),
                    p.groups.deep_view() == merge_groups(live0_g, inc_g.take(k as int)),
                    p.groups@.len() >= old_glen,
                    p.items.deep_view() == items0,
                    p.meta == meta0,
                    old_glen == live0_g.len(),
                decreases imported.groups@.len() - k,
            {
                let ghost cur = p.groups.deep_view();
                proof {
                    assert(inc_g[k as int] == imported.groups@[k as int]@);
                    assert(inc_g.take(k + 1 as int) =~= inc_g.take(k as int).push(
                        inc_g[k as int],
                    ));
                    lemma_merge_groups_snoc(live0_g, inc_g.take(k as int), inc_g[k as int]);
                }
                if !has_group_exec(&p.groups, imported.groups[k].id) {
                    p.groups.push(imported.groups[k].clone());
                    proof {
                        assert(p.groups.deep_view() =~~= cur.push(inc_g[k as int]));
                    }
                }
                k += 1;
            }
            proof {
                assert(inc_g.take(imported.groups@.len() as int) =~= inc_g);
            }
            let ghost groups1 = p.groups.deep_view();
            let mut j: usize = 0;
            while j < imported.items.len()
                invariant
                    j <= imported.items@.len(),
                    inc_i == imported.items.deep_view(),
                    inc_i.len() == imported.items@.len(),
                    p.items.deep_view() == merge_items(live0_i, inc_i.take(j as int)),
                    p.items@.len() >= old_ilen,
                    p.groups.deep_view() == groups1,
                    p.meta == meta0,
                    old_ilen == live0_i.len(),
                decreases imported.items@.len() - j,
            {
                let ghost cur = p.items.deep_view();
                proof {
                    assert(inc_i[j as int] == imported.items@[j as int]@);
                    assert(inc_i.take(j + 1 as int) =~= inc_i.take(j as int).push(
                        inc_i[j as int],
                    ));
                    lemma_merge_items_snoc(live0_i, inc_i.take(j as int), inc_i[j as int]);
                }
                if !has_item_exec(&p.items, imported.items[j].id) {
                    p.items.push(imported.items[j].clone());
                    proof {
                        assert(p.items.deep_view() =~~= cur.push(inc_i[j as int]));
                    }
                }
                j += 1;
            }
            proof {
                assert(inc_i.take(imported.items@.len() as int) =~= inc_i);
            }
            let g_added = p.groups.len() - old_glen;
            let i_added = p.items.len() - old_ilen;
            added = if i_added <= usize::MAX - g_added {
                g_added + i_added
            } else {
                usize::MAX
            };
        }
        if added > 0 {
            self.dirty = true;
        }
        Ok(added)
    }
}

/// Importing into an empty vault adds every record: with no live groups and
/// pairwise-distinct incoming ids, the merge is exactly the incoming list.
pub proof fn lemma_merge_groups_into_empty(live: Seq<GroupView>, inc: Seq<GroupView>)
    requires
        forall|k: int| 0 <= k < inc.len() ==> !has_group(live, (#[trigger] inc[k]).id),
        forall|k: int, l: int| 0 <= k < l < inc.len() ==> (#[trigger] inc[k]).id != (#[trigger] inc[l]).id,
    ensures
        merge_groups(live, inc) == live + inc,
    decreases inc.len(),
{
    if inc.len() == 0 {
        assert(live + inc =~= live);
    } else {
        let x = inc[0];
        assert(!has_group(live, x.id));
        let nxt = live.push(x);
        assert forall|k: int| 0 <= k < inc.drop_first().len() implies !has_group(
            nxt,
            (#[trigger] inc.drop_first()[k]).id,
        ) by {
            assert(inc.drop_first()[k] == inc[k + 1]);
            assert(inc[0].id != inc[k + 1].id);
            assert forall|j: int| 0 <= j < nxt.len() implies (#[trigger] nxt[j]).id != inc[k
                + 1].id by {
                if j < live.len() {
                    assert(!has_group(live, inc[k + 1].id));
                } else {
                    assert(nxt[j] == x);
                }
            }
        }
        assert forall|k: int, l: int|
            0 <= k < l < inc.drop_first().len() implies (#[trigger] inc.drop_first()[k]).id != (
        #[trigger] inc.drop_first()[l]).id by {
            assert(inc.drop_first()[k] == inc[k + 1]);
            assert(inc.drop_first()[l] == inc[l + 1]);
        }
        lemma_merge_groups_into_empty(nxt, inc.drop_first());
        assert(live.push(x) + inc.drop_first() =~= live + inc);
    }
}

/// Importing the same records again adds nothing: when every incoming id is
/// already present, the merge leaves the live list unchanged.
pub proof fn lemma_merge_groups_idempotent(live: Seq<GroupView>, inc: Seq<GroupView>)
    requires
        forall|k: int| 0 <= k < inc.len() ==> has_group(live, (#[trigger] inc[k]).id),
    ensures
        merge_groups(live, inc) == live,
    decreases inc.len(),
{
    if inc.len() > 0 {
        assert(has_group(live, inc[0].id));
        assert forall|k: int| 0 <= k < inc.drop_first().len() implies has_group(
            live,
            (#[trigger] inc.drop_first()[k]).id,
        ) by {
            assert(inc.drop_first()[k] == inc[k + 1]);
        }
        lemma_merge_groups_idempotent(live, inc.drop_first());
    }
}

/// Importing into an empty vault adds every record: with no live items and
/// pairwise-distinct incoming ids, the merge is exactly the incoming list.
pub proof fn lemma_merge_items_into_empty(live: Seq<ItemView>, inc: Seq<ItemView>)
    requires
        forall|k: int| 0 <= k < inc.len() ==> !has_item(live, (#[trigger] inc[k]).id),
        forall|k: int, l: int| 0 <= k < l < inc.len() ==> (#[trigger] inc[k]).id != (#[trigger] inc[l]).id,
    ensures
        merge_items(live, inc) == live + inc,
    decreases inc.len(),
{
    if inc.len() == 0 {
        assert(live + inc =~= live);
    } else {
        let x = inc[0];
        assert(!has_item(live, x.id));
        let nxt = live.push(x);
        assert forall|k: int| 0 <= k < inc.drop_first().len() implies !has_item(
            nxt,
            (#[trigger] inc.drop_first()[k]).id,
        ) by {
            assert(inc.drop_first()[k] == inc[k + 1]);
            assert(inc[0].id != inc[k + 1].id);
            assert forall|j: int| 0 <= j < nxt.len() implies (#[trigger] nxt[j]).id != inc[k
                + 1].id by {
                if j < live.len() {
                    assert(!has_item(live, inc[k + 1].id));
                } else {
                    assert(nxt[j] == x);
                }
            }
        }
        assert forall|k: int, l: int|
            0 <= k < l < inc.drop_first().len() implies (#[trigger] inc.drop_first()[k]).id != (
        #[trigger] inc.drop_first()[l]).id by {
            assert(inc.drop_first()[k] == inc[k + 1]);
            assert(inc.drop_first()[l] == inc[l + 1]);
        }
        lemma_merge_items_into_empty(nxt, inc.drop_first());
        assert(live.push(x) + inc.drop_first() =~= live + inc);
    }
}

/// Importing the same records again adds nothing: when every incoming id is
/// already present, the merge leaves the live list unchanged.
pub proof fn lemma_merge_items_idempotent(live: Seq<ItemView>, inc: Seq<ItemView>)
    requires
        forall|k: int| 0 <= k < inc.len() ==> has_item(live, (#[trigger] inc[k]).id),
    ensures
        merge_items(live, inc) == live,
    decreases inc.len(),
{
    if inc.len() > 0 {
        assert(has_item(live, inc[0].id));
        assert forall|k: int| 0 <= k < inc.drop_first().len() implies has_item(
            live,
            (#[trigger] inc.drop_first()[k]).id,
        ) by {
            assert(inc.drop_first()[k] == inc[k + 1]);
        }
        lemma_merge_items_idempotent(live, inc.drop_first());
    }
}

} // verus!
