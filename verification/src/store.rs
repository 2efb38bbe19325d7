//! Executable store: per-user tables and the multi-user store, with every
//! operation verified against the transition functions of [`crate::model`].

use vstd::prelude::*;

use crate::errors::SyncError;
use crate::laws::{
    lemma_ack_wf, lemma_create_client_wf, lemma_push_batch_wf, lemma_register_wf,
    lemma_seq_value_wf, lemma_store_bootstrap_wf, lemma_store_update_wf,
};
use crate::model::{
    apply_ack, apply_create_client, apply_push_batch, apply_push_one, apply_seq_value,
    apply_set_head, bootstrap_view, client_index, contains_client_id, contains_patch_key, fanin,
    fanout, fanout_target, first_n, lemma_client_index_spec, lemma_patch_index_spec,
    lemma_user_index_spec,
    patch_index, patch_key_of, patch_views, pending_for, pending_key_of, push_batch, root_key,
    store_wf, user_index, user_wf, without_row, Client, ClientView, Patch, PatchKey, PatchView,
    PendingPatch, UserView,
};

verus! {

/// Row shape of a user's client-id counter, created once at bootstrap with
/// `last_value` 0; its sole purpose is minting fresh client ids.
#[derive(Debug)]
pub struct CreateSeqRow {
    pub user_id: String,
    pub last_value: i64,
}

/// Row returned when the client-id counter is moved: its new value.
#[derive(Debug, Clone, Copy, PartialEq, Eq, Structural)]
pub struct UpdateLastSeqValueRow {
    pub last_value: i64,
}

/// Row returned by a head lookup: the head triple joined with the referenced
/// patch's creation time and the producing client's display name.
#[derive(Debug)]
pub struct GetHeadRow {
    pub head_client_id: i64,
    pub head_session_id: i64,
    pub head_patch_id: i64,
    pub created_at: i64,
    pub name: String,
}

/// Mathematical value of a [`GetHeadRow`].
#[verifier::ext_equal]
pub struct HeadRowView {
    pub head_client_id: i64,
    pub head_session_id: i64,
    pub head_patch_id: i64,
    pub created_at: i64,
    pub name: Seq<char>,
}

impl View for GetHeadRow {
    type V = HeadRowView;

    open spec fn view(&self) -> HeadRowView {
        HeadRowView {
            head_client_id: self.head_client_id,
            head_session_id: self.head_session_id,
            head_patch_id: self.head_patch_id,
            created_at: self.created_at,
            name: self.name@,
        }
    }
}

/// Row returned by a pending-queue read: the pending patch joined with its
/// stored record.
#[derive(Debug)]
pub struct GetPendingPatchesRow {
    pub user_id: String,
    pub client_id: i64,
    pub session_id: i64,
    pub patch_id: i64,
    pub parent_client_id: i64,
    pub parent_session_id: i64,
    pub parent_patch_id: i64,
    pub patch: String,
    pub created_at: i64,
}

/// Mathematical value of a [`GetPendingPatchesRow`].
#[verifier::ext_equal]
pub struct PendingRowView {
    pub user_id: Seq<char>,
    pub client_id: i64,
    pub session_id: i64,
    pub patch_id: i64,
    pub parent_client_id: i64,
    pub parent_session_id: i64,
    pub parent_patch_id: i64,
    pub patch: Seq<char>,
    pub created_at: i64,
}

impl View for GetPendingPatchesRow {
    type V = PendingRowView;

    open spec fn view(&self) -> PendingRowView {
        PendingRowView {
            user_id: self.user_id@,
            client_id: self.client_id,
            session_id: self.session_id,
            patch_id: self.patch_id,
            parent_client_id: self.parent_client_id,
            parent_session_id: self.parent_session_id,
            parent_patch_id: self.parent_patch_id,
            patch: self.patch@,
            created_at: self.created_at,
        }
    }
}

/// The mathematical values of a sequence of joined pending rows.
pub open spec fn row_views(rs: Seq<GetPendingPatchesRow>) -> Seq<PendingRowView> {
    rs.map_values(|x: GetPendingPatchesRow| x@)
}

/// The pending-queue row carrying the stored patch `p` of user `uid`.
pub open spec fn pull_row(uid: Seq<char>, p: PatchView) -> PendingRowView {
    PendingRowView {
        user_id: uid,
        client_id: p.client_id,
        session_id: p.session_id,
        patch_id: p.patch_id,
        parent_client_id: p.parent_client_id,
        parent_session_id: p.parent_session_id,
        parent_patch_id: p.parent_patch_id,
        patch: p.patch,
        created_at: p.created_at,
    }
}

/// Pending rows joined with the patch table, in order; a row whose key is
/// not stored joins to nothing.
pub open spec fn join_rows(uid: Seq<char>, patches: Seq<PatchView>, rows: Seq<PendingPatch>) -> Seq<
    PendingRowView,
>
    decreases rows.len(),
{
    if rows.len() == 0 {
        Seq::empty()
    } else {
        join_rows(uid, patches, rows.drop_last()) + {
            let pi = patch_index(patches, pending_key_of(rows.last()));
            if pi >= 0 {
                seq![pull_row(uid, patches[pi])]
            } else {
                Seq::empty()
            }
        }
    }
}

/// All durable state of one user: the head pointer, the client-id counter,
/// and the client, patch and pending-queue tables.
#[derive(Debug)]
pub struct UserStore {
    pub user_id: String,
    pub head: PatchKey,
    pub seq_last_value: i64,
    pub clients: Vec<Client>,
    pub patches: Vec<Patch>,
    pub pending: Vec<PendingPatch>,
}

impl View for UserStore {
    type V = UserView;

    open spec fn view(&self) -> UserView {
        UserView {
            user_id: self.user_id@,
            head: self.head,
            seq_last_value: self.seq_last_value,
            clients: self.clients@.map_values(|c: Client| c@),
            patches: self.patches@.map_values(|p: Patch| p@),
            pending: self.pending@,
        }
    }
}

impl UserStore {
    /// Whether some stored patch has key `k`.
    fn contains_patch(&self, k: PatchKey) -> (r: bool)
        ensures
            r == contains_patch_key(self@.patches, k),
    {
        let mut i: usize = 0;
        while i < self.patches.len()
            invariant
                i <= self@.patches.len(),
                self@.patches.len() == self.patches@.len(),
                forall|j: int| 0 <= j < i ==> patch_key_of(self@.patches[j]) != k,
            decreases self.patches@.len() - i,
        {
            let p = &self.patches[i];
            if p.client_id == k.client_id && p.session_id == k.session_id && p.patch_id
                == k.patch_id {
                assert(patch_key_of(self@.patches[i as int]) == k);
                return true;
            }
            assert(patch_key_of(self@.patches[i as int]) != k);
            i += 1;
        }
        false
    }

    /// Whether some client row has id `id`.
    fn contains_client(&self, id: i64) -> (r: bool)
        ensures
            r == contains_client_id(self@.clients, id),
    {
        let mut i: usize = 0;
        while i < self.clients.len()
            invariant
                i <= self@.clients.len(),
                self@.clients.len() == self.clients@.len(),
                forall|j: int| 0 <= j < i ==> self@.clients[j].client_id != id,
            decreases self.clients@.len() - i,
        {
            if self.clients[i].client_id == id {
                assert(self@.clients[i as int].client_id == id);
                return true;
            }
            assert(self@.clients[i as int].client_id != id);
            i += 1;
        }
        false
    }

    /// Insert one patch as an idempotent unit: a duplicate key is skipped
    /// silently; a new key stores the patch and, in the same unit of work,
    /// one pending row per existing client other than client 0 and the
    /// producer.
    fn push_one_patch(&mut self, p: &Patch)
        ensures
            final(self)@ == apply_push_one(old(self)@, p@),
    {
        let k = PatchKey { client_id: p.client_id, session_id: p.session_id, patch_id: p.patch_id };
        assert(k == patch_key_of(p@));
        if self.contains_patch(k) {
            assert(self@ =~= apply_push_one(old(self)@, p@));
            return ;
        }
        self.patches.push(p.clone());
        assert(self@.patches =~= old(self)@.patches.push(p@));
        let ghost pending0 = self.pending@;
        let n = self.clients.len();
        let mut i: usize = 0;
        while i < n
            invariant
                i <= n,
                n == self.clients@.len(),
                self.pending@ == pending0 + fanout(self@.clients.take(i as int), k),
                self.clients@ == old(self).clients@,
                self@.patches == old(self)@.patches.push(p@),
                self.user_id == old(self).user_id,
                self.head == old(self).head,
                self.seq_last_value == old(self).seq_last_value,
            decreases n - i,
        {
            let cid = self.clients[i].client_id;
            proof {
                assert(self@.clients.take(i + 1).drop_last() =~= self@.clients.take(i as int));
                assert(self@.clients.take(i + 1).last() == self@.clients[i as int]);
                assert(self@.clients[i as int].client_id == cid);
            }
            if cid != 0 && cid != k.client_id {
                self.pending.push(PendingPatch {
                    consumer_client_id: cid,
                    producer_client_id: k.client_id,
                    producer_session_id: k.session_id,
                    producer_patch_id: k.patch_id,
                });
                assert(self.pending@ =~= pending0 + fanout(self@.clients.take(i + 1), k));
            } else {
                assert(self.pending@ =~= pending0 + fanout(self@.clients.take(i + 1), k));
            }
            i += 1;
        }
        proof {
            assert(self@.clients.take(n as int) =~= self@.clients);
            assert(self@.clients =~= old(self)@.clients);
            assert(self@ =~= apply_push_one(old(self)@, p@));
        }
    }

    /// Insert a batch of patches, each as an independent idempotent unit, in
    /// order.
    pub fn create_patches_for_user(&mut self, patches: &Vec<Patch>)
        ensures
            final(self)@ == apply_push_batch(old(self)@, patch_views(patches@)),
    {
        let ghost batch = patch_views(patches@);
        let n = patches.len();
        let mut i: usize = 0;
        while i < n
            invariant
                i <= n,
                n == patches@.len(),
                batch == patch_views(patches@),
                self@ == apply_push_batch(old(self)@, batch.take(i as int)),
            decreases n - i,
        {
            self.push_one_patch(&patches[i]);
            proof {
                assert(batch.take(i + 1).drop_last() =~= batch.take(i as int));
                assert(batch.take(i + 1).last() == patches@[i as int]@);
                assert(self@ =~= apply_push_batch(old(self)@, batch.take(i + 1)));
            }
            i += 1;
        }
        proof {
            assert(batch.take(n as int) =~= batch);
        }
    }

    /// Create a client row and, in the same unit of work, back-fill its
    /// pending queue with every existing patch (fan-in).  A duplicate client
    /// id is refused, as the store's uniqueness constraint would be.
    pub fn create_client(&mut self, client_id: i64, name: String) -> (r: Result<(), SyncError>)
        ensures
            contains_client_id(old(self)@.clients, client_id) ==> r == Err::<(), SyncError>(
                SyncError::AlreadyExists,
            ) && final(self)@ == old(self)@,
            !contains_client_id(old(self)@.clients, client_id) ==> r == Ok::<(), SyncError>(())
                && final(self)@ == apply_create_client(old(self)@, client_id, name@),
    {
        if self.contains_client(client_id) {
            return Err(SyncError::AlreadyExists);
        }
        let ghost nv = name@;
        self.clients.push(Client { client_id, name });
        assert(self@.clients =~= old(self)@.clients.push(ClientView { client_id, name: nv }));
        let ghost pending0 = self.pending@;
        let n = self.patches.len();
        let mut i: usize = 0;
        while i < n
            invariant
                i <= n,
                n == self.patches@.len(),
                self.pending@ == pending0 + fanin(self@.patches.take(i as int), client_id),
                self.patches@ == old(self).patches@,
                self@.clients == old(self)@.clients.push(ClientView { client_id, name: nv }),
                self.user_id == old(self).user_id,
                self.head == old(self).head,
                self.seq_last_value == old(self).seq_last_value,
            decreases n - i,
        {
            proof {
                assert(self@.patches.take(i + 1).drop_last() =~= self@.patches.take(i as int));
                assert(self@.patches.take(i + 1).last() == self@.patches[i as int]);
            }
            let producer = self.patches[i].client_id;
            assert(self@.patches[i as int].client_id == producer);
            if client_id != 0 && producer != client_id {
                let p = &self.patches[i];
                self.pending.push(PendingPatch {
                    consumer_client_id: client_id,
                    producer_client_id: p.client_id,
                    producer_session_id: p.session_id,
                    producer_patch_id: p.patch_id,
                });
                assert(self.pending@ =~= pending0 + fanin(self@.patches.take(i + 1), client_id));
            } else {
                assert(self.pending@ =~= pending0 + fanin(self@.patches.take(i + 1), client_id));
            }
            i += 1;
        }
        proof {
            assert(self@.patches.take(n as int) =~= self@.patches);
            assert(self@.patches =~= old(self)@.patches);
            assert(self@ =~= apply_create_client(old(self)@, client_id, nv));
        }
        Ok(())
    }

    /// Move the client-id counter by `delta` and report the new value; the
    /// counter refuses to wrap.
    pub fn update_last_seq_value(&mut self, delta: i64) -> (r: Result<
        UpdateLastSeqValueRow,
        SyncError,
    >)
        ensures
            (i64::MIN <= old(self).seq_last_value + delta <= i64::MAX) ==> r == Ok::<
                UpdateLastSeqValueRow,
                SyncError,
            >(
                UpdateLastSeqValueRow {
                    last_value: (old(self).seq_last_value + delta) as i64,
                },
            ) && final(self)@ == apply_seq_value(
                old(self)@,
                (old(self).seq_last_value + delta) as i64,
            ),
            !(i64::MIN <= old(self).seq_last_value + delta <= i64::MAX) ==> r == Err::<
                UpdateLastSeqValueRow,
                SyncError,
            >(SyncError::SeqExhausted) && final(self)@ == old(self)@,
    {
        match self.seq_last_value.checked_add(delta) {
            Some(v) => {
                self.seq_last_value = v;
                assert(self@ =~= apply_seq_value(old(self)@, v));
                Ok(UpdateLastSeqValueRow { last_value: v })
            },
            None => Err(SyncError::SeqExhausted),
        }
    }

    /// Allocate a fresh client id from the counter and create the client row
    /// with its fan-in rows, as one all-or-nothing unit: on any refusal the
    /// state is unchanged.
    pub fn register_client(&mut self, name: String) -> (r: Result<i64, SyncError>)
        ensures
            old(self).seq_last_value == i64::MAX ==> r == Err::<i64, SyncError>(
                SyncError::SeqExhausted,
            ) && final(self)@ == old(self)@,
            old(self).seq_last_value != i64::MAX ==> ({
                let cid = (old(self).seq_last_value + 1) as i64;
                &&& contains_client_id(old(self)@.clients, cid) ==> r == Err::<i64, SyncError>(
                    SyncError::AlreadyExists,
                ) && final(self)@ == old(self)@
                &&& !contains_client_id(old(self)@.clients, cid) ==> r == Ok::<i64, SyncError>(cid)
                    && final(self)@ == apply_create_client(
                    apply_seq_value(old(self)@, cid),
                    cid,
                    name@,
                )
            }),
    {
        if self.seq_last_value == i64::MAX {
            return Err(SyncError::SeqExhausted);
        }
        let cid = self.seq_last_value + 1;
        if self.contains_client(cid) {
            return Err(SyncError::AlreadyExists);
        }
        let advanced = self.update_last_seq_value(1);
        assert(advanced is Ok);
        let created = self.create_client(cid, name);
        assert(created is Ok);
        Ok(cid)
    }

    /// Remove every pending row equal to `row`.
    fn remove_pending_row(&mut self, row: PendingPatch)
        ensures
            final(self).pending@ == without_row(old(self).pending@, row),
            final(self).user_id == old(self).user_id,
            final(self).head == old(self).head,
            final(self).seq_last_value == old(self).seq_last_value,
            final(self).clients@ == old(self).clients@,
            final(self).patches@ == old(self).patches@,
    {
        let mut kept: Vec<PendingPatch> = Vec::new();
        let n = self.pending.len();
        let mut i: usize = 0;
        while i < n
            invariant
                i <= n,
                n == self.pending@.len(),
                kept@ == without_row(self.pending@.take(i as int), row),
            decreases n - i,
        {
            proof {
                assert(self.pending@.take(i + 1).drop_last() =~= self.pending@.take(i as int));
                assert(self.pending@.take(i + 1).last() == self.pending@[i as int]);
            }
            let q = self.pending[i];
            if !(q == row) {
                kept.push(q);
            }
            assert(kept@ =~= without_row(self.pending@.take(i + 1), row));
            i += 1;
        }
        proof {
            assert(self.pending@.take(n as int) =~= self.pending@);
        }
        self.pending = kept;
    }

    /// Acknowledge a batch of patch keys for one consumer, deleting the named
    /// pending rows; deleting an absent key is a silent no-op.
    pub fn delete_pending_patches(&mut self, client_id: i64, patch_keys: &Vec<PatchKey>)
        ensures
            final(self)@ == apply_ack(old(self)@, client_id, patch_keys@),
    {
        let n = patch_keys.len();
        let mut i: usize = 0;
        while i < n
            invariant
                i <= n,
                n == patch_keys@.len(),
                self@ == apply_ack(old(self)@, client_id, patch_keys@.take(i as int)),
            decreases n - i,
        {
            proof {
                assert(patch_keys@.take(i + 1).drop_last() =~= patch_keys@.take(i as int));
                assert(patch_keys@.take(i + 1).last() == patch_keys@[i as int]);
            }
            let k = patch_keys[i];
            self.remove_pending_row(PendingPatch {
                consumer_client_id: client_id,
                producer_client_id: k.client_id,
                producer_session_id: k.session_id,
                producer_patch_id: k.patch_id,
            });
            assert(self@ =~= apply_ack(old(self)@, client_id, patch_keys@.take(i + 1)));
            i += 1;
        }
        proof {
            assert(patch_keys@.take(n as int) =~= patch_keys@);
        }
    }

    /// First index of the stored patch with key `k`, if any.
    fn find_patch(&self, k: PatchKey) -> (r: Option<usize>)
        ensures
            match r {
                Some(i) => patch_index(self@.patches, k) == i as int,
                None => patch_index(self@.patches, k) == -1,
            },
    {
        proof {
            lemma_patch_index_spec(self@.patches, k);
        }
        let mut i: usize = 0;
        while i < self.patches.len()
            invariant
                i <= self@.patches.len(),
                self@.patches.len() == self.patches@.len(),
                forall|j: int| 0 <= j < i ==> patch_key_of(self@.patches[j]) != k,
            decreases self.patches@.len() - i,
        {
            let p = &self.patches[i];
            if p.client_id == k.client_id && p.session_id == k.session_id && p.patch_id
                == k.patch_id {
                assert(patch_key_of(self@.patches[i as int]) == k);
                proof {
                    lemma_patch_index_spec(self@.patches, k);
                }
                return Some(i);
            }
            assert(patch_key_of(self@.patches[i as int]) != k);
            i += 1;
        }
        None
    }

    /// First index of the client row with id `id`, if any.
    fn find_client(&self, id: i64) -> (r: Option<usize>)
        ensures
            match r {
                Some(i) => client_index(self@.clients, id) == i as int,
                None => client_index(self@.clients, id) == -1,
            },
    {
        proof {
            lemma_client_index_spec(self@.clients, id);
        }
        let mut i: usize = 0;
        while i < self.clients.len()
            invariant
                i <= self@.clients.len(),
                self@.clients.len() == self.clients@.len(),
                forall|j: int| 0 <= j < i ==> self@.clients[j].client_id != id,
            decreases self.clients@.len() - i,
        {
            if self.clients[i].client_id == id {
                assert(self@.clients[i as int].client_id == id);
                proof {
                    lemma_client_index_spec(self@.clients, id);
                }
                return Some(i);
            }
            assert(self@.clients[i as int].client_id != id);
            i += 1;
        }
        None
    }

    /// Read the head triple joined with the referenced patch's creation time
    /// and the producing client's display name; the lookup fails distinctly
    /// when the head does not name a stored patch and client.
    pub fn get_head(&self) -> (r: Result<GetHeadRow, SyncError>)
        ensures
            ({
                let pi = patch_index(self@.patches, self.head);
                let ci = client_index(self@.clients, self.head.client_id);
                &&& (pi >= 0 && ci >= 0) ==> (r matches Ok(row) && row@ == (HeadRowView {
                    head_client_id: self.head.client_id,
                    head_session_id: self.head.session_id,
                    head_patch_id: self.head.patch_id,
                    created_at: self@.patches[pi].created_at,
                    name: self@.clients[ci].name,
                }))
                &&& !(pi >= 0 && ci >= 0) ==> r == Err::<GetHeadRow, SyncError>(SyncError::NotFound)
            }),
    {
        let pi = match self.find_patch(self.head) {
            Some(i) => i,
            None => {
                return Err(SyncError::NotFound);
            },
        };
        let ci = match self.find_client(self.head.client_id) {
            Some(i) => i,
            None => {
                return Err(SyncError::NotFound);
            },
        };
        proof {
            lemma_patch_index_spec(self@.patches, self.head);
            lemma_client_index_spec(self@.clients, self.head.client_id);
        }
        Ok(GetHeadRow {
            head_client_id: self.head.client_id,
            head_session_id: self.head.session_id,
            head_patch_id: self.head.patch_id,
            created_at: self.patches[pi].created_at,
            name: self.clients[ci].name.clone(),
        })
    }

    /// Read up to `limit` pending rows for one consumer, each joined with
    /// its stored patch, in store order; a negative limit is refused, as the
    /// store's query planner would.
    pub fn get_pending_patches(&self, client_id: i64, limit: i64) -> (r: Result<
        Vec<GetPendingPatchesRow>,
        SyncError,
    >)
        ensures
            limit < 0 ==> r == Err::<Vec<GetPendingPatchesRow>, SyncError>(SyncError::InvalidLimit),
            limit >= 0 ==> (r matches Ok(rows) && row_views(rows@) == first_n(
                join_rows(self@.user_id, self@.patches, pending_for(self@.pending, client_id)),
                limit as int,
            )),
    {
        if limit < 0 {
            return Err(SyncError::InvalidLimit);
        }
        let mut out: Vec<GetPendingPatchesRow> = Vec::new();
        let n = self.pending.len();
        let mut i: usize = 0;
        while i < n
            invariant
                i <= n,
                n == self.pending@.len(),
                limit >= 0,
                ({
                    let joined = join_rows(
                        self@.user_id,
                        self@.patches,
                        pending_for(self@.pending.take(i as int), client_id),
                    );
                    &&& row_views(out@) == first_n(joined, limit as int)
                    &&& out@.len() == if joined.len() <= limit {
                        joined.len()
                    } else {
                        limit as nat
                    }
                }),
            decreases n - i,
        {
            let ghost rows0 = pending_for(self@.pending.take(i as int), client_id);
            let ghost joined0 = join_rows(self@.user_id, self@.patches, rows0);
            proof {
                assert(self@.pending.take(i + 1).drop_last() =~= self@.pending.take(i as int));
                assert(self@.pending.take(i + 1).last() == self@.pending[i as int]);
            }
            let q = self.pending[i];
            if q.consumer_client_id == client_id {
                let ghost rows1 = pending_for(self@.pending.take(i + 1), client_id);
                proof {
                    assert(rows1 =~= rows0.push(q));
                    assert(rows1.drop_last() =~= rows0);
                }
                let k = PatchKey {
                    client_id: q.producer_client_id,
                    session_id: q.producer_session_id,
                    patch_id: q.producer_patch_id,
                };
                assert(k == pending_key_of(q));
                let cnt = out.len();
                if (cnt as i64) < limit {
                    match self.find_patch(k) {
                        Some(idx) => {
                            proof {
                                lemma_patch_index_spec(self@.patches, k);
                            }
                            let p = &self.patches[idx];
                            out.push(GetPendingPatchesRow {
                                user_id: self.user_id.clone(),
                                client_id: p.client_id,
                                session_id: p.session_id,
                                patch_id: p.patch_id,
                                parent_client_id: p.parent_client_id,
                                parent_session_id: p.parent_session_id,
                                parent_patch_id: p.parent_patch_id,
                                patch: p.patch.clone(),
                                created_at: p.created_at,
                            });
                            assert(out@.last()@ == pull_row(
                                self@.user_id,
                                self@.patches[idx as int],
                            ));
                            assert(row_views(out@) =~= first_n(
                                join_rows(self@.user_id, self@.patches, rows1),
                                limit as int,
                            ));
                        },
                        None => {
                            assert(join_rows(self@.user_id, self@.patches, rows1) =~= joined0);
                        },
                    }
                } else {
                    proof {
                        let joined1 = join_rows(self@.user_id, self@.patches, rows1);
                        assert(joined1.len() >= joined0.len());
                        assert(first_n(joined1, limit as int) =~= first_n(joined0, limit as int));
                    }
                }
            } else {
                proof {
                    assert(pending_for(self@.pending.take(i + 1), client_id) =~= rows0);
                }
            }
            i += 1;
        }
        proof {
            assert(self@.pending.take(n as int) =~= self@.pending);
        }
        Ok(out)
    }

    /// Replace the head pointer unconditionally (last writer wins).
    pub fn update_head(&mut self, k: PatchKey)
        ensures
            final(self)@ == apply_set_head(old(self)@, k),
    {
        self.head = k;
        assert(self@ =~= apply_set_head(old(self)@, k));
    }

    /// Replace the head pointer only if it currently equals `prev`
    /// (compare-and-swap); report whether the write took effect.
    pub fn update_head_if_not_modified(&mut self, k: PatchKey, prev: PatchKey) -> (updated: bool)
        ensures
            old(self).head == prev ==> updated && final(self)@ == apply_set_head(old(self)@, k),
            old(self).head != prev ==> !updated && final(self)@ == old(self)@,
    {
        if self.head == prev {
            self.head = k;
            assert(self@ =~= apply_set_head(old(self)@, k));
            true
        } else {
            false
        }
    }
}

/// The whole persistent store: one [`UserStore`] per bootstrapped user.
#[derive(Debug)]
pub struct Store {
    pub users: Vec<UserStore>,
}

impl View for Store {
    type V = Seq<UserView>;

    open spec fn view(&self) -> Seq<UserView> {
        self.users@.map_values(|u: UserStore| u@)
    }
}

impl Store {
    /// An empty store, with no user bootstrapped yet.
    pub fn new() -> (r: Store)
        ensures
            r@ == Seq::<UserView>::empty(),
    {
        let r = Store { users: Vec::new() };
        assert(r@ =~= Seq::<UserView>::empty());
        r
    }

    /// First index of the user with id `user_id`, if any.
    fn find_user(&self, user_id: &String) -> (r: Option<usize>)
        ensures
            match r {
                Some(i) => user_index(self@, user_id@) == i as int,
                None => user_index(self@, user_id@) == -1,
            },
    {
        proof {
            lemma_user_index_spec(self@, user_id@);
        }
        let mut i: usize = 0;
        while i < self.users.len()
            invariant
                i <= self@.len(),
                self@.len() == self.users@.len(),
                forall|j: int| 0 <= j < i ==> self@[j].user_id != user_id@,
            decreases self.users@.len() - i,
        {
            if self.users[i].user_id == *user_id {
                assert(self@[i as int].user_id == user_id@);
                proof {
                    lemma_user_index_spec(self@, user_id@);
                }
                return Some(i);
            }
            assert(self@[i as int].user_id != user_id@);
            i += 1;
        }
        None
    }

    /// Create a user atomically with its head at the root key, its counter,
    /// its reserved system client and its root patch; a second bootstrap of
    /// the same user is refused.
    pub fn bootstrap_user(&mut self, user_id: &String, created_at: i64) -> (r: Result<
        (),
        SyncError,
    >)
        ensures
            user_index(old(self)@, user_id@) >= 0 ==> r == Err::<(), SyncError>(
                SyncError::AlreadyExists,
            ) && final(self)@ == old(self)@,
            user_index(old(self)@, user_id@) < 0 ==> r == Ok::<(), SyncError>(()) && final(self)@
                == old(self)@.push(bootstrap_view(user_id@, created_at)),
            store_wf(old(self)@) ==> store_wf(final(self)@),
    {
        if self.find_user(user_id).is_some() {
            return Err(SyncError::AlreadyExists);
        }
        proof {
            lemma_user_index_spec(self@, user_id@);
            if store_wf(self@) {
                lemma_store_bootstrap_wf(self@, user_id@, created_at);
            }
        }
        let mut u = UserStore {
            user_id: user_id.clone(),
            head: PatchKey { client_id: 0, session_id: 0, patch_id: 0 },
            seq_last_value: 0,
            clients: Vec::new(),
            patches: Vec::new(),
            pending: Vec::new(),
        };
        assert(u@.clients =~= Seq::<ClientView>::empty());
        assert(u@.patches =~= Seq::<PatchView>::empty());
        let created = u.create_client(0, "System".to_owned());
        assert(created is Ok);
        let ghost s1 = u@;
        let root = Patch {
            client_id: 0,
            session_id: 0,
            patch_id: 0,
            parent_client_id: 0,
            parent_session_id: 0,
            parent_patch_id: 0,
            patch: "[{\"op\":\"replace\",\"path\":\"\",\"value\":{\"data\":null}}]".to_owned(),
            created_at,
        };
        let batch = vec![root];
        u.create_patches_for_user(&batch);
        proof {
            let b = bootstrap_view(user_id@, created_at);
            let rootv = b.patches[0];
            let batchv = batch@.map_values(|p: Patch| p@);
            assert(batchv =~= seq![rootv]);
            assert(s1.clients =~= seq![ClientView { client_id: 0, name: "System"@ }]);
            assert(s1.patches =~= Seq::<PatchView>::empty());
            assert(s1.pending =~= Seq::<PendingPatch>::empty());
            assert(batchv.drop_last() =~= Seq::<PatchView>::empty());
            assert(push_batch(s1.patches, s1.pending, s1.clients, Seq::<PatchView>::empty())
                == (s1.patches, s1.pending));
            assert(batchv.last() == rootv);
            assert(patch_key_of(rootv) == root_key());
            assert(!contains_patch_key(s1.patches, root_key()));
            assert(s1.clients.drop_last() =~= Seq::<ClientView>::empty());
            assert(fanout(Seq::<ClientView>::empty(), root_key()) =~= Seq::<
                PendingPatch,
            >::empty());
            assert(!fanout_target(s1.clients.last(), 0));
            assert(fanout(s1.clients, root_key()) =~= Seq::<PendingPatch>::empty());
            assert(u@.clients =~= b.clients);
            assert(u@.patches =~= b.patches);
            assert(u@.pending =~= b.pending);
            assert(u@ =~= b);
        }
        self.users.push(u);
        assert(self@ =~= old(self)@.push(bootstrap_view(user_id@, created_at)));
        Ok(())
    }

    /// Create a client row for one user, together with its fan-in rows.
    pub fn create_client(&mut self, user_id: &String, client_id: i64, name: String) -> (r: Result<
        (),
        SyncError,
    >)
        ensures
            ({
                let ui = user_index(old(self)@, user_id@);
                &&& ui < 0 ==> r == Err::<(), SyncError>(SyncError::NotFound) && final(self)@
                    == old(self)@
                &&& ui >= 0 ==> (if contains_client_id(old(self)@[ui].clients, client_id) {
                    r == Err::<(), SyncError>(SyncError::AlreadyExists) && final(self)@ == old(
                        self,
                    )@
                } else {
                    r == Ok::<(), SyncError>(()) && final(self)@ == old(self)@.update(
                        ui,
                        apply_create_client(old(self)@[ui], client_id, name@),
                    )
                })
            }),
            (store_wf(old(self)@) && ({
                let ui = user_index(old(self)@, user_id@);
                ui >= 0 ==> client_id <= old(self)@[ui].seq_last_value
            })) ==> store_wf(final(self)@),
    {
        let i = match self.find_user(user_id) {
            Some(i) => i,
            None => {
                return Err(SyncError::NotFound);
            },
        };
        proof {
            lemma_user_index_spec(self@, user_id@);
        }
        let ghost nv = name@;
        let u = &mut self.users[i];
        let r = u.create_client(client_id, name);
        proof {
            if contains_client_id(old(self)@[i as int].clients, client_id) {
                assert(self@ =~= old(self)@);
            } else {
                assert(self@ =~= old(self)@.update(
                    i as int,
                    apply_create_client(old(self)@[i as int], client_id, nv),
                ));
                if store_wf(old(self)@) && client_id <= old(self)@[i as int].seq_last_value {
                    lemma_create_client_wf(old(self)@[i as int], client_id, nv);
                    lemma_store_update_wf(
                        old(self)@,
                        i as int,
                        apply_create_client(old(self)@[i as int], client_id, nv),
                    );
                }
            }
        }
        r
    }

    /// Allocate a fresh client id for one user and create the client row
    /// with its fan-in rows, as one all-or-nothing unit.
    pub fn register_client(&mut self, user_id: &String, name: String) -> (r: Result<
        i64,
        SyncError,
    >)
        ensures
            ({
                let ui = user_index(old(self)@, user_id@);
                &&& ui < 0 ==> r == Err::<i64, SyncError>(SyncError::NotFound) && final(self)@
                    == old(self)@
                &&& ui >= 0 ==> ({
                    let u = old(self)@[ui];
                    &&& u.seq_last_value == i64::MAX ==> r == Err::<i64, SyncError>(
                        SyncError::SeqExhausted,
                    ) && final(self)@ == old(self)@
                    &&& u.seq_last_value != i64::MAX ==> ({
                        let cid = (u.seq_last_value + 1) as i64;
                        &&& contains_client_id(u.clients, cid) ==> r == Err::<i64, SyncError>(
                            SyncError::AlreadyExists,
                        ) && final(self)@ == old(self)@
                        &&& !contains_client_id(u.clients, cid) ==> r == Ok::<i64, SyncError>(cid)
                            && final(self)@ == old(self)@.update(
                            ui,
                            apply_create_client(apply_seq_value(u, cid), cid, name@),
                        )
                    })
                })
            }),
            store_wf(old(self)@) ==> store_wf(final(self)@),
    {
        let i = match self.find_user(user_id) {
            Some(i) => i,
            None => {
                return Err(SyncError::NotFound);
            },
        };
        proof {
            lemma_user_index_spec(self@, user_id@);
        }
        let ghost nv = name@;
        let u = &mut self.users[i];
        let ghost uv = u@;
        let r = u.register_client(name);
        proof {
            if uv.seq_last_value != i64::MAX && !contains_client_id(
                uv.clients,
                (uv.seq_last_value + 1) as i64,
            ) {
                assert(self@ =~= old(self)@.update(
                    i as int,
                    apply_create_client(
                        apply_seq_value(old(self)@[i as int], (uv.seq_last_value + 1) as i64),
                        (uv.seq_last_value + 1) as i64,
                        nv,
                    ),
                ));
                if store_wf(old(self)@) {
                    lemma_register_wf(old(self)@[i as int], nv);
                    lemma_store_update_wf(
                        old(self)@,
                        i as int,
                        apply_create_client(
                            apply_seq_value(old(self)@[i as int], (uv.seq_last_value + 1) as i64),
                            (uv.seq_last_value + 1) as i64,
                            nv,
                        ),
                    );
                }
            } else {
                assert(self@ =~= old(self)@);
            }
        }
        r
    }

    /// Move one user's client-id counter by `delta` and report the new
    /// value.
    pub fn update_last_seq_value(&mut self, user_id: &String, delta: i64) -> (r: Result<
        UpdateLastSeqValueRow,
        SyncError,
    >)
        ensures
            ({
                let ui = user_index(old(self)@, user_id@);
                &&& ui < 0 ==> r == Err::<UpdateLastSeqValueRow, SyncError>(SyncError::NotFound)
                    && final(self)@ == old(self)@
                &&& ui >= 0 ==> (if i64::MIN <= old(self)@[ui].seq_last_value + delta
                    <= i64::MAX {
                    r == Ok::<UpdateLastSeqValueRow, SyncError>(
                        UpdateLastSeqValueRow {
                            last_value: (old(self)@[ui].seq_last_value + delta) as i64,
                        },
                    ) && final(self)@ == old(self)@.update(
                        ui,
                        apply_seq_value(
                            old(self)@[ui],
                            (old(self)@[ui].seq_last_value + delta) as i64,
                        ),
                    )
                } else {
                    r == Err::<UpdateLastSeqValueRow, SyncError>(SyncError::SeqExhausted)
                        && final(self)@ == old(self)@
                })
            }),
            (store_wf(old(self)@) && delta >= 0) ==> store_wf(final(self)@),
    {
        let i = match self.find_user(user_id) {
            Some(i) => i,
            None => {
                return Err(SyncError::NotFound);
            },
        };
        proof {
            lemma_user_index_spec(self@, user_id@);
        }
        let u = &mut self.users[i];
        let ghost uv = u@;
        let r = u.update_last_seq_value(delta);
        proof {
            if i64::MIN <= uv.seq_last_value + delta <= i64::MAX {
                assert(self@ =~= old(self)@.update(
                    i as int,
                    apply_seq_value(old(self)@[i as int], (uv.seq_last_value + delta) as i64),
                ));
                if store_wf(old(self)@) && delta >= 0 {
                    lemma_seq_value_wf(
                        old(self)@[i as int],
                        (uv.seq_last_value + delta) as i64,
                    );
                    lemma_store_update_wf(
                        old(self)@,
                        i as int,
                        apply_seq_value(old(self)@[i as int], (uv.seq_last_value + delta) as i64),
                    );
                }
            } else {
                assert(self@ =~= old(self)@);
            }
        }
        r
    }

    /// Insert a batch of patches for one user, each as an independent
    /// idempotent unit.
    pub fn create_patches_for_user(&mut self, user_id: &String, patches: &Vec<Patch>) -> (r:
        Result<(), SyncError>)
        ensures
            ({
                let ui = user_index(old(self)@, user_id@);
                &&& ui < 0 ==> r == Err::<(), SyncError>(SyncError::NotFound) && final(self)@
                    == old(self)@
                &&& ui >= 0 ==> r == Ok::<(), SyncError>(()) && final(self)@ == old(self)@.update(
                    ui,
                    apply_push_batch(old(self)@[ui], patch_views(patches@)),
                )
            }),
            store_wf(old(self)@) ==> store_wf(final(self)@),
    {
        let i = match self.find_user(user_id) {
            Some(i) => i,
            None => {
                return Err(SyncError::NotFound);
            },
        };
        proof {
            lemma_user_index_spec(self@, user_id@);
        }
        let u = &mut self.users[i];
        u.create_patches_for_user(patches);
        proof {
            assert(self@ =~= old(self)@.update(
                i as int,
                apply_push_batch(old(self)@[i as int], patch_views(patches@)),
            ));
            if store_wf(old(self)@) {
                lemma_push_batch_wf(old(self)@[i as int], patch_views(patches@));
                lemma_store_update_wf(
                    old(self)@,
                    i as int,
                    apply_push_batch(old(self)@[i as int], patch_views(patches@)),
                );
            }
        }
        Ok(())
    }

    /// Read up to `limit` pending rows for one consumer of one user; an
    /// unknown user simply has none, and a negative limit is refused.
    pub fn get_pending_patches(&self, user_id: &String, client_id: i64, limit: i64) -> (r: Result<
        Vec<GetPendingPatchesRow>,
        SyncError,
    >)
        ensures
            limit < 0 ==> r == Err::<Vec<GetPendingPatchesRow>, SyncError>(SyncError::InvalidLimit),
            limit >= 0 ==> ({
                let ui = user_index(self@, user_id@);
                &&& ui < 0 ==> (r matches Ok(rows) && row_views(rows@) == Seq::<
                    PendingRowView,
                >::empty())
                &&& ui >= 0 ==> (r matches Ok(rows) && row_views(rows@) == first_n(
                    join_rows(
                        self@[ui].user_id,
                        self@[ui].patches,
                        pending_for(self@[ui].pending, client_id),
                    ),
                    limit as int,
                ))
            }),
    {
        if limit < 0 {
            return Err(SyncError::InvalidLimit);
        }
        let i = match self.find_user(user_id) {
            Some(i) => i,
            None => {
                let rows: Vec<GetPendingPatchesRow> = Vec::new();
                assert(row_views(rows@) =~= Seq::<PendingRowView>::empty());
                return Ok(rows);
            },
        };
        proof {
            lemma_user_index_spec(self@, user_id@);
        }
        self.users[i].get_pending_patches(client_id, limit)
    }

    /// Acknowledge a batch of patch keys for one consumer of one user;
    /// absent keys, and an unknown user, are silent no-ops.
    pub fn delete_pending_patches(
        &mut self,
        user_id: &String,
        client_id: i64,
        patch_keys: &Vec<PatchKey>,
    )
        ensures
            ({
                let ui = user_index(old(self)@, user_id@);
                &&& ui < 0 ==> final(self)@ == old(self)@
                &&& ui >= 0 ==> final(self)@ == old(self)@.update(
                    ui,
                    apply_ack(old(self)@[ui], client_id, patch_keys@),
                )
            }),
            store_wf(old(self)@) ==> store_wf(final(self)@),
    {
        let i = match self.find_user(user_id) {
            Some(i) => i,
            None => {
                return ;
            },
        };
        proof {
            lemma_user_index_spec(self@, user_id@);
        }
        let u = &mut self.users[i];
        u.delete_pending_patches(client_id, patch_keys);
        proof {
            assert(self@ =~= old(self)@.update(
                i as int,
                apply_ack(old(self)@[i as int], client_id, patch_keys@),
            ));
            if store_wf(old(self)@) {
                lemma_ack_wf(old(self)@[i as int], client_id, patch_keys@);
                lemma_store_update_wf(
                    old(self)@,
                    i as int,
                    apply_ack(old(self)@[i as int], client_id, patch_keys@),
                );
            }
        }
    }

    /// Read one user's head, joined with the referenced patch's creation
    /// time and the producing client's display name.
    pub fn get_head(&self, user_id: &String) -> (r: Result<GetHeadRow, SyncError>)
        ensures
            ({
                let ui = user_index(self@, user_id@);
                &&& ui < 0 ==> r == Err::<GetHeadRow, SyncError>(SyncError::NotFound)
                &&& ui >= 0 ==> ({
                    let u = self@[ui];
                    let pi = patch_index(u.patches, u.head);
                    let ci = client_index(u.clients, u.head.client_id);
                    &&& (pi >= 0 && ci >= 0) ==> (r matches Ok(row) && row@ == (HeadRowView {
                        head_client_id: u.head.client_id,
                        head_session_id: u.head.session_id,
                        head_patch_id: u.head.patch_id,
                        created_at: u.patches[pi].created_at,
                        name: u.clients[ci].name,
                    }))
                    &&& !(pi >= 0 && ci >= 0) ==> r == Err::<GetHeadRow, SyncError>(
                        SyncError::NotFound,
                    )
                })
            }),
    {
        let i = match self.find_user(user_id) {
            Some(i) => i,
            None => {
                return Err(SyncError::NotFound);
            },
        };
        proof {
            lemma_user_index_spec(self@, user_id@);
        }
        self.users[i].get_head()
    }

    /// Replace one user's head unconditionally; an unknown user changes
    /// nothing.
    pub fn update_head(&mut self, user_id: &String, k: PatchKey)
        ensures
            ({
                let ui = user_index(old(self)@, user_id@);
                &&& ui < 0 ==> final(self)@ == old(self)@
                &&& ui >= 0 ==> final(self)@ == old(self)@.update(
                    ui,
                    apply_set_head(old(self)@[ui], k),
                )
            }),
            store_wf(old(self)@) ==> store_wf(final(self)@),
    {
        let i = match self.find_user(user_id) {
            Some(i) => i,
            None => {
                return ;
            },
        };
        proof {
            lemma_user_index_spec(self@, user_id@);
        }
        let u = &mut self.users[i];
        u.update_head(k);
        proof {
            assert(self@ =~= old(self)@.update(i as int, apply_set_head(old(self)@[i as int], k)));
            if store_wf(old(self)@) {
                assert(user_wf(apply_set_head(old(self)@[i as int], k)));
                lemma_store_update_wf(
                    old(self)@,
                    i as int,
                    apply_set_head(old(self)@[i as int], k),
                );
            }
        }
    }

    /// Compare-and-swap one user's head: replace it only if it currently
    /// equals `prev`, and report whether the write took effect.
    pub fn update_head_if_not_modified(
        &mut self,
        user_id: &String,
        k: PatchKey,
        prev: PatchKey,
    ) -> (updated: bool)
        ensures
            ({
                let ui = user_index(old(self)@, user_id@);
                &&& ui < 0 ==> !updated && final(self)@ == old(self)@
                &&& ui >= 0 ==> (if old(self)@[ui].head == prev {
                    updated && final(self)@ == old(self)@.update(
                        ui,
                        apply_set_head(old(self)@[ui], k),
                    )
                } else {
                    !updated && final(self)@ == old(self)@
                })
            }),
            store_wf(old(self)@) ==> store_wf(final(self)@),
    {
        let i = match self.find_user(user_id) {
            Some(i) => i,
            None => {
                return false;
            },
        };
        proof {
            lemma_user_index_spec(self@, user_id@);
        }
        let u = &mut self.users[i];
        let updated = u.update_head_if_not_modified(k, prev);
        proof {
            if old(self)@[i as int].head == prev {
                assert(self@ =~= old(self)@.update(
                    i as int,
                    apply_set_head(old(self)@[i as int], k),
                ));
                if store_wf(old(self)@) {
                    assert(user_wf(apply_set_head(old(self)@[i as int], k)));
                    lemma_store_update_wf(
                        old(self)@,
                        i as int,
                        apply_set_head(old(self)@[i as int], k),
                    );
                }
            } else {
                assert(self@ =~= old(self)@);
            }
        }
        updated
    }
}

} // verus!
