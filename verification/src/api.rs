//! Wire types of the synchronization API and the verified request handlers:
//! every operation checks the resolved principal against the path-scoped
//! user before touching the store, then delegates to the store model.

use vstd::prelude::*;

use crate::clock;
use crate::errors::ErrorStatus;
use crate::model::{
    apply_ack, apply_create_client, apply_push_batch, apply_seq_value, apply_set_head,
    bootstrap_view, client_index, contains_client_id, first_n, lemma_user_index_spec,
    patch_index, patch_views, pending_for, store_wf, user_index, PatchKey, PatchView,
};
use crate::store::{
    join_rows, row_views, GetPendingPatchesRow, PendingRowView, Store,
};

verus! {

/// Trusted principal identity, resolved outside the engine from a bearer
/// token.
#[derive(Debug)]
pub struct IdToken {
    pub user_id: String,
}

impl IdToken {
    /// Reject, before any store access, an operation whose path-scoped user
    /// differs from the resolved principal.
    pub fn authorize(&self, user_id: &String) -> (r: Result<(), ErrorStatus>)
        ensures
            self.user_id@ == user_id@ ==> r == Ok::<(), ErrorStatus>(()),
            self.user_id@ != user_id@ ==> r == Err::<(), ErrorStatus>(ErrorStatus::Status400),
    {
        if self.user_id == *user_id {
            Ok(())
        } else {
            Err(ErrorStatus::Status400)
        }
    }
}

/// One patch as it crosses the wire: its key, its parent's key, its creation
/// time and its opaque payload.
#[derive(Debug)]
pub struct Patch {
    pub patch_key: PatchKey,
    pub parent_patch_key: PatchKey,
    pub created_at: i64,
    pub patch: String,
}

/// Mathematical value of a wire [`Patch`].
#[verifier::ext_equal]
pub struct PatchWireView {
    pub patch_key: PatchKey,
    pub parent_patch_key: PatchKey,
    pub created_at: i64,
    pub patch: Seq<char>,
}

impl View for Patch {
    type V = PatchWireView;

    open spec fn view(&self) -> PatchWireView {
        PatchWireView {
            patch_key: self.patch_key,
            parent_patch_key: self.parent_patch_key,
            created_at: self.created_at,
            patch: self.patch@,
        }
    }
}

/// The mathematical values of a sequence of wire patches.
pub open spec fn wire_views(ps: Seq<Patch>) -> Seq<PatchWireView> {
    ps.map_values(|p: Patch| p@)
}

/// The stored patch described by a wire patch.
pub open spec fn patch_of_wire(w: PatchWireView) -> PatchView {
    PatchView {
        client_id: w.patch_key.client_id,
        session_id: w.patch_key.session_id,
        patch_id: w.patch_key.patch_id,
        parent_client_id: w.parent_patch_key.client_id,
        parent_session_id: w.parent_patch_key.session_id,
        parent_patch_id: w.parent_patch_key.patch_id,
        patch: w.patch,
        created_at: w.created_at,
    }
}

/// The wire patch describing a joined pending row.
pub open spec fn wire_of_row(v: PendingRowView) -> PatchWireView {
    PatchWireView {
        patch_key: PatchKey {
            client_id: v.client_id,
            session_id: v.session_id,
            patch_id: v.patch_id,
        },
        parent_patch_key: PatchKey {
            client_id: v.parent_client_id,
            session_id: v.parent_session_id,
            patch_id: v.parent_patch_id,
        },
        created_at: v.created_at,
        patch: v.patch,
    }
}

#[derive(Debug)]
pub struct SysHealthResponse {
    pub status: String,
}

#[derive(Debug)]
pub struct FakeIdpCreateUserRequest {
    pub name: String,
}

#[derive(Debug)]
pub struct FakeIdpCreateUserResponse {
    pub id_token: IdToken,
}

#[derive(Debug)]
pub struct FakeIdpCreateIdTokenRequest {
    pub name: String,
}

#[derive(Debug)]
pub struct FakeIdpCreateIdTokenResponse {
    pub id_token: IdToken,
}

#[derive(Debug, PartialEq, Eq, Structural)]
pub struct CreateUserRequest {}

#[derive(Debug, PartialEq, Eq, Structural)]
pub struct CreateUserResponse {}

#[derive(Debug)]
pub struct CreateClientRequest {
    pub name: String,
}

#[derive(Debug, PartialEq, Eq, Structural)]
pub struct CreateClientResponse {
    pub client_id: i64,
}

#[derive(Debug)]
pub struct GetPendingPatchesResponse {
    pub patches: Vec<Patch>,
}

impl View for GetPendingPatchesResponse {
    type V = Seq<PatchWireView>;

    open spec fn view(&self) -> Seq<PatchWireView> {
        wire_views(self.patches@)
    }
}

#[derive(Debug)]
pub struct DeletePendingPatchesRequest {
    pub patch_keys: Vec<PatchKey>,
}

#[derive(Debug, PartialEq, Eq, Structural)]
pub struct DeletePendingPatchesResponse {}

#[derive(Debug)]
pub struct CreatePatchesRequest {
    pub patches: Vec<Patch>,
}

#[derive(Debug, PartialEq, Eq, Structural)]
pub struct CreatePatchesResponse {}

#[derive(Debug)]
pub struct GetHeadResponse {
    pub client_id: i64,
    pub session_id: i64,
    pub patch_id: i64,
    pub created_at: i64,
    pub name: String,
}

/// Mathematical value of a [`GetHeadResponse`].
#[verifier::ext_equal]
pub struct GetHeadResponseView {
    pub client_id: i64,
    pub session_id: i64,
    pub patch_id: i64,
    pub created_at: i64,
    pub name: Seq<char>,
}

impl View for GetHeadResponse {
    type V = GetHeadResponseView;

    open spec fn view(&self) -> GetHeadResponseView {
        GetHeadResponseView {
            client_id: self.client_id,
            session_id: self.session_id,
            patch_id: self.patch_id,
            created_at: self.created_at,
            name: self.name@,
        }
    }
}

#[derive(Debug)]
pub struct UpdateHeadRequest {
    pub patch_key: PatchKey,
    pub header_if_match: Option<PatchKey>,
}

#[derive(Debug, PartialEq, Eq, Structural)]
pub struct UpdateHeadResponse {
    pub updated: bool,
}

#[derive(Debug)]
pub enum SysHealthGet {
    S200(SysHealthResponse),
}

#[derive(Debug)]
pub enum FakeIdpUsersPost {
    S201(FakeIdpCreateUserResponse),
}

#[derive(Debug)]
pub enum FakeIdpLoginIdTokenPost {
    S200(FakeIdpCreateIdTokenResponse),
}

#[derive(Debug, PartialEq, Eq, Structural)]
pub enum UsersPost {
    S201(CreateUserResponse),
}

#[derive(Debug)]
pub struct UsersUserIdClientsPostPath {
    pub user_id: String,
}

#[derive(Debug, PartialEq, Eq, Structural)]
pub enum UsersUserIdClientsPost {
    S201(CreateClientResponse),
}

#[derive(Debug)]
pub struct UsersUserIdPatchesBatchPostPath {
    pub user_id: String,
}

#[derive(Debug, PartialEq, Eq, Structural)]
pub enum UsersUserIdPatchesBatchPost {
    S201(CreatePatchesResponse),
}

#[derive(Debug)]
pub struct UsersUserIdClientsClientIdPendingPatchesGetPath {
    pub user_id: String,
    pub client_id: i64,
}

#[derive(Debug, PartialEq, Eq, Structural)]
pub struct UsersUserIdClientsClientIdPendingPatchesGetQuery {
    pub limit: i64,
}

#[derive(Debug)]
pub enum UsersUserIdClientsClientIdPendingPatchesGet {
    S200(GetPendingPatchesResponse),
}

#[derive(Debug)]
pub struct UsersUserIdClientsClientIdPendingPatchesBatchDeletePath {
    pub user_id: String,
    pub client_id: i64,
}

#[derive(Debug, PartialEq, Eq, Structural)]
pub enum UsersUserIdClientsClientIdPendingPatchesBatchDelete {
    S200(DeletePendingPatchesResponse),
}

#[derive(Debug)]
pub struct UsersUserIdHeadGetPath {
    pub user_id: String,
}

#[derive(Debug)]
pub enum UsersUserIdHeadGet {
    S200(GetHeadResponse),
}

#[derive(Debug)]
pub struct UsersUserIdHeadPutPath {
    pub user_id: String,
}

#[derive(Debug, PartialEq, Eq, Structural)]
pub enum UsersUserIdHeadPut {
    S200(UpdateHeadResponse),
}

/// Health probe response; the storage ping around it is transport work.
pub fn sys_health_get() -> (r: SysHealthGet)
    ensures
        r matches SysHealthGet::S200(b) && b.status@ == "ok"@,
{
    SysHealthGet::S200(SysHealthResponse { status: "ok".to_owned() })
}

/// Bootstrap the principal's own user: the user row, its counter, the
/// reserved system client and the root patch, as one unit of work.
pub fn users_post(store: &mut Store, token: &IdToken, _body: CreateUserRequest) -> (r: Result<
    UsersPost,
    ErrorStatus,
>)
    ensures
        user_index(old(store)@, token.user_id@) >= 0 ==> r == Err::<UsersPost, ErrorStatus>(
            ErrorStatus::Status500,
        ) && final(store)@ == old(store)@,
        user_index(old(store)@, token.user_id@) < 0 ==> r == Ok::<UsersPost, ErrorStatus>(
            UsersPost::S201(CreateUserResponse {  }),
        ) && (exists|t: i64|
            final(store)@ == old(store)@.push(bootstrap_view(token.user_id@, t))),
        store_wf(old(store)@) ==> store_wf(final(store)@),
{
    let created_at = clock::now_millis();
    match store.bootstrap_user(&token.user_id, created_at) {
        Ok(()) => {
            assert(final(store)@ == old(store)@.push(bootstrap_view(token.user_id@, created_at)));
            Ok(UsersPost::S201(CreateUserResponse {  }))
        },
        Err(e) => Err(ErrorStatus::from_sync(&e)),
    }
}

/// Register a device for a user: authorize, then allocate the next client id
/// and create the client with its fan-in rows.
pub fn users_user_id_clients_post(
    store: &mut Store,
    token: &IdToken,
    path: &UsersUserIdClientsPostPath,
    body: CreateClientRequest,
) -> (r: Result<UsersUserIdClientsPost, ErrorStatus>)
    ensures
        token.user_id@ != path.user_id@ ==> r == Err::<UsersUserIdClientsPost, ErrorStatus>(
            ErrorStatus::Status400,
        ) && final(store)@ == old(store)@,
        token.user_id@ == path.user_id@ ==> ({
            let ui = user_index(old(store)@, path.user_id@);
            &&& ui < 0 ==> r == Err::<UsersUserIdClientsPost, ErrorStatus>(ErrorStatus::Status500)
                && final(store)@ == old(store)@
            &&& ui >= 0 ==> ({
                let u = old(store)@[ui];
                &&& (u.seq_last_value != i64::MAX && !contains_client_id(
                    u.clients,
                    (u.seq_last_value + 1) as i64,
                )) ==> r == Ok::<UsersUserIdClientsPost, ErrorStatus>(
                    UsersUserIdClientsPost::S201(
                        CreateClientResponse { client_id: (u.seq_last_value + 1) as i64 },
                    ),
                ) && final(store)@ == old(store)@.update(
                    ui,
                    apply_create_client(
                        apply_seq_value(u, (u.seq_last_value + 1) as i64),
                        (u.seq_last_value + 1) as i64,
                        body.name@,
                    ),
                )
                &&& !(u.seq_last_value != i64::MAX && !contains_client_id(
                    u.clients,
                    (u.seq_last_value + 1) as i64,
                )) ==> r == Err::<UsersUserIdClientsPost, ErrorStatus>(ErrorStatus::Status500)
                    && final(store)@ == old(store)@
            })
        }),
        store_wf(old(store)@) ==> store_wf(final(store)@),
{
    if let Err(e) = token.authorize(&path.user_id) {
        return Err(e);
    }
    match store.register_client(&path.user_id, body.name) {
        Ok(client_id) => Ok(UsersUserIdClientsPost::S201(CreateClientResponse { client_id })),
        Err(e) => Err(ErrorStatus::from_sync(&e)),
    }
}

/// The store patches described by a batch of wire patches, in order.
pub open spec fn patches_of_wires(ws: Seq<PatchWireView>) -> Seq<PatchView> {
    ws.map_values(|w: PatchWireView| patch_of_wire(w))
}

/// The wire patches describing a sequence of joined pending rows, in order.
pub open spec fn wires_of_rows(vs: Seq<PendingRowView>) -> Seq<PatchWireView> {
    vs.map_values(|v: PendingRowView| wire_of_row(v))
}

/// Convert a batch of wire patches into store patch records.
fn to_store_patches(patches: &Vec<Patch>) -> (r: Vec<crate::model::Patch>)
    ensures
        patch_views(r@) == patches_of_wires(wire_views(patches@)),
{
    let ghost wires = wire_views(patches@);
    let mut out: Vec<crate::model::Patch> = Vec::new();
    let n = patches.len();
    let mut i: usize = 0;
    while i < n
        invariant
            i <= n,
            n == patches@.len(),
            wires == wire_views(patches@),
            patch_views(out@) == patches_of_wires(wires.take(i as int)),
        decreases n - i,
    {
        let ghost out0 = out@;
        assert(patch_views(out0) == patches_of_wires(wires.take(i as int)));
        assert(patch_views(out0).len() == out0.len());
        assert(patches_of_wires(wires.take(i as int)).len() == wires.take(i as int).len());
        let w = &patches[i];
        out.push(crate::model::Patch {
            client_id: w.patch_key.client_id,
            session_id: w.patch_key.session_id,
            patch_id: w.patch_key.patch_id,
            parent_client_id: w.parent_patch_key.client_id,
            parent_session_id: w.parent_patch_key.session_id,
            parent_patch_id: w.parent_patch_key.patch_id,
            patch: w.patch.clone(),
            created_at: w.created_at,
        });
        assert(out@.last()@ == patch_of_wire(wires[i as int]));
        proof {
            let w1 = wires.take(i + 1);
            assert(out@ == out0.push(out@.last()));
            assert(out0.len() == i as int);
            assert(out@.len() == i + 1);
            assert(patch_views(out@).len() == i + 1);
            assert(patches_of_wires(w1).len() == i + 1);
            assert forall|j: int| 0 <= j < i + 1 implies patch_views(out@)[j] == patches_of_wires(
                w1,
            )[j] by {
                assert(w1[j] == wires[j]);
                assert(patches_of_wires(w1)[j] == patch_of_wire(wires[j]));
                assert(patch_views(out@)[j] == out@[j]@);
                if j < i {
                    assert(out@[j] == out0[j]);
                    assert(patch_views(out0)[j] == patches_of_wires(wires.take(i as int))[j]);
                    assert(wires.take(i as int)[j] == wires[j]);
                } else {
                    assert(out@[j] == out@.last());
                }
            }
            assert(patch_views(out@) =~= patches_of_wires(w1));
        }
        i += 1;
    }
    proof {
        assert(wires.take(n as int) =~= wires);
    }
    out
}

/// Push a batch of patches for a user: authorize, then insert each patch as
/// an independent idempotent unit with its fan-out rows.
pub fn users_user_id_patches_batch_post(
    store: &mut Store,
    token: &IdToken,
    path: &UsersUserIdPatchesBatchPostPath,
    body: CreatePatchesRequest,
) -> (r: Result<UsersUserIdPatchesBatchPost, ErrorStatus>)
    ensures
        token.user_id@ != path.user_id@ ==> r == Err::<UsersUserIdPatchesBatchPost, ErrorStatus>(
            ErrorStatus::Status400,
        ) && final(store)@ == old(store)@,
        token.user_id@ == path.user_id@ ==> ({
            let ui = user_index(old(store)@, path.user_id@);
            &&& ui < 0 ==> r == Err::<UsersUserIdPatchesBatchPost, ErrorStatus>(
                ErrorStatus::Status500,
            ) && final(store)@ == old(store)@
            &&& ui >= 0 ==> r == Ok::<UsersUserIdPatchesBatchPost, ErrorStatus>(
                UsersUserIdPatchesBatchPost::S201(CreatePatchesResponse {  }),
            ) && final(store)@ == old(store)@.update(
                ui,
                apply_push_batch(old(store)@[ui], patches_of_wires(wire_views(body.patches@))),
            )
        }),
        store_wf(old(store)@) ==> store_wf(final(store)@),
{
    if let Err(e) = token.authorize(&path.user_id) {
        return Err(e);
    }
    let records = to_store_patches(&body.patches);
    match store.create_patches_for_user(&path.user_id, &records) {
        Ok(()) => Ok(UsersUserIdPatchesBatchPost::S201(CreatePatchesResponse {  })),
        Err(e) => Err(ErrorStatus::from_sync(&e)),
    }
}

/// Read up to `limit` pending patches for one consumer: authorize, then
/// return the joined rows in unspecified storage order.
pub fn users_user_id_clients_client_id_pending_patches_get(
    store: &Store,
    token: &IdToken,
    path: &UsersUserIdClientsClientIdPendingPatchesGetPath,
    query: &UsersUserIdClientsClientIdPendingPatchesGetQuery,
) -> (r: Result<UsersUserIdClientsClientIdPendingPatchesGet, ErrorStatus>)
    ensures
        token.user_id@ != path.user_id@ ==> r == Err::<
            UsersUserIdClientsClientIdPendingPatchesGet,
            ErrorStatus,
        >(ErrorStatus::Status400),
        token.user_id@ == path.user_id@ && query.limit < 0 ==> r == Err::<
            UsersUserIdClientsClientIdPendingPatchesGet,
            ErrorStatus,
        >(ErrorStatus::Status500),
        token.user_id@ == path.user_id@ && query.limit >= 0 ==> ({
            let ui = user_index(store@, path.user_id@);
            &&& ui < 0 ==> (r matches Ok(UsersUserIdClientsClientIdPendingPatchesGet::S200(resp))
                && resp@ == Seq::<PatchWireView>::empty())
            &&& ui >= 0 ==> (r matches Ok(UsersUserIdClientsClientIdPendingPatchesGet::S200(resp))
                && resp@ == wires_of_rows(
                first_n(
                    join_rows(
                        store@[ui].user_id,
                        store@[ui].patches,
                        pending_for(store@[ui].pending, path.client_id),
                    ),
                    query.limit as int,
                ),
            ))
        }),
{
    if let Err(e) = token.authorize(&path.user_id) {
        return Err(e);
    }
    let rows = match store.get_pending_patches(&path.user_id, path.client_id, query.limit) {
        Ok(rows) => rows,
        Err(e) => {
            return Err(ErrorStatus::from_sync(&e));
        },
    };
    let ghost rowviews = row_views(rows@);
    let mut patches: Vec<Patch> = Vec::new();
    let n = rows.len();
    let mut i: usize = 0;
    while i < n
        invariant
            i <= n,
            n == rows@.len(),
            rowviews == row_views(rows@),
            wire_views(patches@) == wires_of_rows(rowviews.take(i as int)),
        decreases n - i,
    {
        let ghost p0 = patches@;
        assert(wire_views(p0) == wires_of_rows(rowviews.take(i as int)));
        assert(wire_views(p0).len() == p0.len());
        assert(wires_of_rows(rowviews.take(i as int)).len() == rowviews.take(i as int).len());
        let row = &rows[i];
        patches.push(Patch {
            patch_key: PatchKey {
                client_id: row.client_id,
                session_id: row.session_id,
                patch_id: row.patch_id,
            },
            parent_patch_key: PatchKey {
                client_id: row.parent_client_id,
                session_id: row.parent_session_id,
                patch_id: row.parent_patch_id,
            },
            created_at: row.created_at,
            patch: row.patch.clone(),
        });
        assert(patches@.last()@ == wire_of_row(rowviews[i as int]));
        proof {
            let r1 = rowviews.take(i + 1);
            assert(patches@ == p0.push(patches@.last()));
            assert forall|j: int| 0 <= j < i + 1 implies wire_views(patches@)[j] == wires_of_rows(
                r1,
            )[j] by {
                assert(r1[j] == rowviews[j]);
                assert(wires_of_rows(r1)[j] == wire_of_row(rowviews[j]));
                assert(wire_views(patches@)[j] == patches@[j]@);
                if j < i {
                    assert(patches@[j] == p0[j]);
                    assert(wire_views(p0)[j] == wires_of_rows(rowviews.take(i as int))[j]);
                    assert(rowviews.take(i as int)[j] == rowviews[j]);
                } else {
                    assert(patches@[j] == patches@.last());
                }
            }
            assert(wire_views(patches@) =~= wires_of_rows(r1));
        }
        i += 1;
    }
    proof {
        assert(rowviews.take(n as int) =~= rowviews);
    }
    let resp = GetPendingPatchesResponse { patches };
    proof {
        let ui = user_index(store@, path.user_id@);
        if ui >= 0 {
            lemma_user_index_spec(store@, path.user_id@);
            assert(resp@ =~= wires_of_rows(
                first_n(
                    join_rows(
                        store@[ui].user_id,
                        store@[ui].patches,
                        pending_for(store@[ui].pending, path.client_id),
                    ),
                    query.limit as int,
                ),
            ));
        } else {
            assert(resp@ =~= Seq::<PatchWireView>::empty());
        }
    }
    Ok(UsersUserIdClientsClientIdPendingPatchesGet::S200(resp))
}

/// Acknowledge pending patches for one consumer: authorize, then delete the
/// named rows; absent keys are silent no-ops.
pub fn users_user_id_clients_client_id_pending_patches_batch_delete(
    store: &mut Store,
    token: &IdToken,
    path: &UsersUserIdClientsClientIdPendingPatchesBatchDeletePath,
    body: DeletePendingPatchesRequest,
) -> (r: Result<UsersUserIdClientsClientIdPendingPatchesBatchDelete, ErrorStatus>)
    ensures
        token.user_id@ != path.user_id@ ==> r == Err::<
            UsersUserIdClientsClientIdPendingPatchesBatchDelete,
            ErrorStatus,
        >(ErrorStatus::Status400) && final(store)@ == old(store)@,
        token.user_id@ == path.user_id@ ==> ({
            let ui = user_index(old(store)@, path.user_id@);
            &&& r == Ok::<UsersUserIdClientsClientIdPendingPatchesBatchDelete, ErrorStatus>(
                UsersUserIdClientsClientIdPendingPatchesBatchDelete::S200(
                    DeletePendingPatchesResponse {  },
                ),
            )
            &&& ui < 0 ==> final(store)@ == old(store)@
            &&& ui >= 0 ==> final(store)@ == old(store)@.update(
                ui,
                apply_ack(old(store)@[ui], path.client_id, body.patch_keys@),
            )
        }),
        store_wf(old(store)@) ==> store_wf(final(store)@),
{
    if let Err(e) = token.authorize(&path.user_id) {
        return Err(e);
    }
    store.delete_pending_patches(&path.user_id, path.client_id, &body.patch_keys);
    Ok(UsersUserIdClientsClientIdPendingPatchesBatchDelete::S200(DeletePendingPatchesResponse {  }))
}

/// Read a user's head: authorize, then return the stored triple joined with
/// the referenced patch's creation time and the producing client's name.
pub fn users_user_id_head_get(
    store: &Store,
    token: &IdToken,
    path: &UsersUserIdHeadGetPath,
) -> (r: Result<UsersUserIdHeadGet, ErrorStatus>)
    ensures
        token.user_id@ != path.user_id@ ==> r == Err::<UsersUserIdHeadGet, ErrorStatus>(
            ErrorStatus::Status400,
        ),
        token.user_id@ == path.user_id@ ==> ({
            let ui = user_index(store@, path.user_id@);
            &&& ui < 0 ==> r == Err::<UsersUserIdHeadGet, ErrorStatus>(ErrorStatus::Status500)
            &&& ui >= 0 ==> ({
                let u = store@[ui];
                let pi = patch_index(u.patches, u.head);
                let ci = client_index(u.clients, u.head.client_id);
                &&& (pi >= 0 && ci >= 0) ==> (r matches Ok(UsersUserIdHeadGet::S200(resp))
                    && resp@ == (GetHeadResponseView {
                    client_id: u.head.client_id,
                    session_id: u.head.session_id,
                    patch_id: u.head.patch_id,
                    created_at: u.patches[pi].created_at,
                    name: u.clients[ci].name,
                }))
                &&& !(pi >= 0 && ci >= 0) ==> r == Err::<UsersUserIdHeadGet, ErrorStatus>(
                    ErrorStatus::Status500,
                )
            })
        }),
{
    if let Err(e) = token.authorize(&path.user_id) {
        return Err(e);
    }
    match store.get_head(&path.user_id) {
        Ok(row) => Ok(UsersUserIdHeadGet::S200(GetHeadResponse {
            client_id: row.head_client_id,
            session_id: row.head_session_id,
            patch_id: row.head_patch_id,
            created_at: row.created_at,
            name: row.name,
        })),
        Err(e) => Err(ErrorStatus::from_sync(&e)),
    }
}

/// Advance a user's head: authorize, then either overwrite unconditionally
/// or compare-and-swap against the expected previous triple, reporting
/// whether the write took effect.
pub fn users_user_id_head_put(
    store: &mut Store,
    token: &IdToken,
    path: &UsersUserIdHeadPutPath,
    body: UpdateHeadRequest,
) -> (r: Result<UsersUserIdHeadPut, ErrorStatus>)
    ensures
        token.user_id@ != path.user_id@ ==> r == Err::<UsersUserIdHeadPut, ErrorStatus>(
            ErrorStatus::Status400,
        ) && final(store)@ == old(store)@,
        token.user_id@ == path.user_id@ ==> ({
            let ui = user_index(old(store)@, path.user_id@);
            match body.header_if_match {
                None => {
                    &&& r == Ok::<UsersUserIdHeadPut, ErrorStatus>(
                        UsersUserIdHeadPut::S200(UpdateHeadResponse { updated: true }),
                    )
                    &&& ui < 0 ==> final(store)@ == old(store)@
                    &&& ui >= 0 ==> final(store)@ == old(store)@.update(
                        ui,
                        apply_set_head(old(store)@[ui], body.patch_key),
                    )
                },
                Some(prev) => {
                    &&& ui < 0 ==> r == Ok::<UsersUserIdHeadPut, ErrorStatus>(
                        UsersUserIdHeadPut::S200(UpdateHeadResponse { updated: false }),
                    ) && final(store)@ == old(store)@
                    &&& ui >= 0 ==> (if old(store)@[ui].head == prev {
                        r == Ok::<UsersUserIdHeadPut, ErrorStatus>(
                            UsersUserIdHeadPut::S200(UpdateHeadResponse { updated: true }),
                        ) && final(store)@ == old(store)@.update(
                            ui,
                            apply_set_head(old(store)@[ui], body.patch_key),
                        )
                    } else {
                        r == Ok::<UsersUserIdHeadPut, ErrorStatus>(
                            UsersUserIdHeadPut::S200(UpdateHeadResponse { updated: false }),
                        ) && final(store)@ == old(store)@
                    })
                },
            }
        }),
        store_wf(old(store)@) ==> store_wf(final(store)@),
{
    if let Err(e) = token.authorize(&path.user_id) {
        return Err(e);
    }
    let updated = match body.header_if_match {
        Some(prev) => store.update_head_if_not_modified(&path.user_id, body.patch_key, prev),
        None => {
            store.update_head(&path.user_id, body.patch_key);
            true
        },
    };
    Ok(UsersUserIdHeadPut::S200(UpdateHeadResponse { updated }))
}

} // verus!
