//! Data model of the synchronization store and the specification-level
//! transition functions: idempotent patch insertion, fan-out to existing
//! clients, fan-in to a newly registered client, and acknowledgement.

use vstd::prelude::*;

verus! {

/// Identifying triple of a patch within one user's store.
#[derive(Clone, Copy, Debug, PartialEq, Eq, Structural)]
pub struct PatchKey {
    pub client_id: i64,
    pub session_id: i64,
    pub patch_id: i64,
}

/// One mutation record: its key, the key of the patch it was generated
/// against, an opaque payload and a creation timestamp in milliseconds.
#[derive(Debug)]
pub struct Patch {
    pub client_id: i64,
    pub session_id: i64,
    pub patch_id: i64,
    pub parent_client_id: i64,
    pub parent_session_id: i64,
    pub parent_patch_id: i64,
    pub patch: String,
    pub created_at: i64,
}

/// Mathematical value of a [`Patch`].
#[verifier::ext_equal]
pub struct PatchView {
    pub client_id: i64,
    pub session_id: i64,
    pub patch_id: i64,
    pub parent_client_id: i64,
    pub parent_session_id: i64,
    pub parent_patch_id: i64,
    pub patch: Seq<char>,
    pub created_at: i64,
}

impl View for Patch {
    type V = PatchView;

    open spec fn view(&self) -> PatchView {
        PatchView {
            client_id: self.client_id,
            session_id: self.session_id,
            patch_id: self.patch_id,
            parent_client_id: self.parent_client_id,
            parent_session_id: self.parent_session_id,
            parent_patch_id: self.parent_patch_id,
            patch: self.patch@,
            created_at: self.created_at,
        }
    }
}

impl Clone for Patch {
    fn clone(&self) -> (r: Self)
        ensures
            r@ == self@,
    {
        Patch {
            client_id: self.client_id,
            session_id: self.session_id,
            patch_id: self.patch_id,
            parent_client_id: self.parent_client_id,
            parent_session_id: self.parent_session_id,
            parent_patch_id: self.parent_patch_id,
            patch: self.patch.clone(),
            created_at: self.created_at,
        }
    }
}

/// One device of a user.  `client_id == 0` is the reserved system client,
/// excluded from all fan-out and fan-in.
#[derive(Debug)]
pub struct Client {
    pub client_id: i64,
    pub name: String,
}

/// Mathematical value of a [`Client`].
#[verifier::ext_equal]
pub struct ClientView {
    pub client_id: i64,
    pub name: Seq<char>,
}

impl View for Client {
    type V = ClientView;

    open spec fn view(&self) -> ClientView {
        ClientView { client_id: self.client_id, name: self.name@ }
    }
}

impl Clone for Client {
    fn clone(&self) -> (r: Self)
        ensures
            r@ == self@,
    {
        Client { client_id: self.client_id, name: self.name.clone() }
    }
}

/// "Consumer has not yet applied this patch": one row of the per-device
/// pending queue, deleted on acknowledgement.
#[derive(Clone, Copy, Debug, PartialEq, Eq, Structural)]
pub struct PendingPatch {
    pub consumer_client_id: i64,
    pub producer_client_id: i64,
    pub producer_session_id: i64,
    pub producer_patch_id: i64,
}

/// Key of a patch record.
pub open spec fn patch_key_of(p: PatchView) -> PatchKey {
    PatchKey { client_id: p.client_id, session_id: p.session_id, patch_id: p.patch_id }
}

/// Pending-queue row that delivers the patch `k` to device `consumer`.
pub open spec fn pending_row(consumer: i64, k: PatchKey) -> PendingPatch {
    PendingPatch {
        consumer_client_id: consumer,
        producer_client_id: k.client_id,
        producer_session_id: k.session_id,
        producer_patch_id: k.patch_id,
    }
}

/// Key named by a pending-queue row.
pub open spec fn pending_key_of(r: PendingPatch) -> PatchKey {
    PatchKey {
        client_id: r.producer_client_id,
        session_id: r.producer_session_id,
        patch_id: r.producer_patch_id,
    }
}

/// Whether some stored patch has key `k`.
pub open spec fn contains_patch_key(ps: Seq<PatchView>, k: PatchKey) -> bool {
    exists|i: int| 0 <= i < ps.len() && patch_key_of(ps[i]) == k
}

/// Whether some client has id `id`.
pub open spec fn contains_client_id(cs: Seq<ClientView>, id: i64) -> bool {
    exists|i: int| 0 <= i < cs.len() && cs[i].client_id == id
}

/// A client is a fan-out target for a patch unless it is the reserved system
/// client or the patch's own producer.
pub open spec fn fanout_target(c: ClientView, producer: i64) -> bool {
    c.client_id != 0 && c.client_id != producer
}

/// Pending rows created when the patch `k` is inserted: one row per existing
/// client, in store order, excluding client 0 and the producing client.
pub open spec fn fanout(clients: Seq<ClientView>, k: PatchKey) -> Seq<PendingPatch>
    decreases clients.len(),
{
    if clients.len() == 0 {
        Seq::empty()
    } else {
        fanout(clients.drop_last(), k) + if fanout_target(clients.last(), k.client_id) {
            seq![pending_row(clients.last().client_id, k)]
        } else {
            Seq::empty()
        }
    }
}

/// Pending rows created when the client `consumer` is registered: one row per
/// existing patch, in store order; vacuous for the reserved client 0, and a
/// patch is never delivered back to its own producer.
pub open spec fn fanin(patches: Seq<PatchView>, consumer: i64) -> Seq<PendingPatch>
    decreases patches.len(),
{
    if patches.len() == 0 {
        Seq::empty()
    } else {
        fanin(patches.drop_last(), consumer) + if consumer != 0 && patches.last().client_id
            != consumer {
            seq![pending_row(consumer, patch_key_of(patches.last()))]
        } else {
            Seq::empty()
        }
    }
}

/// Effect of inserting one patch: a duplicate key is skipped silently, a new
/// key stores the patch together with its fan-out rows.
pub open spec fn push_one(
    patches: Seq<PatchView>,
    pending: Seq<PendingPatch>,
    clients: Seq<ClientView>,
    p: PatchView,
) -> (Seq<PatchView>, Seq<PendingPatch>) {
    if contains_patch_key(patches, patch_key_of(p)) {
        (patches, pending)
    } else {
        (patches.push(p), pending + fanout(clients, patch_key_of(p)))
    }
}

/// Effect of inserting a batch of patches, each as an independent idempotent
/// unit, in order.
pub open spec fn push_batch(
    patches: Seq<PatchView>,
    pending: Seq<PendingPatch>,
    clients: Seq<ClientView>,
    batch: Seq<PatchView>,
) -> (Seq<PatchView>, Seq<PendingPatch>)
    decreases batch.len(),
{
    if batch.len() == 0 {
        (patches, pending)
    } else {
        let prior = push_batch(patches, pending, clients, batch.drop_last());
        push_one(prior.0, prior.1, clients, batch.last())
    }
}

/// The pending queue without every occurrence of `row`; deleting an absent
/// row changes nothing.
pub open spec fn without_row(pending: Seq<PendingPatch>, row: PendingPatch) -> Seq<PendingPatch>
    decreases pending.len(),
{
    if pending.len() == 0 {
        Seq::empty()
    } else {
        without_row(pending.drop_last(), row) + if pending.last() == row {
            Seq::empty()
        } else {
            seq![pending.last()]
        }
    }
}

/// Effect of acknowledging a batch of patch keys for one consumer, in order.
pub open spec fn without_keys(
    pending: Seq<PendingPatch>,
    consumer: i64,
    keys: Seq<PatchKey>,
) -> Seq<PendingPatch>
    decreases keys.len(),
{
    if keys.len() == 0 {
        pending
    } else {
        without_row(
            without_keys(pending, consumer, keys.drop_last()),
            pending_row(consumer, keys.last()),
        )
    }
}

/// The pending rows addressed to one consumer, in store order.
pub open spec fn pending_for(pending: Seq<PendingPatch>, consumer: i64) -> Seq<PendingPatch>
    decreases pending.len(),
{
    if pending.len() == 0 {
        Seq::empty()
    } else {
        pending_for(pending.drop_last(), consumer) + if pending.last().consumer_client_id
            == consumer {
            seq![pending.last()]
        } else {
            Seq::empty()
        }
    }
}

/// First index of the patch with key `k`, or -1 when no patch has it.
pub open spec fn patch_index(ps: Seq<PatchView>, k: PatchKey) -> int
    decreases ps.len(),
{
    if ps.len() == 0 {
        -1
    } else if patch_key_of(ps[0]) == k {
        0
    } else {
        let rest = patch_index(ps.drop_first(), k);
        if rest < 0 {
            -1
        } else {
            rest + 1
        }
    }
}

/// First index of the client with id `id`, or -1 when no client has it.
pub open spec fn client_index(cs: Seq<ClientView>, id: i64) -> int
    decreases cs.len(),
{
    if cs.len() == 0 {
        -1
    } else if cs[0].client_id == id {
        0
    } else {
        let rest = client_index(cs.drop_first(), id);
        if rest < 0 {
            -1
        } else {
            rest + 1
        }
    }
}

/// `patch_index` is exactly the first index holding key `k`, and -1 only
/// when no patch holds it.
pub proof fn lemma_patch_index_spec(ps: Seq<PatchView>, k: PatchKey)
    ensures
        patch_index(ps, k) >= 0 ==> 0 <= patch_index(ps, k) < ps.len() && patch_key_of(
            ps[patch_index(ps, k)],
        ) == k && (forall|j: int| 0 <= j < patch_index(ps, k) ==> patch_key_of(ps[j]) != k),
        patch_index(ps, k) < 0 ==> patch_index(ps, k) == -1 && (forall|j: int|
            0 <= j < ps.len() ==> patch_key_of(ps[j]) != k),
    decreases ps.len(),
{
    if ps.len() > 0 && patch_key_of(ps[0]) != k {
        let rest = ps.drop_first();
        lemma_patch_index_spec(rest, k);
        let r = patch_index(rest, k);
        if r >= 0 {
            assert(ps[r + 1] == rest[r]);
            assert forall|j: int| 0 <= j < r + 1 implies patch_key_of(ps[j]) != k by {
                if j > 0 {
                    assert(rest[j - 1] == ps[j]);
                }
            }
        } else {
            assert forall|j: int| 0 <= j < ps.len() implies patch_key_of(ps[j]) != k by {
                if j > 0 {
                    assert(rest[j - 1] == ps[j]);
                }
            }
        }
    }
}

/// `client_index` is exactly the first index holding id `id`, and -1 only
/// when no client holds it.
pub proof fn lemma_client_index_spec(cs: Seq<ClientView>, id: i64)
    ensures
        client_index(cs, id) >= 0 ==> 0 <= client_index(cs, id) < cs.len() && cs[client_index(
            cs,
            id,
        )].client_id == id && (forall|j: int|
            0 <= j < client_index(cs, id) ==> cs[j].client_id != id),
        client_index(cs, id) < 0 ==> client_index(cs, id) == -1 && (forall|j: int|
            0 <= j < cs.len() ==> cs[j].client_id != id),
    decreases cs.len(),
{
    if cs.len() > 0 && cs[0].client_id != id {
        let rest = cs.drop_first();
        lemma_client_index_spec(rest, id);
        let r = client_index(rest, id);
        if r >= 0 {
            assert(cs[r + 1] == rest[r]);
            assert forall|j: int| 0 <= j < r + 1 implies cs[j].client_id != id by {
                if j > 0 {
                    assert(rest[j - 1] == cs[j]);
                }
            }
        } else {
            assert forall|j: int| 0 <= j < cs.len() implies cs[j].client_id != id by {
                if j > 0 {
                    assert(rest[j - 1] == cs[j]);
                }
            }
        }
    }
}

/// The mathematical values of a sequence of patch records.
pub open spec fn patch_views(ps: Seq<Patch>) -> Seq<PatchView> {
    ps.map_values(|p: Patch| p@)
}

/// The first `n` elements of a sequence, or all of it when it is shorter.
pub open spec fn first_n<A>(s: Seq<A>, n: int) -> Seq<A> {
    if s.len() <= n {
        s
    } else {
        s.take(n)
    }
}

/// Mathematical state of one user's store: the abstraction that every
/// operation's contract is written against.
#[verifier::ext_equal]
pub struct UserView {
    pub user_id: Seq<char>,
    pub head: PatchKey,
    pub seq_last_value: i64,
    pub clients: Seq<ClientView>,
    pub patches: Seq<PatchView>,
    pub pending: Seq<PendingPatch>,
}

/// The data-model invariant of one user's state: patch tuples are unique,
/// client ids are unique and never exceed the counter that mints them, and
/// every pending row is unique, names a stored patch, and belongs to an
/// existing non-reserved client.
pub open spec fn user_wf(u: UserView) -> bool {
    &&& 0 <= u.seq_last_value
    &&& forall|i: int, j: int|
        0 <= i < j < u.clients.len() ==> u.clients[i].client_id != u.clients[j].client_id
    &&& forall|i: int| 0 <= i < u.clients.len() ==> u.clients[i].client_id <= u.seq_last_value
    &&& forall|i: int, j: int|
        0 <= i < j < u.patches.len() ==> patch_key_of(u.patches[i]) != patch_key_of(u.patches[j])
    &&& forall|i: int, j: int| 0 <= i < j < u.pending.len() ==> u.pending[i] != u.pending[j]
    &&& forall|i: int|
        0 <= i < u.pending.len() ==> contains_patch_key(
            u.patches,
            pending_key_of(#[trigger] u.pending[i]),
        )
    &&& forall|i: int|
        0 <= i < u.pending.len() ==> (#[trigger] u.pending[i]).consumer_client_id != 0
            && contains_client_id(u.clients, u.pending[i].consumer_client_id)
}

/// The data-model invariant of the whole store: user ids are unique and
/// every user's state is well formed.
pub open spec fn store_wf(users: Seq<UserView>) -> bool {
    &&& forall|i: int, j: int| 0 <= i < j < users.len() ==> users[i].user_id != users[j].user_id
    &&& forall|i: int| 0 <= i < users.len() ==> user_wf(#[trigger] users[i])
}

/// State after inserting one patch as an idempotent unit.
pub open spec fn apply_push_one(u: UserView, p: PatchView) -> UserView {
    UserView {
        patches: push_one(u.patches, u.pending, u.clients, p).0,
        pending: push_one(u.patches, u.pending, u.clients, p).1,
        ..u
    }
}

/// State after inserting a batch of patches, in order.
pub open spec fn apply_push_batch(u: UserView, batch: Seq<PatchView>) -> UserView {
    UserView {
        patches: push_batch(u.patches, u.pending, u.clients, batch).0,
        pending: push_batch(u.patches, u.pending, u.clients, batch).1,
        ..u
    }
}

/// State after creating a client row together with its fan-in rows.
pub open spec fn apply_create_client(u: UserView, client_id: i64, name: Seq<char>) -> UserView {
    UserView {
        clients: u.clients.push(ClientView { client_id, name }),
        pending: u.pending + fanin(u.patches, client_id),
        ..u
    }
}

/// State after moving the client-id counter to `value`.
pub open spec fn apply_seq_value(u: UserView, value: i64) -> UserView {
    UserView { seq_last_value: value, ..u }
}

/// State after acknowledging a batch of patch keys for one consumer.
pub open spec fn apply_ack(u: UserView, consumer: i64, keys: Seq<PatchKey>) -> UserView {
    UserView { pending: without_keys(u.pending, consumer, keys), ..u }
}

/// State after replacing the head pointer.
pub open spec fn apply_set_head(u: UserView, k: PatchKey) -> UserView {
    UserView { head: k, ..u }
}

/// First index of the user with id `uid`, or -1 when no user has it.
pub open spec fn user_index(users: Seq<UserView>, uid: Seq<char>) -> int
    decreases users.len(),
{
    if users.len() == 0 {
        -1
    } else if users[0].user_id == uid {
        0
    } else {
        let rest = user_index(users.drop_first(), uid);
        if rest < 0 {
            -1
        } else {
            rest + 1
        }
    }
}

/// `user_index` is exactly the first index holding id `uid`, and -1 only
/// when no user holds it.
pub proof fn lemma_user_index_spec(users: Seq<UserView>, uid: Seq<char>)
    ensures
        user_index(users, uid) >= 0 ==> 0 <= user_index(users, uid) < users.len() && users[
            user_index(users, uid)].user_id == uid && (forall|j: int|
            0 <= j < user_index(users, uid) ==> users[j].user_id != uid),
        user_index(users, uid) < 0 ==> user_index(users, uid) == -1 && (forall|j: int|
            0 <= j < users.len() ==> users[j].user_id != uid),
    decreases users.len(),
{
    if users.len() > 0 && users[0].user_id != uid {
        let rest = users.drop_first();
        lemma_user_index_spec(rest, uid);
        let r = user_index(rest, uid);
        if r >= 0 {
            assert(users[r + 1] == rest[r]);
            assert forall|j: int| 0 <= j < r + 1 implies users[j].user_id != uid by {
                if j > 0 {
                    assert(rest[j - 1] == users[j]);
                }
            }
        } else {
            assert forall|j: int| 0 <= j < users.len() implies users[j].user_id != uid by {
                if j > 0 {
                    assert(rest[j - 1] == users[j]);
                }
            }
        }
    }
}

/// The canonical "initialize empty document" payload of the root patch.
pub open spec fn root_payload() -> Seq<char> {
    "[{\"op\":\"replace\",\"path\":\"\",\"value\":{\"data\":null}}]"@
}

/// The root patch key (0, 0, 0), which is also the initial head.
pub open spec fn root_key() -> PatchKey {
    PatchKey { client_id: 0, session_id: 0, patch_id: 0 }
}

/// State of a freshly bootstrapped user: head at the root key, counter at
/// zero, the reserved system client, the root patch, and an empty pending
/// queue.
pub open spec fn bootstrap_view(uid: Seq<char>, created_at: i64) -> UserView {
    UserView {
        user_id: uid,
        head: root_key(),
        seq_last_value: 0,
        clients: seq![ClientView { client_id: 0, name: "System"@ }],
        patches: seq![
            PatchView {
                client_id: 0,
                session_id: 0,
                patch_id: 0,
                parent_client_id: 0,
                parent_session_id: 0,
                parent_patch_id: 0,
                patch: root_payload(),
                created_at,
            },
        ],
        pending: Seq::empty(),
    }
}

} // verus!
