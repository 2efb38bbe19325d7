//! Laws of the store model, proved once over the transition functions:
//! idempotent insertion, fan-out and fan-in completeness, and
//! acknowledgement idempotence.

use vstd::prelude::*;

use crate::model::{
    apply_ack, apply_create_client, apply_push_batch, apply_push_one, apply_seq_value,
    bootstrap_view, contains_client_id, contains_patch_key, fanin, fanout, fanout_target,
    patch_key_of, pending_key_of, pending_row, push_batch, push_one, store_wf, user_wf,
    without_keys, without_row, ClientView, PatchKey, PatchView, PendingPatch, UserView,
};

verus! {

/// LAW: pushing the same patch twice yields exactly the state of pushing it
/// once — the duplicate stores no second row and creates no new pending
/// rows.
pub proof fn lemma_push_idempotent(
    patches: Seq<PatchView>,
    pending: Seq<PendingPatch>,
    clients: Seq<ClientView>,
    p: PatchView,
)
    ensures
        ({
            let once = push_one(patches, pending, clients, p);
            push_one(once.0, once.1, clients, p) == once
        }),
{
    let once = push_one(patches, pending, clients, p);
    if !contains_patch_key(patches, patch_key_of(p)) {
        assert(once.0 == patches.push(p));
        assert(once.0[patches.len() as int] == p);
        assert(contains_patch_key(once.0, patch_key_of(p)));
    }
}

/// How many clients a patch by `producer` fans out to.
pub open spec fn count_fanout_targets(clients: Seq<ClientView>, producer: i64) -> int
    decreases clients.len(),
{
    if clients.len() == 0 {
        0
    } else {
        count_fanout_targets(clients.drop_last(), producer) + if fanout_target(
            clients.last(),
            producer,
        ) {
            1int
        } else {
            0int
        }
    }
}

/// Whether `r` is the fan-out row of some eligible client.
pub open spec fn fanout_row_from(clients: Seq<ClientView>, k: PatchKey, r: PendingPatch) -> bool {
    exists|j: int|
        0 <= j < clients.len() && fanout_target(clients[j], k.client_id) && r == pending_row(
            clients[j].client_id,
            k,
        )
}

/// LAW: inserting a patch creates exactly one pending row per existing
/// client other than the reserved client 0 and the producing client — every
/// eligible client receives its row, and every row belongs to an eligible
/// client.
pub proof fn lemma_fanout_complete(clients: Seq<ClientView>, k: PatchKey)
    ensures
        fanout(clients, k).len() == count_fanout_targets(clients, k.client_id),
        forall|j: int|
            0 <= j < clients.len() && fanout_target(#[trigger] clients[j], k.client_id) ==> fanout(
                clients,
                k,
            ).contains(pending_row(clients[j].client_id, k)),
        forall|i: int|
            0 <= i < fanout(clients, k).len() ==> fanout_row_from(
                clients,
                k,
                #[trigger] fanout(clients, k)[i],
            ),
    decreases clients.len(),
{
    if clients.len() > 0 {
        let dl = clients.drop_last();
        lemma_fanout_complete(dl, k);
        let f = fanout(clients, k);
        let fd = fanout(dl, k);
        assert forall|j: int|
            0 <= j < clients.len() && fanout_target(#[trigger] clients[j], k.client_id) implies f
            .contains(pending_row(clients[j].client_id, k)) by {
            if j < clients.len() - 1 {
                assert(dl[j] == clients[j]);
                assert(fd.contains(pending_row(dl[j].client_id, k)));
                let i = choose|i: int|
                    0 <= i < fd.len() && fd[i] == pending_row(dl[j].client_id, k);
                assert(f[i] == fd[i]);
                assert(f.contains(pending_row(clients[j].client_id, k)));
            } else {
                assert(clients[j] == clients.last());
                assert(f[fd.len() as int] == pending_row(clients.last().client_id, k));
                assert(f.contains(pending_row(clients[j].client_id, k)));
            }
        }
        assert forall|i: int| 0 <= i < f.len() implies fanout_row_from(clients, k, #[trigger] f[i]) by {
            if i < fd.len() {
                assert(f[i] == fd[i]);
                assert(fanout_row_from(dl, k, fd[i]));
                let j = choose|j: int|
                    0 <= j < dl.len() && fanout_target(dl[j], k.client_id) && fd[i] == pending_row(
                        dl[j].client_id,
                        k,
                    );
                assert(clients[j] == dl[j]);
                assert(fanout_target(clients[j], k.client_id) && f[i] == pending_row(
                    clients[j].client_id,
                    k,
                ));
            } else {
                assert(fanout_target(clients.last(), k.client_id));
                let j = clients.len() - 1;
                assert(fanout_target(clients[j], k.client_id) && f[i] == pending_row(
                    clients[j].client_id,
                    k,
                ));
            }
        }
    }
}

/// How many patches fan in to a freshly registered client `consumer`.
pub open spec fn count_fanin_sources(patches: Seq<PatchView>, consumer: i64) -> int
    decreases patches.len(),
{
    if patches.len() == 0 {
        0
    } else {
        count_fanin_sources(patches.drop_last(), consumer) + if consumer != 0
            && patches.last().client_id != consumer {
            1int
        } else {
            0int
        }
    }
}

/// Whether `r` is the fan-in row of some patch the new client did not
/// produce itself.
pub open spec fn fanin_row_from(patches: Seq<PatchView>, consumer: i64, r: PendingPatch) -> bool {
    exists|j: int|
        0 <= j < patches.len() && patches[j].client_id != consumer && r == pending_row(
            consumer,
            patch_key_of(patches[j]),
        )
}

/// LAW: registering a client back-fills its queue with exactly one pending
/// row per existing patch it did not produce itself, and none at all for
/// the reserved client 0.
pub proof fn lemma_fanin_complete(patches: Seq<PatchView>, consumer: i64)
    ensures
        fanin(patches, consumer).len() == count_fanin_sources(patches, consumer),
        consumer == 0 ==> fanin(patches, consumer) == Seq::<PendingPatch>::empty(),
        forall|j: int|
            0 <= j < patches.len() && consumer != 0 && (#[trigger] patches[j]).client_id
                != consumer ==> fanin(patches, consumer).contains(
                pending_row(consumer, patch_key_of(patches[j])),
            ),
        forall|i: int|
            0 <= i < fanin(patches, consumer).len() ==> fanin_row_from(
                patches,
                consumer,
                #[trigger] fanin(patches, consumer)[i],
            ),
    decreases patches.len(),
{
    if patches.len() == 0 {
        assert(fanin(patches, consumer) =~= Seq::<PendingPatch>::empty());
    } else {
        let dl = patches.drop_last();
        lemma_fanin_complete(dl, consumer);
        let f = fanin(patches, consumer);
        let fd = fanin(dl, consumer);
        if consumer == 0 {
            assert(f =~= Seq::<PendingPatch>::empty());
        }
        assert forall|j: int|
            0 <= j < patches.len() && consumer != 0 && (#[trigger] patches[j]).client_id
                != consumer implies f.contains(pending_row(consumer, patch_key_of(patches[j]))) by {
            if j < patches.len() - 1 {
                assert(dl[j] == patches[j]);
                assert(fd.contains(pending_row(consumer, patch_key_of(dl[j]))));
                let i = choose|i: int|
                    0 <= i < fd.len() && fd[i] == pending_row(consumer, patch_key_of(dl[j]));
                assert(f[i] == fd[i]);
                assert(f.contains(pending_row(consumer, patch_key_of(patches[j]))));
            } else {
                assert(patches[j] == patches.last());
                assert(f[fd.len() as int] == pending_row(consumer, patch_key_of(patches.last())));
                assert(f.contains(pending_row(consumer, patch_key_of(patches[j]))));
            }
        }
        assert forall|i: int| 0 <= i < f.len() implies fanin_row_from(
            patches,
            consumer,
            #[trigger] f[i],
        ) by {
            if i < fd.len() {
                assert(f[i] == fd[i]);
                assert(fanin_row_from(dl, consumer, fd[i]));
                let j = choose|j: int|
                    0 <= j < dl.len() && dl[j].client_id != consumer && fd[i] == pending_row(
                        consumer,
                        patch_key_of(dl[j]),
                    );
                assert(patches[j] == dl[j]);
                assert(patches[j].client_id != consumer && f[i] == pending_row(
                    consumer,
                    patch_key_of(patches[j]),
                ));
            } else {
                let j = patches.len() - 1;
                assert(patches[j].client_id != consumer && f[i] == pending_row(
                    consumer,
                    patch_key_of(patches[j]),
                ));
            }
        }
    }
}

/// Deleting a row that is not in the queue changes nothing.
pub proof fn lemma_without_row_absent(pending: Seq<PendingPatch>, row: PendingPatch)
    requires
        !pending.contains(row),
    ensures
        without_row(pending, row) == pending,
    decreases pending.len(),
{
    if pending.len() > 0 {
        let dl = pending.drop_last();
        assert(!dl.contains(row)) by {
            if dl.contains(row) {
                let i = choose|i: int| 0 <= i < dl.len() && dl[i] == row;
                assert(pending[i] == dl[i]);
            }
        }
        lemma_without_row_absent(dl, row);
        assert(pending[pending.len() - 1] == pending.last());
        assert(pending.last() != row);
        assert(without_row(pending, row) =~= pending);
    } else {
        assert(without_row(pending, row) =~= pending);
    }
}

/// After one deletion the row is gone entirely.
pub proof fn lemma_without_row_gone(pending: Seq<PendingPatch>, row: PendingPatch)
    ensures
        !without_row(pending, row).contains(row),
    decreases pending.len(),
{
    if pending.len() > 0 {
        let dl = pending.drop_last();
        lemma_without_row_gone(dl, row);
        let w = without_row(pending, row);
        let wd = without_row(dl, row);
        if w.contains(row) {
            let i = choose|i: int| 0 <= i < w.len() && w[i] == row;
            if i < wd.len() {
                assert(wd[i] == w[i]);
                assert(wd.contains(row));
            } else {
                assert(w[i] == pending.last());
            }
        }
    }
}

/// LAW: deleting a pending key twice, or one that never existed, is a no-op
/// after the first deletion.
pub proof fn lemma_ack_idempotent(pending: Seq<PendingPatch>, row: PendingPatch)
    ensures
        without_row(without_row(pending, row), row) == without_row(pending, row),
{
    lemma_without_row_gone(pending, row);
    lemma_without_row_absent(without_row(pending, row), row);
}

/// Under the data-model invariant the freshly minted client id collides
/// with no existing client: registration succeeds whenever the counter has
/// headroom, and allocated ids are never reused.
pub proof fn lemma_register_fresh(u: UserView)
    requires
        user_wf(u),
        u.seq_last_value < i64::MAX,
    ensures
        !contains_client_id(u.clients, (u.seq_last_value + 1) as i64),
{
    if contains_client_id(u.clients, (u.seq_last_value + 1) as i64) {
        let i = choose|i: int|
            0 <= i < u.clients.len() && u.clients[i].client_id == (u.seq_last_value + 1) as i64;
        assert(u.clients[i].client_id <= u.seq_last_value);
    }
}

/// Every fan-out row names the inserted key, a non-reserved existing
/// client, and no two rows coincide when client ids are unique.
proof fn lemma_fanout_rows(clients: Seq<ClientView>, k: PatchKey)
    ensures
        forall|i: int|
            0 <= i < fanout(clients, k).len() ==> (#[trigger] fanout(
                clients,
                k,
            )[i]).consumer_client_id != 0 && pending_key_of(fanout(clients, k)[i]) == k
                && contains_client_id(clients, fanout(clients, k)[i].consumer_client_id),
        (forall|a: int, b: int|
            0 <= a < b < clients.len() ==> clients[a].client_id != clients[b].client_id) ==> (
        forall|a: int, b: int|
            0 <= a < b < fanout(clients, k).len() ==> fanout(clients, k)[a] != fanout(
                clients,
                k,
            )[b]),
    decreases clients.len(),
{
    if clients.len() > 0 {
        let dl = clients.drop_last();
        lemma_fanout_rows(dl, k);
        let f = fanout(clients, k);
        let fd = fanout(dl, k);
        assert forall|i: int| 0 <= i < f.len() implies (#[trigger] f[i]).consumer_client_id != 0
            && pending_key_of(f[i]) == k && contains_client_id(clients, f[i].consumer_client_id) by {
            if i < fd.len() {
                assert(f[i] == fd[i]);
                let idx = choose|idx: int|
                    0 <= idx < dl.len() && dl[idx].client_id == fd[i].consumer_client_id;
                assert(clients[idx] == dl[idx]);
                assert(contains_client_id(clients, f[i].consumer_client_id));
            } else {
                assert(f[i] == pending_row(clients.last().client_id, k));
                assert(clients[clients.len() - 1] == clients.last());
                assert(contains_client_id(clients, clients.last().client_id));
            }
        }
        if forall|a: int, b: int|
            0 <= a < b < clients.len() ==> clients[a].client_id != clients[b].client_id {
            assert forall|a: int, b: int|
                0 <= a < b < dl.len() implies dl[a].client_id != dl[b].client_id by {
                assert(dl[a] == clients[a] && dl[b] == clients[b]);
            }
            assert forall|a: int, b: int| 0 <= a < b < f.len() implies f[a] != f[b] by {
                if b < fd.len() {
                    assert(f[a] == fd[a] && f[b] == fd[b]);
                } else {
                    assert(f[b] == pending_row(clients.last().client_id, k));
                    assert(f[a] == fd[a]);
                    assert(contains_client_id(dl, fd[a].consumer_client_id));
                    let idx = choose|idx: int|
                        0 <= idx < dl.len() && dl[idx].client_id == fd[a].consumer_client_id;
                    assert(clients[idx] == dl[idx]);
                    assert(clients[idx].client_id != clients[clients.len() - 1].client_id);
                    assert(clients[clients.len() - 1] == clients.last());
                }
            }
        }
    }
}

/// Every fan-in row belongs to the new non-reserved consumer and names a
/// stored patch, and no two rows coincide when patch keys are unique.
proof fn lemma_fanin_rows(patches: Seq<PatchView>, consumer: i64)
    ensures
        forall|i: int|
            0 <= i < fanin(patches, consumer).len() ==> (#[trigger] fanin(
                patches,
                consumer,
            )[i]).consumer_client_id == consumer && consumer != 0 && contains_patch_key(
                patches,
                pending_key_of(fanin(patches, consumer)[i]),
            ),
        (forall|a: int, b: int|
            0 <= a < b < patches.len() ==> patch_key_of(patches[a]) != patch_key_of(
                patches[b],
            )) ==> (forall|a: int, b: int|
            0 <= a < b < fanin(patches, consumer).len() ==> fanin(patches, consumer)[a] != fanin(
                patches,
                consumer,
            )[b]),
    decreases patches.len(),
{
    if patches.len() > 0 {
        let dl = patches.drop_last();
        lemma_fanin_rows(dl, consumer);
        let f = fanin(patches, consumer);
        let fd = fanin(dl, consumer);
        assert forall|i: int| 0 <= i < f.len() implies (#[trigger] f[i]).consumer_client_id
            == consumer && consumer != 0 && contains_patch_key(patches, pending_key_of(f[i])) by {
            if i < fd.len() {
                assert(f[i] == fd[i]);
                let idx = choose|idx: int|
                    0 <= idx < dl.len() && patch_key_of(dl[idx]) == pending_key_of(fd[i]);
                assert(patches[idx] == dl[idx]);
                assert(contains_patch_key(patches, pending_key_of(f[i])));
            } else {
                assert(f[i] == pending_row(consumer, patch_key_of(patches.last())));
                assert(patches[patches.len() - 1] == patches.last());
                assert(contains_patch_key(patches, patch_key_of(patches.last())));
            }
        }
        if forall|a: int, b: int|
            0 <= a < b < patches.len() ==> patch_key_of(patches[a]) != patch_key_of(patches[b]) {
            assert forall|a: int, b: int|
                0 <= a < b < dl.len() implies patch_key_of(dl[a]) != patch_key_of(dl[b]) by {
                assert(dl[a] == patches[a] && dl[b] == patches[b]);
            }
            assert forall|a: int, b: int| 0 <= a < b < f.len() implies f[a] != f[b] by {
                if b < fd.len() {
                    assert(f[a] == fd[a] && f[b] == fd[b]);
                } else {
                    assert(f[b] == pending_row(consumer, patch_key_of(patches.last())));
                    assert(f[a] == fd[a]);
                    assert(contains_patch_key(dl, pending_key_of(fd[a])));
                    let idx = choose|idx: int|
                        0 <= idx < dl.len() && patch_key_of(dl[idx]) == pending_key_of(fd[a]);
                    assert(patches[idx] == dl[idx]);
                    assert(patch_key_of(patches[idx]) != patch_key_of(
                        patches[patches.len() - 1],
                    ));
                    assert(patches[patches.len() - 1] == patches.last());
                    assert(pending_key_of(f[a]) != pending_key_of(f[b]));
                }
            }
        }
    }
}

/// INVARIANT: a freshly bootstrapped user satisfies the data model.
pub proof fn lemma_bootstrap_wf(uid: Seq<char>, created_at: i64)
    ensures
        user_wf(bootstrap_view(uid, created_at)),
{
    let u = bootstrap_view(uid, created_at);
    assert(u.clients.len() == 1 && u.patches.len() == 1 && u.pending.len() == 0);
    assert(u.clients[0].client_id == 0);
}

/// INVARIANT: inserting one patch preserves the data model — in particular
/// a successful insert leaves patch tuples unique, and its fan-out rows
/// collide with nothing.
pub proof fn lemma_push_one_wf(u: UserView, p: PatchView)
    requires
        user_wf(u),
    ensures
        user_wf(apply_push_one(u, p)),
{
    let k = patch_key_of(p);
    let u2 = apply_push_one(u, p);
    if contains_patch_key(u.patches, k) {
        assert(u2 =~= u);
    } else {
        let f = fanout(u.clients, k);
        lemma_fanout_rows(u.clients, k);
        let n = u.pending.len() as int;
        assert(u2.patches == u.patches.push(p));
        assert(u2.pending == u.pending + f);
        assert forall|i: int, j: int| 0 <= i < j < u2.patches.len() implies patch_key_of(
            u2.patches[i],
        ) != patch_key_of(u2.patches[j]) by {
            if j < u.patches.len() {
                assert(u2.patches[i] == u.patches[i] && u2.patches[j] == u.patches[j]);
            } else {
                assert(u2.patches[j] == p && u2.patches[i] == u.patches[i]);
                if patch_key_of(u.patches[i]) == k {
                    assert(contains_patch_key(u.patches, k));
                }
            }
        }
        assert forall|i: int, j: int| 0 <= i < j < u2.pending.len() implies u2.pending[i]
            != u2.pending[j] by {
            if j < n {
                assert(u2.pending[i] == u.pending[i] && u2.pending[j] == u.pending[j]);
            } else if i >= n {
                assert(u2.pending[i] == f[i - n] && u2.pending[j] == f[j - n]);
            } else {
                assert(u2.pending[i] == u.pending[i] && u2.pending[j] == f[j - n]);
                if u.pending[i] == f[j - n] {
                    assert(contains_patch_key(u.patches, pending_key_of(u.pending[i])));
                    assert(pending_key_of(u.pending[i]) == k);
                }
            }
        }
        assert forall|i: int| 0 <= i < u2.pending.len() implies contains_patch_key(
            u2.patches,
            pending_key_of(#[trigger] u2.pending[i]),
        ) by {
            if i < n {
                assert(u2.pending[i] == u.pending[i]);
                assert(contains_patch_key(u.patches, pending_key_of(u.pending[i])));
                let idx = choose|idx: int|
                    0 <= idx < u.patches.len() && patch_key_of(u.patches[idx]) == pending_key_of(
                        u.pending[i],
                    );
                assert(u2.patches[idx] == u.patches[idx]);
                assert(contains_patch_key(u2.patches, pending_key_of(u2.pending[i])));
            } else {
                assert(u2.pending[i] == f[i - n]);
                assert(pending_key_of(f[i - n]) == k);
                assert(u2.patches[u.patches.len() as int] == p);
                assert(contains_patch_key(u2.patches, k));
            }
        }
        assert forall|i: int| 0 <= i < u2.pending.len() implies (#[trigger] u2.pending[
            i]).consumer_client_id != 0 && contains_client_id(
            u2.clients,
            u2.pending[i].consumer_client_id,
        ) by {
            if i < n {
                assert(u2.pending[i] == u.pending[i]);
            } else {
                assert(u2.pending[i] == f[i - n]);
            }
        }
    }
}

/// INVARIANT: inserting a batch of patches preserves the data model.
pub proof fn lemma_push_batch_wf(u: UserView, batch: Seq<PatchView>)
    requires
        user_wf(u),
    ensures
        user_wf(apply_push_batch(u, batch)),
    decreases batch.len(),
{
    if batch.len() == 0 {
        assert(apply_push_batch(u, batch) =~= u);
    } else {
        lemma_push_batch_wf(u, batch.drop_last());
        let prior = apply_push_batch(u, batch.drop_last());
        lemma_push_one_wf(prior, batch.last());
        assert(apply_push_batch(u, batch) =~= apply_push_one(prior, batch.last()));
    }
}

/// INVARIANT: moving the counter forward preserves the data model.
pub proof fn lemma_seq_value_wf(u: UserView, v: i64)
    requires
        user_wf(u),
        u.seq_last_value <= v,
    ensures
        user_wf(apply_seq_value(u, v)),
{
}

/// INVARIANT: creating a client with an unused id minted by the counter
/// preserves the data model, and its fan-in rows collide with nothing.
pub proof fn lemma_create_client_wf(u: UserView, client_id: i64, name: Seq<char>)
    requires
        user_wf(u),
        !contains_client_id(u.clients, client_id),
        client_id <= u.seq_last_value,
    ensures
        user_wf(apply_create_client(u, client_id, name)),
{
    let u2 = apply_create_client(u, client_id, name);
    let f = fanin(u.patches, client_id);
    lemma_fanin_rows(u.patches, client_id);
    let n = u.pending.len() as int;
    let m = u.clients.len() as int;
    assert(u2.clients == u.clients.push(ClientView { client_id, name }));
    assert(u2.pending == u.pending + f);
    assert forall|i: int, j: int| 0 <= i < j < u2.clients.len() implies u2.clients[i].client_id
        != u2.clients[j].client_id by {
        if j < m {
            assert(u2.clients[i] == u.clients[i] && u2.clients[j] == u.clients[j]);
        } else {
            assert(u2.clients[i] == u.clients[i]);
            assert(u2.clients[j].client_id == client_id);
            if u.clients[i].client_id == client_id {
                assert(contains_client_id(u.clients, client_id));
            }
        }
    }
    assert forall|i: int| 0 <= i < u2.clients.len() implies u2.clients[i].client_id
        <= u2.seq_last_value by {
        if i < m {
            assert(u2.clients[i] == u.clients[i]);
        }
    }
    assert forall|i: int, j: int| 0 <= i < j < u2.pending.len() implies u2.pending[i]
        != u2.pending[j] by {
        if j < n {
            assert(u2.pending[i] == u.pending[i] && u2.pending[j] == u.pending[j]);
        } else if i >= n {
            assert(u2.pending[i] == f[i - n] && u2.pending[j] == f[j - n]);
        } else {
            assert(u2.pending[i] == u.pending[i] && u2.pending[j] == f[j - n]);
            if u.pending[i] == f[j - n] {
                assert(contains_client_id(u.clients, u.pending[i].consumer_client_id));
                assert(u.pending[i].consumer_client_id == client_id);
            }
        }
    }
    assert forall|i: int| 0 <= i < u2.pending.len() implies contains_patch_key(
        u2.patches,
        pending_key_of(#[trigger] u2.pending[i]),
    ) by {
        if i < n {
            assert(u2.pending[i] == u.pending[i]);
        } else {
            assert(u2.pending[i] == f[i - n]);
        }
    }
    assert forall|i: int| 0 <= i < u2.pending.len() implies (#[trigger] u2.pending[
        i]).consumer_client_id != 0 && contains_client_id(
        u2.clients,
        u2.pending[i].consumer_client_id,
    ) by {
        if i < n {
            assert(u2.pending[i] == u.pending[i]);
            let idx = choose|idx: int|
                0 <= idx < u.clients.len() && u.clients[idx].client_id == u.pending[
                    i].consumer_client_id;
            assert(u2.clients[idx] == u.clients[idx]);
            assert(contains_client_id(u2.clients, u2.pending[i].consumer_client_id));
        } else {
            assert(u2.pending[i] == f[i - n]);
            assert(u2.pending[i].consumer_client_id == client_id);
            assert(u2.clients[m].client_id == client_id);
            assert(contains_client_id(u2.clients, client_id));
        }
    }
}

/// INVARIANT: registering a client through the counter preserves the data
/// model; the freshly minted id never collides, so ids are never reused.
pub proof fn lemma_register_wf(u: UserView, name: Seq<char>)
    requires
        user_wf(u),
        u.seq_last_value < i64::MAX,
    ensures
        user_wf(
            apply_create_client(
                apply_seq_value(u, (u.seq_last_value + 1) as i64),
                (u.seq_last_value + 1) as i64,
                name,
            ),
        ),
{
    let cid = (u.seq_last_value + 1) as i64;
    lemma_register_fresh(u);
    lemma_seq_value_wf(u, cid);
    lemma_create_client_wf(apply_seq_value(u, cid), cid, name);
}

/// Deleting a row yields rows drawn from the old queue, still unique.
proof fn lemma_without_row_props(pending: Seq<PendingPatch>, row: PendingPatch)
    ensures
        forall|i: int|
            0 <= i < without_row(pending, row).len() ==> pending.contains(
                #[trigger] without_row(pending, row)[i],
            ),
        (forall|a: int, b: int| 0 <= a < b < pending.len() ==> pending[a] != pending[b]) ==> (
        forall|a: int, b: int|
            0 <= a < b < without_row(pending, row).len() ==> without_row(pending, row)[a]
                != without_row(pending, row)[b]),
    decreases pending.len(),
{
    if pending.len() > 0 {
        let dl = pending.drop_last();
        lemma_without_row_props(dl, row);
        let w = without_row(pending, row);
        let wd = without_row(dl, row);
        assert forall|i: int| 0 <= i < w.len() implies pending.contains(#[trigger] w[i]) by {
            if i < wd.len() {
                assert(w[i] == wd[i]);
                let idx = choose|idx: int| 0 <= idx < dl.len() && dl[idx] == wd[i];
                assert(pending[idx] == dl[idx]);
                assert(pending.contains(w[i]));
            } else {
                assert(w[i] == pending.last());
                assert(pending[pending.len() - 1] == pending.last());
                assert(pending.contains(w[i]));
            }
        }
        if forall|a: int, b: int| 0 <= a < b < pending.len() ==> pending[a] != pending[b] {
            assert forall|a: int, b: int| 0 <= a < b < dl.len() implies dl[a] != dl[b] by {
                assert(dl[a] == pending[a] && dl[b] == pending[b]);
            }
            assert forall|a: int, b: int| 0 <= a < b < w.len() implies w[a] != w[b] by {
                if b < wd.len() {
                    assert(w[a] == wd[a] && w[b] == wd[b]);
                } else {
                    assert(w[b] == pending.last());
                    assert(w[a] == wd[a]);
                    assert(dl.contains(wd[a]));
                    let idx = choose|idx: int| 0 <= idx < dl.len() && dl[idx] == wd[a];
                    assert(pending[idx] == dl[idx]);
                    assert(pending[idx] != pending[pending.len() - 1]);
                    assert(pending[pending.len() - 1] == pending.last());
                }
            }
        }
    }
}

/// Acknowledging a batch yields rows drawn from the old queue, still
/// unique.
proof fn lemma_without_keys_props(pending: Seq<PendingPatch>, consumer: i64, keys: Seq<PatchKey>)
    ensures
        forall|i: int|
            0 <= i < without_keys(pending, consumer, keys).len() ==> pending.contains(
                #[trigger] without_keys(pending, consumer, keys)[i],
            ),
        (forall|a: int, b: int| 0 <= a < b < pending.len() ==> pending[a] != pending[b]) ==> (
        forall|a: int, b: int|
            0 <= a < b < without_keys(pending, consumer, keys).len() ==> without_keys(
                pending,
                consumer,
                keys,
            )[a] != without_keys(pending, consumer, keys)[b]),
    decreases keys.len(),
{
    if keys.len() > 0 {
        lemma_without_keys_props(pending, consumer, keys.drop_last());
        let prior = without_keys(pending, consumer, keys.drop_last());
        lemma_without_row_props(prior, pending_row(consumer, keys.last()));
        let w = without_keys(pending, consumer, keys);
        assert(w == without_row(prior, pending_row(consumer, keys.last())));
        assert forall|i: int| 0 <= i < w.len() implies pending.contains(#[trigger] w[i]) by {
            assert(prior.contains(w[i]));
            let idx = choose|idx: int| 0 <= idx < prior.len() && prior[idx] == w[i];
            assert(pending.contains(prior[idx]));
        }
        if forall|a: int, b: int| 0 <= a < b < pending.len() ==> pending[a] != pending[b] {
            assert forall|a: int, b: int| 0 <= a < b < w.len() implies w[a] != w[b] by {}
        }
    }
}

/// INVARIANT: acknowledging pending patches preserves the data model.
pub proof fn lemma_ack_wf(u: UserView, consumer: i64, keys: Seq<PatchKey>)
    requires
        user_wf(u),
    ensures
        user_wf(apply_ack(u, consumer, keys)),
{
    lemma_without_keys_props(u.pending, consumer, keys);
    let u2 = apply_ack(u, consumer, keys);
    assert forall|i: int| 0 <= i < u2.pending.len() implies contains_patch_key(
        u2.patches,
        pending_key_of(#[trigger] u2.pending[i]),
    ) && (u2.pending[i]).consumer_client_id != 0 && contains_client_id(
        u2.clients,
        u2.pending[i].consumer_client_id,
    ) by {
        assert(u.pending.contains(u2.pending[i]));
        let idx = choose|idx: int| 0 <= idx < u.pending.len() && u.pending[idx] == u2.pending[i];
        assert(contains_patch_key(u.patches, pending_key_of(u.pending[idx])));
        assert(u.pending[idx].consumer_client_id != 0 && contains_client_id(
            u.clients,
            u.pending[idx].consumer_client_id,
        ));
    }
}

/// INVARIANT: replacing one user's well-formed state keeps the store well
/// formed.
pub proof fn lemma_store_update_wf(users: Seq<UserView>, ui: int, nu: UserView)
    requires
        store_wf(users),
        0 <= ui < users.len(),
        user_wf(nu),
        nu.user_id == users[ui].user_id,
    ensures
        store_wf(users.update(ui, nu)),
{
    let us2 = users.update(ui, nu);
    assert forall|i: int, j: int| 0 <= i < j < us2.len() implies us2[i].user_id != us2[j].user_id by {
        if i != ui && j != ui {
            assert(us2[i] == users[i] && us2[j] == users[j]);
        } else if i == ui {
            assert(us2[j] == users[j]);
        } else {
            assert(us2[i] == users[i]);
        }
    }
    assert forall|i: int| 0 <= i < us2.len() implies user_wf(#[trigger] us2[i]) by {
        if i != ui {
            assert(us2[i] == users[i]);
        }
    }
}

/// INVARIANT: the empty store is well formed.
pub proof fn lemma_store_new_wf()
    ensures
        store_wf(Seq::<UserView>::empty()),
{
}

/// INVARIANT: bootstrapping a user with a fresh id keeps the store well
/// formed.
pub proof fn lemma_store_bootstrap_wf(users: Seq<UserView>, uid: Seq<char>, created_at: i64)
    requires
        store_wf(users),
        forall|j: int| 0 <= j < users.len() ==> (#[trigger] users[j]).user_id != uid,
    ensures
        store_wf(users.push(bootstrap_view(uid, created_at))),
{
    lemma_bootstrap_wf(uid, created_at);
    let us2 = users.push(bootstrap_view(uid, created_at));
    assert forall|i: int, j: int| 0 <= i < j < us2.len() implies us2[i].user_id != us2[j].user_id by {
        if j < users.len() {
            assert(us2[i] == users[i] && us2[j] == users[j]);
        } else {
            assert(us2[i] == users[i]);
            assert(us2[j] == bootstrap_view(uid, created_at));
        }
    }
    assert forall|i: int| 0 <= i < us2.len() implies user_wf(#[trigger] us2[i]) by {
        if i < users.len() {
            assert(us2[i] == users[i]);
        } else {
            assert(us2[i] == bootstrap_view(uid, created_at));
        }
    }
}

} // verus!
