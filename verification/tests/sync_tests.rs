use sync_engine::api;
use sync_engine::api::IdToken;
use sync_engine::errors::{ErrorStatus, SyncError};
use sync_engine::model::{Patch, PatchKey};
use sync_engine::store::Store;

fn patch(c: i64, s: i64, p: i64, parent: PatchKey, t: i64) -> Patch {
    Patch {
        client_id: c,
        session_id: s,
        patch_id: p,
        parent_client_id: parent.client_id,
        parent_session_id: parent.session_id,
        parent_patch_id: parent.patch_id,
        patch: "{\"op\":\"noop\"}".to_string(),
        created_at: t,
    }
}

fn root() -> PatchKey {
    PatchKey { client_id: 0, session_id: 0, patch_id: 0 }
}

#[test]
fn bootstrap_creates_root_state() {
    let mut st = Store::new();
    let u = "user-a".to_string();
    assert!(st.bootstrap_user(&u, 5).is_ok());
    assert!(matches!(st.bootstrap_user(&u, 5), Err(SyncError::AlreadyExists)));
    assert_eq!(st.users.len(), 1);
    assert_eq!(st.users[0].user_id, "user-a");
    assert_eq!(st.users[0].seq_last_value, 0);
    assert_eq!(st.users[0].clients.len(), 1);
    assert_eq!(st.users[0].clients[0].client_id, 0);
    assert_eq!(st.users[0].clients[0].name, "System");
    assert_eq!(st.users[0].patches.len(), 1);
    assert_eq!(st.users[0].head, root());
    assert_eq!(st.users[0].pending.len(), 0);
    assert_eq!(
        st.users[0].patches[0].patch,
        "[{\"op\":\"replace\",\"path\":\"\",\"value\":{\"data\":null}}]"
    );
    assert_eq!(st.users[0].patches[0].created_at, 5);
}

#[test]
fn register_client_allocates_increasing_ids() {
    let mut st = Store::new();
    let u = "u".to_string();
    st.bootstrap_user(&u, 1).unwrap();
    assert_eq!(st.register_client(&u, "A".to_string()).unwrap(), 1);
    assert_eq!(st.register_client(&u, "B".to_string()).unwrap(), 2);
    assert_eq!(st.register_client(&u, "C".to_string()).unwrap(), 3);
    assert_eq!(st.users[0].seq_last_value, 3);
    let missing = "missing".to_string();
    assert!(matches!(st.register_client(&missing, "X".to_string()), Err(SyncError::NotFound)));
}

#[test]
fn idempotent_patch_insert() {
    // Pushing the same patch twice stores one row and creates no new
    // pending rows on the second push.
    let mut st = Store::new();
    let u = "u".to_string();
    st.bootstrap_user(&u, 1).unwrap();
    let a = st.register_client(&u, "A".to_string()).unwrap();
    st.register_client(&u, "B".to_string()).unwrap();
    let before_patches = st.users[0].patches.len();
    let before_pending = st.users[0].pending.len();
    let batch = vec![patch(a, 1, 1, root(), 10)];
    st.create_patches_for_user(&u, &batch).unwrap();
    assert_eq!(st.users[0].patches.len(), before_patches + 1);
    assert_eq!(st.users[0].pending.len(), before_pending + 1);
    let after_first_pending = st.users[0].pending.len();
    st.create_patches_for_user(&u, &batch).unwrap();
    assert_eq!(st.users[0].patches.len(), before_patches + 1);
    assert_eq!(st.users[0].pending.len(), after_first_pending);
}

#[test]
fn fanout_completeness() {
    // With clients {0, A, B, C}, a patch by A creates exactly two new
    // pending rows, for B and C.
    let mut st = Store::new();
    let u = "u".to_string();
    st.bootstrap_user(&u, 1).unwrap();
    let a = st.register_client(&u, "A".to_string()).unwrap();
    let b = st.register_client(&u, "B".to_string()).unwrap();
    let c = st.register_client(&u, "C".to_string()).unwrap();
    let before = st.users[0].pending.len();
    st.create_patches_for_user(&u, &vec![patch(a, 7, 1, root(), 20)]).unwrap();
    assert_eq!(st.users[0].pending.len(), before + 2);
    let mut consumers: Vec<i64> = st.users[0]
        .pending
        .iter()
        .filter(|r| r.producer_client_id == a && r.producer_session_id == 7)
        .map(|r| r.consumer_client_id)
        .collect();
    consumers.sort();
    assert_eq!(consumers, vec![b, c]);
}

#[test]
fn fanin_completeness() {
    // Registering a new client for a user with 5 existing patches creates
    // exactly 5 new pending rows for it.
    let mut st = Store::new();
    let u = "u".to_string();
    st.bootstrap_user(&u, 1).unwrap();
    let a = st.register_client(&u, "A".to_string()).unwrap();
    for i in 1..=4 {
        st.create_patches_for_user(&u, &vec![patch(a, 1, i, root(), 30 + i)]).unwrap();
    }
    assert_eq!(st.users[0].patches.len(), 5);
    let before = st.users[0].pending.len();
    let d = st.register_client(&u, "D".to_string()).unwrap();
    assert_eq!(st.users[0].pending.len(), before + 5);
    let for_d = st.users[0].pending.iter().filter(|r| r.consumer_client_id == d).count();
    assert_eq!(for_d, 5);
}

#[test]
fn cas_correctness() {
    // A stale expected_previous leaves the head unchanged and reports
    // not-updated; the correct current value applies and reports updated.
    let mut st = Store::new();
    let u = "u".to_string();
    st.bootstrap_user(&u, 1).unwrap();
    let a = st.register_client(&u, "A".to_string()).unwrap();
    let k = PatchKey { client_id: a, session_id: 1, patch_id: 1 };
    st.create_patches_for_user(&u, &vec![patch(a, 1, 1, root(), 40)]).unwrap();
    let stale = PatchKey { client_id: 9, session_id: 9, patch_id: 9 };
    assert!(!st.update_head_if_not_modified(&u, k, stale));
    assert_eq!(st.users[0].head, root());
    assert!(st.update_head_if_not_modified(&u, k, root()));
    assert_eq!(st.users[0].head, k);
    let head = st.get_head(&u).unwrap();
    assert_eq!(head.head_client_id, a);
    assert_eq!(head.head_session_id, 1);
    assert_eq!(head.head_patch_id, 1);
    assert_eq!(head.created_at, 40);
    assert_eq!(head.name, "A");
}

#[test]
fn unconditional_head_update() {
    let mut st = Store::new();
    let u = "u".to_string();
    st.bootstrap_user(&u, 1).unwrap();
    let k = PatchKey { client_id: 5, session_id: 6, patch_id: 7 };
    st.update_head(&u, k);
    assert_eq!(st.users[0].head, k);
    // the triple no longer names a stored patch, so the joined read fails
    assert!(matches!(st.get_head(&u), Err(SyncError::NotFound)));
    let missing = "missing".to_string();
    assert!(matches!(st.get_head(&missing), Err(SyncError::NotFound)));
}

#[test]
fn ack_idempotence() {
    // Deleting a pending key twice, or one that never existed, never
    // errors and is a no-op after the first deletion.
    let mut st = Store::new();
    let u = "u".to_string();
    st.bootstrap_user(&u, 1).unwrap();
    let a = st.register_client(&u, "A".to_string()).unwrap();
    let b = st.register_client(&u, "B".to_string()).unwrap();
    st.create_patches_for_user(&u, &vec![patch(a, 1, 1, root(), 50)]).unwrap();
    let key = PatchKey { client_id: a, session_id: 1, patch_id: 1 };
    let before = st.users[0].pending.len();
    st.delete_pending_patches(&u, b, &vec![key]);
    assert_eq!(st.users[0].pending.len(), before - 1);
    st.delete_pending_patches(&u, b, &vec![key]);
    assert_eq!(st.users[0].pending.len(), before - 1);
    let absent = PatchKey { client_id: 42, session_id: 42, patch_id: 42 };
    st.delete_pending_patches(&u, b, &vec![absent]);
    assert_eq!(st.users[0].pending.len(), before - 1);
}

#[test]
fn pull_respects_limit() {
    let mut st = Store::new();
    let u = "u".to_string();
    st.bootstrap_user(&u, 1).unwrap();
    let a = st.register_client(&u, "A".to_string()).unwrap();
    let b = st.register_client(&u, "B".to_string()).unwrap();
    for i in 1..=3 {
        st.create_patches_for_user(&u, &vec![patch(a, 1, i, root(), 60 + i)]).unwrap();
    }
    // B holds the root fan-in row plus the three pushed patches
    assert_eq!(st.get_pending_patches(&u, b, 10).unwrap().len(), 4);
    assert_eq!(st.get_pending_patches(&u, b, 2).unwrap().len(), 2);
    assert_eq!(st.get_pending_patches(&u, b, 0).unwrap().len(), 0);
    assert!(matches!(st.get_pending_patches(&u, b, -1), Err(SyncError::InvalidLimit)));
    let missing = "missing".to_string();
    assert_eq!(st.get_pending_patches(&missing, b, 10).unwrap().len(), 0);
}

#[test]
fn authorize_scopes_requests() {
    let token = IdToken { user_id: "me".to_string() };
    assert!(token.authorize(&"me".to_string()).is_ok());
    assert_eq!(token.authorize(&"other".to_string()), Err(ErrorStatus::Status400));
    let mut st = Store::new();
    let path = api::UsersUserIdClientsPostPath { user_id: "other".to_string() };
    let r = api::users_user_id_clients_post(
        &mut st,
        &token,
        &path,
        api::CreateClientRequest { name: "A".to_string() },
    );
    assert!(matches!(r, Err(ErrorStatus::Status400)));
    assert_eq!(st.users.len(), 0);
}

#[test]
fn end_to_end_sync() {
    // Full run: bootstrap, register two devices, push from one, pull and
    // acknowledge from the other.  The puller also holds the root patch,
    // back-filled when it registered.
    let mut st = Store::new();
    let token = IdToken { user_id: "u-e2e".to_string() };
    let uid = "u-e2e".to_string();
    let r = api::users_post(&mut st, &token, api::CreateUserRequest {});
    assert!(matches!(r, Ok(api::UsersPost::S201(_))));
    let a = match api::users_user_id_clients_post(
        &mut st,
        &token,
        &api::UsersUserIdClientsPostPath { user_id: uid.clone() },
        api::CreateClientRequest { name: "A".to_string() },
    ) {
        Ok(api::UsersUserIdClientsPost::S201(resp)) => resp.client_id,
        r => panic!("register A failed: {:?}", r),
    };
    let b = match api::users_user_id_clients_post(
        &mut st,
        &token,
        &api::UsersUserIdClientsPostPath { user_id: uid.clone() },
        api::CreateClientRequest { name: "B".to_string() },
    ) {
        Ok(api::UsersUserIdClientsPost::S201(resp)) => resp.client_id,
        r => panic!("register B failed: {:?}", r),
    };
    assert_eq!((a, b), (1, 2));
    let p1 = PatchKey { client_id: a, session_id: 1, patch_id: 1 };
    let push = api::users_user_id_patches_batch_post(
        &mut st,
        &token,
        &api::UsersUserIdPatchesBatchPostPath { user_id: uid.clone() },
        api::CreatePatchesRequest {
            patches: vec![api::Patch {
                patch_key: p1,
                parent_patch_key: root(),
                created_at: 99,
                patch: "{\"op\":\"noop\"}".to_string(),
            }],
        },
    );
    assert!(matches!(push, Ok(api::UsersUserIdPatchesBatchPost::S201(_))));
    let pulled = match api::users_user_id_clients_client_id_pending_patches_get(
        &st,
        &token,
        &api::UsersUserIdClientsClientIdPendingPatchesGetPath {
            user_id: uid.clone(),
            client_id: b,
        },
        &api::UsersUserIdClientsClientIdPendingPatchesGetQuery { limit: 10 },
    ) {
        Ok(api::UsersUserIdClientsClientIdPendingPatchesGet::S200(resp)) => resp.patches,
        r => panic!("pull failed: {:?}", r),
    };
    let mut keys: Vec<PatchKey> = pulled.iter().map(|p| p.patch_key).collect();
    keys.sort_by_key(|k| (k.client_id, k.session_id, k.patch_id));
    assert_eq!(keys, vec![root(), p1]);
    assert!(pulled.iter().any(|p| p.patch_key == p1 && p.created_at == 99));
    let del = api::users_user_id_clients_client_id_pending_patches_batch_delete(
        &mut st,
        &token,
        &api::UsersUserIdClientsClientIdPendingPatchesBatchDeletePath {
            user_id: uid.clone(),
            client_id: b,
        },
        api::DeletePendingPatchesRequest { patch_keys: keys },
    );
    assert!(matches!(del, Ok(api::UsersUserIdClientsClientIdPendingPatchesBatchDelete::S200(_))));
    let again = match api::users_user_id_clients_client_id_pending_patches_get(
        &st,
        &token,
        &api::UsersUserIdClientsClientIdPendingPatchesGetPath {
            user_id: uid.clone(),
            client_id: b,
        },
        &api::UsersUserIdClientsClientIdPendingPatchesGetQuery { limit: 10 },
    ) {
        Ok(api::UsersUserIdClientsClientIdPendingPatchesGet::S200(resp)) => resp.patches,
        r => panic!("second pull failed: {:?}", r),
    };
    assert!(again.is_empty());
    // advance the head to the applied patch through the API
    let put = api::users_user_id_head_put(
        &mut st,
        &token,
        &api::UsersUserIdHeadPutPath { user_id: uid.clone() },
        api::UpdateHeadRequest { patch_key: p1, header_if_match: Some(root()) },
    );
    assert!(matches!(
        put,
        Ok(api::UsersUserIdHeadPut::S200(api::UpdateHeadResponse { updated: true }))
    ));
    let stale = api::users_user_id_head_put(
        &mut st,
        &token,
        &api::UsersUserIdHeadPutPath { user_id: uid.clone() },
        api::UpdateHeadRequest { patch_key: root(), header_if_match: Some(root()) },
    );
    assert!(matches!(
        stale,
        Ok(api::UsersUserIdHeadPut::S200(api::UpdateHeadResponse { updated: false }))
    ));
    let head = match api::users_user_id_head_get(
        &st,
        &token,
        &api::UsersUserIdHeadGetPath { user_id: uid.clone() },
    ) {
        Ok(api::UsersUserIdHeadGet::S200(resp)) => resp,
        r => panic!("head get failed: {:?}", r),
    };
    assert_eq!(head.client_id, a);
    assert_eq!(head.name, "A");
    assert_eq!(head.created_at, 99);
}

#[test]
fn health_and_limits() {
    let health = api::sys_health_get();
    let api::SysHealthGet::S200(resp) = health;
    assert_eq!(resp.status, "ok");
    let mut st = Store::new();
    let token = IdToken { user_id: "u".to_string() };
    let r = api::users_post(&mut st, &token, api::CreateUserRequest {});
    assert!(r.is_ok());
    let neg = api::users_user_id_clients_client_id_pending_patches_get(
        &st,
        &token,
        &api::UsersUserIdClientsClientIdPendingPatchesGetPath {
            user_id: "u".to_string(),
            client_id: 0,
        },
        &api::UsersUserIdClientsClientIdPendingPatchesGetQuery { limit: -1 },
    );
    assert!(matches!(neg, Err(ErrorStatus::Status500)));
    let dup = api::users_post(&mut st, &token, api::CreateUserRequest {});
    assert!(matches!(dup, Err(ErrorStatus::Status500)));
}
