use jwst_storage::model::{
    CreateUser, Grantee, PermissionType, RefreshToken, StoreError, UpdateWorkspace, UserCred,
    UserLogin, WorkspaceType,
};
use jwst_storage::store::DBContext;

fn signup(name: &str, email: &str) -> CreateUser {
    CreateUser {
        name: name.to_string(),
        password: format!("{}-secret", name),
        email: email.to_string(),
        avatar_url: None,
    }
}

fn email(s: &str) -> String {
    s.to_string()
}

#[test]
fn register_invite_then_register_invitee() {
    let mut db = DBContext::with_sequences(1, 10, 1);
    let alice = db.create_user(signup("alice", "alice@x.com"), 100).unwrap().unwrap();
    assert_eq!(alice.id, 1);
    assert_eq!(alice.email, "alice@x.com");
    let listed = db.get_user_workspaces(1);
    assert_eq!(listed.len(), 1);
    assert_eq!(listed[0].workspace.id, 10);
    assert_eq!(listed[0].workspace.type_, WorkspaceType::Private);
    assert_eq!(listed[0].permission, PermissionType::Owner);

    let ws = db.create_normal_workspace(1, 101).unwrap();
    assert_eq!(ws.id, 11);
    assert_eq!(ws.type_, WorkspaceType::Normal);
    assert!(!ws.public);

    let (grant_id, cred) = db
        .create_permission(&email("bob@x.com"), 11, PermissionType::Write, 102)
        .unwrap()
        .unwrap();
    match cred {
        UserCred::UnRegistered { email } => assert_eq!(email, "bob@x.com"),
        UserCred::Registered(_) => panic!("bob is not registered yet"),
    }

    let bob = db.create_user(signup("bob", "bob@x.com"), 103).unwrap().unwrap();
    assert_eq!(bob.id, 2);
    assert_eq!(db.get_permission(2, 11), Some(PermissionType::Write));
    let members = db.get_workspace_members(11);
    assert_eq!(members.len(), 2);
    let m = members.iter().find(|m| m.id == grant_id).unwrap();
    assert!(!m.accepted);
    assert_eq!(m.type_, PermissionType::Write);
    match &m.user {
        UserCred::Registered(u) => {
            assert_eq!(u.id, 2);
            assert_eq!(u.email, "bob@x.com");
        }
        UserCred::UnRegistered { .. } => panic!("grant was not reconciled"),
    }
}

#[test]
fn registration_provisions_one_private_workspace() {
    let mut db = DBContext::new();
    let u = db.create_user(signup("carol", "carol@x.com"), 5).unwrap().unwrap();
    let listed = db.get_user_workspaces(u.id);
    let private: Vec<_> = listed
        .iter()
        .filter(|w| w.workspace.type_ == WorkspaceType::Private)
        .collect();
    assert_eq!(private.len(), 1);
    assert_eq!(private[0].permission, PermissionType::Owner);
    let members = db.get_workspace_members(private[0].workspace.id);
    assert_eq!(members.len(), 1);
    assert_eq!(members[0].type_, PermissionType::Owner);
    assert!(members[0].accepted);
    assert_eq!(members[0].created_at, 5);
}

#[test]
fn duplicate_email_registration_leaves_no_trace() {
    let mut db = DBContext::new();
    db.create_user(signup("a", "a@x.com"), 1).unwrap().unwrap();
    let (users, workspaces, grants) = (db.user_count(), db.workspace_count(), db.permission_count());
    assert!(db.create_user(signup("a2", "a@x.com"), 2).unwrap().is_none());
    assert_eq!(db.user_count(), users);
    assert_eq!(db.workspace_count(), workspaces);
    assert_eq!(db.permission_count(), grants);
}

#[test]
fn registration_fails_when_ids_are_exhausted() {
    let mut db = DBContext::with_sequences(i32::MAX, 1, 1);
    let u = db.create_user(signup("last", "last@x.com"), 1).unwrap().unwrap();
    assert_eq!(u.id, i32::MAX);
    assert_eq!(db.create_user(signup("next", "next@x.com"), 2).unwrap_err(), StoreError::IdsExhausted);
    assert_eq!(db.user_count(), 1);
    assert_eq!(db.workspace_count(), 1);
}

#[test]
fn workspace_creation_needs_a_user() {
    let mut db = DBContext::new();
    assert_eq!(db.create_normal_workspace(7, 1).unwrap_err(), StoreError::UnknownUser);
    assert_eq!(db.workspace_count(), 0);
    assert_eq!(db.create_workspace(7, WorkspaceType::Private, 1).unwrap_err(), StoreError::UnknownUser);
}

#[test]
fn update_only_normal_workspaces() {
    let mut db = DBContext::with_sequences(1, 10, 1);
    db.create_user(signup("alice", "alice@x.com"), 1).unwrap().unwrap();
    db.create_normal_workspace(1, 2).unwrap();
    let w = db.update_workspace(11, UpdateWorkspace { public: true }).unwrap();
    assert!(w.public);
    assert_eq!(w.id, 11);
    assert_eq!(w.type_, WorkspaceType::Normal);
    assert!(db.update_workspace(10, UpdateWorkspace { public: true }).is_none());
    assert!(db.update_workspace(99, UpdateWorkspace { public: true }).is_none());
    let d = db.get_workspace_by_id(10).unwrap().unwrap();
    assert!(!d.workspace.public);
}

#[test]
fn nonce_rotation_invalidates_old_refresh_tokens() {
    let mut db = DBContext::new();
    let u = db.create_user(signup("dan", "dan@x.com"), 1).unwrap().unwrap();
    let old = RefreshToken { user_id: u.id, token_nonce: 0 };
    assert!(db.verify_refresh_token(&old));
    let n = db.rotate_token_nonce(u.id).unwrap();
    assert_eq!(n, 1);
    let new = RefreshToken { user_id: u.id, token_nonce: n };
    assert!(db.refresh_token(old).is_none());
    assert!(!db.verify_refresh_token(&old));
    let r = db.refresh_token(new).unwrap();
    assert_eq!(r.token_nonce, 1);
    assert_eq!(r.user.id, u.id);
    assert!(db.verify_refresh_token(&new));
    assert!(db.rotate_token_nonce(999).is_none());
}

#[test]
fn login_checks_the_secret() {
    let mut db = DBContext::new();
    db.create_user(signup("eve", "eve@x.com"), 1).unwrap().unwrap();
    let ok = db
        .user_login(UserLogin { email: email("eve@x.com"), password: email("eve-secret") })
        .unwrap();
    assert_eq!(ok.user.name, "eve");
    assert_eq!(ok.token_nonce, 0);
    assert!(db
        .user_login(UserLogin { email: email("eve@x.com"), password: email("wrong") })
        .is_none());
    assert!(db
        .user_login(UserLogin { email: email("nobody@x.com"), password: email("eve-secret") })
        .is_none());
    assert_eq!(db.get_user_by_email(&email("eve@x.com")).unwrap().name, "eve");
    assert!(db.get_user_by_email(&email("nobody@x.com")).is_none());
}

#[test]
fn invite_twice_yields_one_grant() {
    let mut db = DBContext::new();
    let a = db.create_user(signup("a", "a@x.com"), 1).unwrap().unwrap();
    let ws = db.create_normal_workspace(a.id, 2).unwrap();
    let first = db.create_permission(&email("z@x.com"), ws.id, PermissionType::Read, 3).unwrap();
    assert!(first.is_some());
    let grants = db.permission_count();
    let second = db.create_permission(&email("z@x.com"), ws.id, PermissionType::Read, 4).unwrap();
    assert!(second.is_none());
    assert_eq!(db.permission_count(), grants);
    let members = db.get_workspace_members(ws.id);
    let invited: Vec<_> = members
        .iter()
        .filter(|m| matches!(&m.user, UserCred::UnRegistered { email } if email == "z@x.com"))
        .collect();
    assert_eq!(invited.len(), 1);
}

#[test]
fn invite_registered_user_and_private_workspace() {
    let mut db = DBContext::new();
    let a = db.create_user(signup("a", "a@x.com"), 1).unwrap().unwrap();
    let b = db.create_user(signup("b", "b@x.com"), 1).unwrap().unwrap();
    let ws = db.create_normal_workspace(a.id, 2).unwrap();
    let (_, cred) = db.create_permission(&email("b@x.com"), ws.id, PermissionType::Admin, 3).unwrap().unwrap();
    match cred {
        UserCred::Registered(u) => assert_eq!(u.id, b.id),
        UserCred::UnRegistered { .. } => panic!("b is registered"),
    }
    assert_eq!(db.get_permission(b.id, ws.id), Some(PermissionType::Admin));
    let private_a = db.get_user_workspaces(a.id)[0].workspace.id;
    let grants = db.permission_count();
    assert!(db.create_permission(&email("b@x.com"), private_a, PermissionType::Read, 4).unwrap().is_none());
    assert!(db.create_permission(&email("q@x.com"), 999, PermissionType::Read, 4).unwrap().is_none());
    assert_eq!(db.permission_count(), grants);
}

#[test]
fn invite_fails_when_grant_ids_are_exhausted() {
    let mut db = DBContext::with_sequences(1, 1, i64::MAX);
    let a = db.create_user(signup("a", "a@x.com"), 1).unwrap().unwrap();
    assert_eq!(db.create_normal_workspace(a.id, 2).unwrap_err(), StoreError::IdsExhausted);
    let mut db = DBContext::with_sequences(1, 1, i64::MAX - 2);
    let a = db.create_user(signup("a", "a@x.com"), 1).unwrap().unwrap();
    let ws = db.create_normal_workspace(a.id, 2).unwrap();
    let (g, _) = db.create_permission(&email("b@x.com"), ws.id, PermissionType::Read, 3).unwrap().unwrap();
    assert_eq!(g, i64::MAX);
    assert_eq!(
        db.create_permission(&email("c@x.com"), ws.id, PermissionType::Read, 4).unwrap_err(),
        StoreError::IdsExhausted
    );
    assert!(db.create_permission(&email("b@x.com"), ws.id, PermissionType::Read, 4).unwrap().is_none());
}

#[test]
fn read_access_is_grant_or_public() {
    let mut db = DBContext::new();
    let a = db.create_user(signup("a", "a@x.com"), 1).unwrap().unwrap();
    let b = db.create_user(signup("b", "b@x.com"), 1).unwrap().unwrap();
    let ws = db.create_normal_workspace(a.id, 2).unwrap();
    assert!(db.can_read_workspace(a.id, ws.id));
    assert!(!db.can_read_workspace(b.id, ws.id));
    assert!(!db.can_read_workspace(42, ws.id));
    db.update_workspace(ws.id, UpdateWorkspace { public: true }).unwrap();
    assert!(db.can_read_workspace(b.id, ws.id));
    assert!(db.can_read_workspace(42, ws.id));
    db.update_workspace(ws.id, UpdateWorkspace { public: false }).unwrap();
    db.create_permission(&email("b@x.com"), ws.id, PermissionType::Read, 3).unwrap().unwrap();
    assert!(db.can_read_workspace(b.id, ws.id));
}

#[test]
fn owner_grant_survives_revoke_by_identity() {
    let mut db = DBContext::new();
    let a = db.create_user(signup("a", "a@x.com"), 1).unwrap().unwrap();
    let b = db.create_user(signup("b", "b@x.com"), 1).unwrap().unwrap();
    let ws = db.create_normal_workspace(a.id, 2).unwrap();
    db.create_permission(&email("b@x.com"), ws.id, PermissionType::Write, 3).unwrap().unwrap();
    assert!(!db.delete_permission_by_query(a.id, ws.id));
    assert_eq!(db.get_permission(a.id, ws.id), Some(PermissionType::Owner));
    assert_eq!(db.get_workspace_members(ws.id).len(), 2);
    assert!(db.delete_permission_by_query(b.id, ws.id));
    assert_eq!(db.get_permission(b.id, ws.id), None);
    assert!(!db.delete_permission_by_query(b.id, ws.id));
    assert_eq!(db.get_workspace_members(ws.id).len(), 1);
}

#[test]
fn workspace_detail_and_missing_owner() {
    let mut db = DBContext::with_sequences(1, 10, 1);
    let a = db.create_user(signup("a", "a@x.com"), 1).unwrap().unwrap();
    db.create_user(signup("b", "b@x.com"), 1).unwrap().unwrap();
    let private = db.get_workspace_by_id(10).unwrap().unwrap();
    assert!(private.owner.is_none());
    assert_eq!(private.member_count, 0);
    assert_eq!(private.workspace.type_, WorkspaceType::Private);

    let ws = db.create_normal_workspace(a.id, 2).unwrap();
    let (g, _) = db.create_permission(&email("b@x.com"), ws.id, PermissionType::Read, 3).unwrap().unwrap();
    let d = db.get_workspace_by_id(ws.id).unwrap().unwrap();
    assert_eq!(d.owner.as_ref().unwrap().id, a.id);
    assert_eq!(d.member_count, 1);
    let accepted = db.accept_permission(g).unwrap();
    assert!(accepted.accepted);
    assert_eq!(accepted.id, g);
    assert_eq!(db.get_workspace_by_id(ws.id).unwrap().unwrap().member_count, 2);
    assert!(db.accept_permission(9999).is_none());
    assert!(db.get_workspace_by_id(9999).unwrap().is_none());

    let owner_grant = db
        .get_workspace_members(ws.id)
        .iter()
        .find(|m| m.type_ == PermissionType::Owner)
        .unwrap()
        .id;
    assert!(db.delete_permission(owner_grant));
    assert!(!db.delete_permission(owner_grant));
    assert_eq!(db.get_workspace_by_id(ws.id).unwrap_err(), StoreError::OwnerMissing);
    assert_eq!(db.get_workspace_owner(ws.id).unwrap_err(), StoreError::OwnerMissing);
}

#[test]
fn delete_workspace_cascades_grants() {
    let mut db = DBContext::with_sequences(1, 10, 1);
    let a = db.create_user(signup("a", "a@x.com"), 1).unwrap().unwrap();
    let ws = db.create_normal_workspace(a.id, 2).unwrap();
    db.create_permission(&email("z@x.com"), ws.id, PermissionType::Read, 3).unwrap().unwrap();
    assert_eq!(db.permission_count(), 3);
    assert!(!db.delete_workspace(10));
    assert!(db.delete_workspace(ws.id));
    assert_eq!(db.permission_count(), 1);
    assert_eq!(db.workspace_count(), 1);
    assert!(db.get_workspace_members(ws.id).is_empty());
    assert!(!db.delete_workspace(ws.id));
    assert_eq!(db.get_user_workspaces(a.id).len(), 1);
}

#[test]
fn reconcile_conflict_and_unknown_user() {
    let mut db = DBContext::new();
    let a = db.create_user(signup("a", "a@x.com"), 1).unwrap().unwrap();
    let b = db.create_user(signup("b", "b@x.com"), 1).unwrap().unwrap();
    let ws = db.create_normal_workspace(a.id, 2).unwrap();
    db.create_permission(&email("b@x.com"), ws.id, PermissionType::Read, 3).unwrap().unwrap();
    db.create_permission(&email("alias@x.com"), ws.id, PermissionType::Write, 3).unwrap().unwrap();
    let grants = db.permission_count();
    assert_eq!(db.update_cred(b.id, &email("alias@x.com")).unwrap_err(), StoreError::Conflict);
    assert_eq!(db.update_cred(77, &email("alias@x.com")).unwrap_err(), StoreError::UnknownUser);
    assert_eq!(db.permission_count(), grants);
    let c = db.create_user(signup("c", "c@x.com"), 4).unwrap().unwrap();
    db.update_cred(c.id, &email("alias@x.com")).unwrap();
    assert_eq!(db.get_permission(c.id, ws.id), Some(PermissionType::Write));
}

#[test]
fn role_lookup_by_grant_id() {
    let mut db = DBContext::new();
    let a = db.create_user(signup("a", "a@x.com"), 1).unwrap().unwrap();
    let b = db.create_user(signup("b", "b@x.com"), 1).unwrap().unwrap();
    let ws = db.create_normal_workspace(a.id, 2).unwrap();
    let (g, _) = db.create_permission(&email("b@x.com"), ws.id, PermissionType::Write, 3).unwrap().unwrap();
    assert_eq!(db.get_permission_by_permission_id(a.id, g), Some(PermissionType::Owner));
    assert_eq!(db.get_permission_by_permission_id(b.id, g), Some(PermissionType::Write));
    assert_eq!(db.get_permission_by_permission_id(99, g), None);
    assert_eq!(db.get_permission_by_permission_id(a.id, 12345), None);
}

#[test]
fn user_in_workspace_by_email() {
    let mut db = DBContext::new();
    let a = db.create_user(signup("a", "a@x.com"), 1).unwrap().unwrap();
    let ws = db.create_normal_workspace(a.id, 2).unwrap();
    db.create_permission(&email("z@x.com"), ws.id, PermissionType::Read, 3).unwrap().unwrap();
    let r = db.get_user_in_workspace_by_email(ws.id, &email("a@x.com"));
    assert!(r.in_workspace);
    assert!(matches!(r.user, UserCred::Registered(ref u) if u.id == a.id));
    let r = db.get_user_in_workspace_by_email(ws.id, &email("z@x.com"));
    assert!(r.in_workspace);
    assert!(matches!(r.user, UserCred::UnRegistered { ref email } if email == "z@x.com"));
    let r = db.get_user_in_workspace_by_email(ws.id, &email("y@x.com"));
    assert!(!r.in_workspace);
}

#[test]
fn roles_are_ordered() {
    assert!(PermissionType::Owner.at_least(PermissionType::Write));
    assert!(PermissionType::Write.at_least(PermissionType::Write));
    assert!(!PermissionType::Read.at_least(PermissionType::Write));
    assert!(PermissionType::Admin.at_least(PermissionType::Read));
    let g = Grantee::Email(email("x@x.com"));
    assert!(matches!(g.copy(), Grantee::Email(ref e) if e == "x@x.com"));
}

#[test]
fn nonce_wraps_after_its_largest_value() {
    let mut db = DBContext::new();
    let u = db.create_user(signup("w", "w@x.com"), 1).unwrap().unwrap();
    let mut last = 0i16;
    for _ in 0..i16::MAX {
        last = db.rotate_token_nonce(u.id).unwrap();
    }
    assert_eq!(last, i16::MAX);
    assert_eq!(db.rotate_token_nonce(u.id), Some(0));
    assert!(db.verify_refresh_token(&RefreshToken { user_id: u.id, token_nonce: 0 }));
}
