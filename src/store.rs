//! The store itself: a unit of work over in-memory tables, with every
//! operation specified against the model of `tables`.
use vstd::prelude::*;

use crate::model::{
    CreateUser, Grantee, Member, Permission, PermissionType, RefreshToken, StoreError, UpdateWorkspace,
    User, UserCred, UserInWorkspace, UserLogin, UserRecord, UserWithNonce, Workspace, WorkspaceDetail,
    WorkspaceType, WorkspaceWithPermission,
};
use crate::tables::{
    Tables, grantee_for, invite_outcome, invited, is_normal_workspace, is_owner_grant, is_revocable,
    lemma_delete_workspace_wf, lemma_invited_wf, lemma_new_user_wf, lemma_new_workspace_wf,
    lemma_reconciled_wf, lemma_registration, lemma_remove_grant_wf, lemma_same_identities, lemma_same_keys,
    accepted_on, granted_on, granted_to, has_sole_private_workspace, listing, membership, new_user_record,
    next_nonce, not_on, reconcile_conflicts, reconciled, registered, revoke_outcome, same_identity,
    user_of, with_new_user, with_new_workspace, with_reconciled, workspace_of, listed_for_user, member_of,
};

verus! {

/// An in-memory relational store of users, workspaces and grants.
///
/// A `&mut DBContext` is the unit of work: a compound operation checks every
/// condition it can fail on before its first write, so that it either
/// completes or changes nothing.
pub struct DBContext {
    users: Vec<UserRecord>,
    workspaces: Vec<Workspace>,
    permissions: Vec<Permission>,
    next_user_id: i64,
    next_workspace_id: i128,
    next_permission_id: i128,
}

impl View for DBContext {
    type V = Tables;

    closed spec fn view(&self) -> Tables {
        Tables {
            users: self.users@,
            workspaces: self.workspaces@,
            permissions: self.permissions@,
            next_user_id: self.next_user_id as int,
            next_workspace_id: self.next_workspace_id as int,
            next_permission_id: self.next_permission_id as int,
        }
    }
}


fn same_grantee(a: &Grantee, b: &Grantee) -> (r: bool)
    ensures
        r == same_identity(*a, *b),
{
    match (a, b) {
        (Grantee::User(x), Grantee::User(y)) => *x == *y,
        (Grantee::Email(x), Grantee::Email(y)) => *x == *y,
        _ => false,
    }
}

fn reconcile_one(p: &Permission, user_id: i32, email: &String) -> (r: Permission)
    ensures
        r == reconciled(*p, user_id, email@),
{
    let grantee = match &p.grantee {
        Grantee::Email(e) => if *e == *email {
            Grantee::User(user_id)
        } else {
            Grantee::Email(e.clone())
        },
        Grantee::User(u) => Grantee::User(*u),
    };
    Permission {
        id: p.id,
        workspace_id: p.workspace_id,
        grantee,
        type_: p.type_,
        accepted: p.accepted,
        created_at: p.created_at,
    }
}

impl DBContext {
    /// An empty store whose id sequences all start at 1.
    pub fn new() -> (r: DBContext)
        ensures
            r@.wf(),
            r@.users.len() == 0,
            r@.workspaces.len() == 0,
            r@.permissions.len() == 0,
            r@.next_user_id == 1,
            r@.next_workspace_id == 1,
            r@.next_permission_id == 1,
    {
        DBContext::with_sequences(1, 1, 1)
    }

    /// An empty store whose id sequences start at the given values.
    pub fn with_sequences(first_user_id: i32, first_workspace_id: i64, first_permission_id: i64) -> (r: DBContext)
        ensures
            r@.wf(),
            r@.users.len() == 0,
            r@.workspaces.len() == 0,
            r@.permissions.len() == 0,
            r@.next_user_id == first_user_id,
            r@.next_workspace_id == first_workspace_id,
            r@.next_permission_id == first_permission_id,
    {
        DBContext {
            users: Vec::new(),
            workspaces: Vec::new(),
            permissions: Vec::new(),
            next_user_id: first_user_id as i64,
            next_workspace_id: first_workspace_id as i128,
            next_permission_id: first_permission_id as i128,
        }
    }

    /// The user rows, in insertion order.
    pub fn users(&self) -> (r: &Vec<UserRecord>)
        ensures
            r@ == self@.users,
    {
        &self.users
    }

    /// The workspace rows, in insertion order.
    pub fn workspaces(&self) -> (r: &Vec<Workspace>)
        ensures
            r@ == self@.workspaces,
    {
        &self.workspaces
    }

    /// The grant rows, in insertion order.
    pub fn permissions(&self) -> (r: &Vec<Permission>)
        ensures
            r@ == self@.permissions,
    {
        &self.permissions
    }

    /// The number of user rows.
    pub fn user_count(&self) -> (r: usize)
        ensures
            r == self@.users.len(),
    {
        self.users.len()
    }

    /// The number of workspace rows.
    pub fn workspace_count(&self) -> (r: usize)
        ensures
            r == self@.workspaces.len(),
    {
        self.workspaces.len()
    }

    /// The number of grant rows.
    pub fn permission_count(&self) -> (r: usize)
        ensures
            r == self@.permissions.len(),
    {
        self.permissions.len()
    }

    fn find_user_by_email(&self, email: &String) -> (r: Option<usize>)
        ensures
            match r {
                Some(i) => i < self@.users.len() && self@.users[i as int].user.email@ == email@,
                None => !self@.has_email(email@),
            },
    {
        let mut i: usize = 0;
        while i < self.users.len()
            invariant
                i <= self.users@.len(),
                forall|k: int| 0 <= k < i ==> self.users@[k].user.email@ != email@,
            decreases self.users@.len() - i,
        {
            if self.users[i].user.email == *email {
                return Some(i);
            }
            i = i + 1;
        }
        None
    }

    fn find_user_by_id(&self, user_id: i32) -> (r: Option<usize>)
        ensures
            match r {
                Some(i) => i < self@.users.len() && self@.users[i as int].user.id == user_id,
                None => !self@.has_user_id(user_id),
            },
    {
        let mut i: usize = 0;
        while i < self.users.len()
            invariant
                i <= self.users@.len(),
                forall|k: int| 0 <= k < i ==> self.users@[k].user.id != user_id,
            decreases self.users@.len() - i,
        {
            if self.users[i].user.id == user_id {
                return Some(i);
            }
            i = i + 1;
        }
        None
    }

    /// Creates a workspace of kind `ws_type`, not public, and an accepted Owner
    /// grant binding `user_id` to it. Fails without change when no user has
    /// that id or an id sequence is exhausted.
    pub fn create_workspace(&mut self, user_id: i32, ws_type: WorkspaceType, now: i64) -> (r: Result<
        Workspace,
        StoreError,
    >)
        requires
            old(self)@.wf(),
        ensures
            final(self)@.wf(),
            r == Err::<Workspace, StoreError>(StoreError::UnknownUser) <==> !old(self)@.has_user_id(user_id),
            r == Err::<Workspace, StoreError>(StoreError::IdsExhausted) <==> old(self)@.has_user_id(user_id) && (
            old(self)@.next_workspace_id > i64::MAX || old(self)@.next_permission_id > i64::MAX),
            r is Ok <==> old(self)@.has_user_id(user_id) && old(self)@.next_workspace_id <= i64::MAX
                && old(self)@.next_permission_id <= i64::MAX,
            r is Err ==> final(self)@ == old(self)@,
            r matches Ok(w) ==> w == (Workspace {
                id: old(self)@.next_workspace_id as i64,
                public: false,
                type_: ws_type,
                created_at: now,
            }) && final(self)@ == with_new_workspace(old(self)@, user_id, ws_type, now),
    {
        if self.find_user_by_id(user_id).is_none() {
            return Err(StoreError::UnknownUser);
        }
        if self.next_workspace_id > i64::MAX as i128 || self.next_permission_id > i64::MAX as i128 {
            return Err(StoreError::IdsExhausted);
        }
        let ghost before = self@;
        let w = Workspace {
            id: self.next_workspace_id as i64,
            public: false,
            type_: ws_type,
            created_at: now,
        };
        let grant = Permission {
            id: self.next_permission_id as i64,
            workspace_id: w.id,
            grantee: Grantee::User(user_id),
            type_: PermissionType::Owner,
            accepted: true,
            created_at: now,
        };
        self.workspaces.push(w);
        self.permissions.push(grant);
        self.next_workspace_id = self.next_workspace_id + 1;
        self.next_permission_id = self.next_permission_id + 1;
        proof {
            let after = self@;
            assert(after == with_new_workspace(before, user_id, ws_type, now));
            lemma_new_workspace_wf(before, user_id, ws_type, now);
        }
        Ok(w)
    }

    /// Creates a `Normal` workspace owned by `user_id`, as one unit.
    pub fn create_normal_workspace(&mut self, user_id: i32, now: i64) -> (r: Result<Workspace, StoreError>)
        requires
            old(self)@.wf(),
        ensures
            final(self)@.wf(),
            r == Err::<Workspace, StoreError>(StoreError::UnknownUser) <==> !old(self)@.has_user_id(user_id),
            r == Err::<Workspace, StoreError>(StoreError::IdsExhausted) <==> old(self)@.has_user_id(user_id) && (
            old(self)@.next_workspace_id > i64::MAX || old(self)@.next_permission_id > i64::MAX),
            r is Ok <==> old(self)@.has_user_id(user_id) && old(self)@.next_workspace_id <= i64::MAX
                && old(self)@.next_permission_id <= i64::MAX,
            r is Err ==> final(self)@ == old(self)@,
            r matches Ok(w) ==> w == (Workspace {
                id: old(self)@.next_workspace_id as i64,
                public: false,
                type_: WorkspaceType::Normal,
                created_at: now,
            }) && final(self)@ == with_new_workspace(old(self)@, user_id, WorkspaceType::Normal, now),
    {
        self.create_workspace(user_id, WorkspaceType::Normal, now)
    }

    fn find_grant(&self, workspace_id: i64, g: &Grantee) -> (r: Option<usize>)
        ensures
            match r {
                Some(i) => i < self@.permissions.len() && self@.permissions[i as int].workspace_id
                    == workspace_id && same_identity(self@.permissions[i as int].grantee, *g),
                None => !self@.has_grant(workspace_id, *g),
            },
    {
        let mut i: usize = 0;
        while i < self.permissions.len()
            invariant
                i <= self.permissions@.len(),
                forall|k: int|
                    0 <= k < i ==> !(#[trigger] self.permissions@[k].workspace_id == workspace_id
                        && same_identity(self.permissions@[k].grantee, *g)),
            decreases self.permissions@.len() - i,
        {
            if self.permissions[i].workspace_id == workspace_id && same_grantee(&self.permissions[i].grantee, g) {
                return Some(i);
            }
            i = i + 1;
        }
        None
    }

    fn reconcile_conflicts(&self, user_id: i32, user_email: &String) -> (r: bool)
        ensures
            r == reconcile_conflicts(self@, user_id, user_email@),
    {
        let mut i: usize = 0;
        while i < self.permissions.len()
            invariant
                i <= self.permissions@.len(),
                forall|k: int|
                    0 <= k < i ==> !((#[trigger] self.permissions@[k].grantee matches Grantee::Email(e)
                        && e@ == user_email@) && self@.has_grant(self.permissions@[k].workspace_id, Grantee::User(user_id))),
            decreases self.permissions@.len() - i,
        {
            let keyed_by_email = match &self.permissions[i].grantee {
                Grantee::Email(e) => *e == *user_email,
                Grantee::User(_) => false,
            };
            if keyed_by_email && self.find_grant(self.permissions[i].workspace_id, &Grantee::User(user_id)).is_some() {
                let ghost k = i as int;
                assert(reconcile_conflicts(self@, user_id, user_email@)) by {
                    let j = choose|j: int|
                        0 <= j < self@.permissions.len() && #[trigger] self@.permissions[j].workspace_id
                            == self@.permissions[k].workspace_id
                            && same_identity(self@.permissions[j].grantee, Grantee::User(user_id));
                    assert(self@.permissions[j].grantee == Grantee::User(user_id));
                }
                return true;
            }
            i = i + 1;
        }
        assert(!reconcile_conflicts(self@, user_id, user_email@)) by {
            if reconcile_conflicts(self@, user_id, user_email@) {
                let (a, b) = choose|a: int, b: int|
                    0 <= a < self@.permissions.len() && 0 <= b < self@.permissions.len()
                        && (#[trigger] self@.permissions[a].grantee matches Grantee::Email(e) && e@ == user_email@)
                        && #[trigger] self@.permissions[b].grantee == Grantee::User(user_id)
                        && self@.permissions[a].workspace_id == self@.permissions[b].workspace_id;
                assert(self@.has_grant(self@.permissions[a].workspace_id, Grantee::User(user_id)));
            }
        }
        false
    }

    /// Binds every grant keyed by `user_email` to `user_id` instead, clearing
    /// the email. Fails without change when no user has that id, or when the
    /// rewrite would give the user a second grant on one workspace.
    pub fn update_cred(&mut self, user_id: i32, user_email: &String) -> (r: Result<(), StoreError>)
        requires
            old(self)@.wf(),
        ensures
            final(self)@.wf(),
            r == Err::<(), StoreError>(StoreError::UnknownUser) <==> !old(self)@.has_user_id(user_id),
            r == Err::<(), StoreError>(StoreError::Conflict) <==> old(self)@.has_user_id(user_id)
                && reconcile_conflicts(old(self)@, user_id, user_email@),
            r is Ok <==> old(self)@.has_user_id(user_id) && !reconcile_conflicts(old(self)@, user_id, user_email@),
            r is Err ==> final(self)@ == old(self)@,
            r is Ok ==> final(self)@ == with_reconciled(old(self)@, user_id, user_email@),
    {
        if self.find_user_by_id(user_id).is_none() {
            return Err(StoreError::UnknownUser);
        }
        if self.reconcile_conflicts(user_id, user_email) {
            return Err(StoreError::Conflict);
        }
        let ghost before = self@;
        let mut out: Vec<Permission> = Vec::new();
        let mut i: usize = 0;
        while i < self.permissions.len()
            invariant
                i <= self.permissions@.len(),
                self@ == before,
                out@.len() == i,
                forall|k: int| 0 <= k < i ==> #[trigger] out@[k] == reconciled(self.permissions@[k], user_id, user_email@),
            decreases self.permissions@.len() - i,
        {
            out.push(reconcile_one(&self.permissions[i], user_id, user_email));
            i = i + 1;
        }
        self.permissions = out;
        proof {
            assert(self@.permissions =~= before.permissions.map_values(|p: Permission| reconciled(p, user_id, user_email@)));
            assert(self@ == with_reconciled(before, user_id, user_email@));
            lemma_reconciled_wf(before, user_id, user_email@);
        }
        Ok(())
    }

    /// Registers a user: inserts its row, provisions its `Private` workspace
    /// with an Owner grant, and binds the grants keyed by its email to it, all
    /// as one unit. Returns `Ok(None)`, with nothing changed, when the email is
    /// already registered.
    pub fn create_user(&mut self, user: CreateUser, now: i64) -> (r: Result<Option<User>, StoreError>)
        requires
            old(self)@.wf(),
        ensures
            final(self)@.wf(),
            r matches Ok(None) <==> old(self)@.has_email(user.email@),
            r == Err::<Option<User>, StoreError>(StoreError::IdsExhausted) <==> !old(self)@.has_email(user.email@) && (
            old(self)@.next_user_id > i32::MAX || old(self)@.next_workspace_id > i64::MAX
                || old(self)@.next_permission_id > i64::MAX),
            r matches Ok(Some(_)) <==> !old(self)@.has_email(user.email@) && old(self)@.next_user_id <= i32::MAX
                && old(self)@.next_workspace_id <= i64::MAX && old(self)@.next_permission_id <= i64::MAX,
            !(r matches Ok(Some(_))) ==> final(self)@ == old(self)@,
            r matches Ok(Some(u)) ==> {
                &&& u == new_user_record(old(self)@, user, now).user
                &&& final(self)@ == registered(old(self)@, user, now)
                &&& has_sole_private_workspace(final(self)@, u.id)
                &&& forall|i: int|
                    0 <= i < old(self)@.permissions.len() && (
                    #[trigger] old(self)@.permissions[i].grantee matches Grantee::Email(e) && e@ == user.email@)
                        ==> final(self)@.permissions[i] == (Permission {
                        grantee: Grantee::User(u.id),
                        ..old(self)@.permissions[i]
                    })
            },
    {
        if self.find_user_by_email(&user.email).is_some() {
            return Ok(None);
        }
        if self.next_user_id > i32::MAX as i64 || self.next_workspace_id > i64::MAX as i128
            || self.next_permission_id > i64::MAX as i128 {
            return Err(StoreError::IdsExhausted);
        }
        let ghost t = self@;
        proof {
            lemma_registration(t, user, now);
        }
        let uid = self.next_user_id as i32;
        let email = user.email.clone();
        let rec = UserRecord {
            user: User {
                id: uid,
                name: user.name,
                email: user.email,
                avatar_url: user.avatar_url,
                created_at: now,
            },
            password: user.password,
            token_nonce: 0,
        };
        let created = rec.user.copy();
        self.users.push(rec);
        self.next_user_id = self.next_user_id + 1;
        proof {
            assert(self@ == with_new_user(t, user, now));
            lemma_new_user_wf(t, user, now);
        }
        let ws = self.create_workspace(uid, WorkspaceType::Private, now);
        assert(ws is Ok);
        let rc = self.update_cred(uid, &email);
        assert(rc is Ok);
        Ok(Some(created))
    }

    fn find_workspace(&self, workspace_id: i64) -> (r: Option<usize>)
        ensures
            match r {
                Some(i) => i < self@.workspaces.len() && self@.workspaces[i as int].id == workspace_id,
                None => !self@.has_workspace(workspace_id),
            },
    {
        let mut i: usize = 0;
        while i < self.workspaces.len()
            invariant
                i <= self.workspaces@.len(),
                forall|k: int| 0 <= k < i ==> self.workspaces@[k].id != workspace_id,
            decreases self.workspaces@.len() - i,
        {
            if self.workspaces[i].id == workspace_id {
                return Some(i);
            }
            i = i + 1;
        }
        None
    }

    /// The user of the first Owner grant on the workspace that is bound to a
    /// registered user; `OwnerMissing` when there is none.
    pub fn get_workspace_owner(&self, workspace_id: i64) -> (r: Result<User, StoreError>)
        requires
            self@.wf(),
        ensures
            r is Ok <==> exists|k: int|
                0 <= k < self@.permissions.len() && is_owner_grant(#[trigger] self@.permissions[k], workspace_id),
            r is Err ==> r == Err::<User, StoreError>(StoreError::OwnerMissing),
            r matches Ok(u) ==> exists|k: int|
                0 <= k < self@.permissions.len() && is_owner_grant(#[trigger] self@.permissions[k], workspace_id)
                    && (forall|k2: int| 0 <= k2 < k ==> !is_owner_grant(#[trigger] self@.permissions[k2], workspace_id))
                    && self@.permissions[k].grantee == Grantee::User(u.id) && u == user_of(self@, u.id),
    {
        let mut i: usize = 0;
        while i < self.permissions.len()
            invariant
                i <= self.permissions@.len(),
                self@.wf(),
                forall|k: int| 0 <= k < i ==> !is_owner_grant(#[trigger] self.permissions@[k], workspace_id),
            decreases self.permissions@.len() - i,
        {
            let p = &self.permissions[i];
            if p.workspace_id == workspace_id && p.type_ == PermissionType::Owner {
                if let Grantee::User(uid) = p.grantee {
                    assert(self@.permissions[i as int].id < self@.next_permission_id);
                    let j = self.find_user_by_id(uid);
                    if let Some(j) = j {
                        assert(user_of(self@, uid) == self@.users[j as int].user);
                        return Ok(self.users[j].user.copy());
                    }
                }
            }
            i = i + 1;
        }
        Err(StoreError::OwnerMissing)
    }

    fn count_accepted(&self, workspace_id: i64) -> (r: usize)
        ensures
            r == self@.permissions.filter(accepted_on(workspace_id)).len(),
    {
        let mut count: usize = 0;
        let mut i: usize = 0;
        while i < self.permissions.len()
            invariant
                i <= self.permissions@.len(),
                count == self.permissions@.subrange(0, i as int).filter(accepted_on(workspace_id)).len(),
                count <= i,
            decreases self.permissions@.len() - i,
        {
            proof {
                let s = self.permissions@;
                assert(s.subrange(0, i + 1) =~= s.subrange(0, i as int).push(s[i as int]));
                s.subrange(0, i as int).lemma_filter_push(s[i as int], accepted_on(workspace_id));
            }
            if self.permissions[i].workspace_id == workspace_id && self.permissions[i].accepted {
                count = count + 1;
            }
            i = i + 1;
        }
        assert(self.permissions@.subrange(0, i as int) =~= self.permissions@);
        count
    }

    /// The workspace with its owner and its number of accepted grants. A
    /// `Private` workspace is returned with no owner and a count of 0.
    pub fn get_workspace_by_id(&self, workspace_id: i64) -> (r: Result<Option<WorkspaceDetail>, StoreError>)
        requires
            self@.wf(),
        ensures
            r matches Ok(None) <==> !self@.has_workspace(workspace_id),
            r is Err ==> r == Err::<Option<WorkspaceDetail>, StoreError>(StoreError::OwnerMissing)
                && is_normal_workspace(self@, workspace_id)
                && !exists|k: int|
                0 <= k < self@.permissions.len() && is_owner_grant(#[trigger] self@.permissions[k], workspace_id),
            r matches Ok(Some(d)) ==> {
                &&& self@.has_workspace(workspace_id)
                &&& d.workspace == workspace_of(self@, workspace_id)
                &&& d.workspace.type_ == WorkspaceType::Private ==> d.owner is None && d.member_count == 0
                &&& d.workspace.type_ == WorkspaceType::Normal ==> {
                    &&& d.member_count == self@.permissions.filter(accepted_on(workspace_id)).len()
                    &&& d.owner matches Some(u) && exists|k: int|
                        0 <= k < self@.permissions.len() && is_owner_grant(#[trigger] self@.permissions[k], workspace_id)
                            && self@.permissions[k].grantee == Grantee::User(u.id) && u == user_of(self@, u.id)
                }
            },
            self@.has_workspace(workspace_id) && (workspace_of(self@, workspace_id).type_ == WorkspaceType::Private
                || exists|k: int|
                0 <= k < self@.permissions.len() && is_owner_grant(#[trigger] self@.permissions[k], workspace_id))
                ==> r matches Ok(Some(_)),
    {
        let i = match self.find_workspace(workspace_id) {
            Some(i) => i,
            None => {
                return Ok(None);
            },
        };
        let workspace = self.workspaces[i];
        assert(workspace == workspace_of(self@, workspace_id));
        if workspace.type_ == WorkspaceType::Private {
            return Ok(Some(WorkspaceDetail { owner: None, member_count: 0, workspace }));
        }
        let owner = match self.get_workspace_owner(workspace_id) {
            Ok(u) => u,
            Err(e) => {
                return Err(e);
            },
        };
        let member_count = self.count_accepted(workspace_id);
        Ok(Some(WorkspaceDetail { owner: Some(owner), member_count, workspace }))
    }

    /// Sets the visibility of a `Normal` workspace. Returns `None`, with
    /// nothing changed, when no `Normal` workspace has that id.
    pub fn update_workspace(&mut self, workspace_id: i64, data: UpdateWorkspace) -> (r: Option<Workspace>)
        requires
            old(self)@.wf(),
        ensures
            final(self)@.wf(),
            r is Some <==> is_normal_workspace(old(self)@, workspace_id),
            r is None ==> final(self)@ == old(self)@,
            r matches Some(w) ==> exists|i: int|
                0 <= i < old(self)@.workspaces.len() && #[trigger] old(self)@.workspaces[i].id == workspace_id && {
                    &&& w == (Workspace { public: data.public, ..old(self)@.workspaces[i] })
                    &&& final(self)@ == (Tables { workspaces: old(self)@.workspaces.update(i, w), ..old(self)@ })
                },
    {
        let i = match self.find_workspace(workspace_id) {
            Some(i) => i,
            None => {
                return None;
            },
        };
        if self.workspaces[i].type_ != WorkspaceType::Normal {
            assert(!is_normal_workspace(self@, workspace_id));
            return None;
        }
        let ghost before = self@;
        let w = Workspace { public: data.public, ..self.workspaces[i] };
        self.workspaces.set(i, w);
        proof {
            assert(self@ == (Tables { workspaces: before.workspaces.update(i as int, w), ..before }));
            lemma_same_keys(before, self@);
        }
        Some(w)
    }

    fn grants_not_on(&self, workspace_id: i64) -> (r: (Vec<Permission>, Ghost<Seq<int>>))
        ensures
            r.0@ == self@.permissions.filter(not_on(workspace_id)),
            r.1@.len() == r.0@.len(),
            forall|k: int|
                0 <= k < r.0@.len() ==> 0 <= #[trigger] r.1@[k] < self@.permissions.len() && r.0@[k]
                    == self@.permissions[r.1@[k]],
            forall|k1: int, k2: int| 0 <= k1 < k2 < r.0@.len() ==> #[trigger] r.1@[k1] < #[trigger] r.1@[k2],
            forall|k: int| 0 <= k < r.0@.len() ==> #[trigger] r.0@[k].workspace_id != workspace_id,
    {
        let mut out: Vec<Permission> = Vec::new();
        let ghost mut idx: Seq<int> = Seq::empty();
        let mut i: usize = 0;
        while i < self.permissions.len()
            invariant
                i <= self.permissions@.len(),
                out@ == self.permissions@.subrange(0, i as int).filter(not_on(workspace_id)),
                idx.len() == out@.len(),
                forall|k: int|
                    0 <= k < out@.len() ==> 0 <= #[trigger] idx[k] < i && out@[k] == self.permissions@[idx[k]],
                forall|k1: int, k2: int| 0 <= k1 < k2 < out@.len() ==> #[trigger] idx[k1] < #[trigger] idx[k2],
                forall|k: int| 0 <= k < out@.len() ==> #[trigger] out@[k].workspace_id != workspace_id,
            decreases self.permissions@.len() - i,
        {
            let ghost s = self.permissions@;
            proof {
                assert(s.subrange(0, i + 1) =~= s.subrange(0, i as int).push(s[i as int]));
                s.subrange(0, i as int).lemma_filter_push(s[i as int], not_on(workspace_id));
            }
            if self.permissions[i].workspace_id != workspace_id {
                out.push(self.permissions[i].copy());
                proof {
                    idx = idx.push(i as int);
                }
            }
            i = i + 1;
        }
        assert(self.permissions@.subrange(0, i as int) =~= self.permissions@);
        (out, Ghost(idx))
    }

    /// Deletes a `Normal` workspace and every grant on it. Returns whether a
    /// workspace was removed; a `Private` or unknown id changes nothing.
    pub fn delete_workspace(&mut self, workspace_id: i64) -> (r: bool)
        requires
            old(self)@.wf(),
        ensures
            final(self)@.wf(),
            r == is_normal_workspace(old(self)@, workspace_id),
            !r ==> final(self)@ == old(self)@,
            r ==> exists|i: int|
                0 <= i < old(self)@.workspaces.len() && #[trigger] old(self)@.workspaces[i].id == workspace_id
                    && final(self)@ == (Tables {
                    workspaces: old(self)@.workspaces.remove(i),
                    permissions: old(self)@.permissions.filter(not_on(workspace_id)),
                    ..old(self)@
                }),
    {
        let i = match self.find_workspace(workspace_id) {
            Some(i) => i,
            None => {
                return false;
            },
        };
        assert(forall|j: int|
            0 <= j < self@.workspaces.len() && #[trigger] self@.workspaces[j].id == workspace_id ==> j == i);
        if self.workspaces[i].type_ != WorkspaceType::Normal {
            return false;
        }
        let ghost before = self@;
        let (kept, idx) = self.grants_not_on(workspace_id);
        self.workspaces.remove(i);
        self.permissions = kept;
        proof {
            lemma_delete_workspace_wf(before, i as int, kept@, idx@);
            assert(self@ == (Tables {
                workspaces: before.workspaces.remove(i as int),
                permissions: before.permissions.filter(not_on(workspace_id)),
                ..before
            }));
        }
        true
    }

    /// The user's workspaces, one for each grant it holds (accepted or not),
    /// in the order of the grants, each with the grant's role.
    pub fn get_user_workspaces(&self, user_id: i32) -> (r: Vec<WorkspaceWithPermission>)
        requires
            self@.wf(),
        ensures
            r@ == self@.permissions.filter(granted_to(user_id)).map_values(listing(self@)),
    {
        let mut out: Vec<WorkspaceWithPermission> = Vec::new();
        let mut i: usize = 0;
        while i < self.permissions.len()
            invariant
                i <= self.permissions@.len(),
                self@.wf(),
                out@ == self.permissions@.subrange(0, i as int).filter(granted_to(user_id)).map_values(listing(self@)),
            decreases self.permissions@.len() - i,
        {
            let ghost s = self.permissions@;
            proof {
                assert(s.subrange(0, i + 1) =~= s.subrange(0, i as int).push(s[i as int]));
                s.subrange(0, i as int).lemma_filter_push(s[i as int], granted_to(user_id));
            }
            let p = &self.permissions[i];
            let mine = match p.grantee {
                Grantee::User(u) => u == user_id,
                Grantee::Email(_) => false,
            };
            if mine {
                assert(s[i as int].id < self@.next_permission_id);
                let j = self.find_workspace(p.workspace_id).unwrap();
                assert(self@.workspaces[j as int] == workspace_of(self@, p.workspace_id));
                let item = WorkspaceWithPermission { workspace: self.workspaces[j], permission: p.type_ };
                assert(item.workspace == workspace_of(self@, s[i as int].workspace_id));
                assert(item.permission == s[i as int].type_);
                assert(item == listed_for_user(self@, s[i as int]));
                assert(item == listing(self@)(s[i as int]));
                out.push(item);
                assert(s.subrange(0, i + 1).filter(granted_to(user_id)) == s.subrange(0, i as int).filter(
                    granted_to(user_id),
                ).push(s[i as int]));
                assert(out@ =~= s.subrange(0, i + 1).filter(granted_to(user_id)).map_values(listing(self@)));
            } else {
                assert(out@ =~= s.subrange(0, i + 1).filter(granted_to(user_id)).map_values(listing(self@)));
            }
            i = i + 1;
        }
        assert(self.permissions@.subrange(0, i as int) =~= self.permissions@);
        out
    }

    /// The grants of the workspace, in table order, each with its grantee
    /// resolved: a registered user's record, or the bare email.
    pub fn get_workspace_members(&self, workspace_id: i64) -> (r: Vec<Member>)
        requires
            self@.wf(),
        ensures
            r@ == self@.permissions.filter(granted_on(workspace_id)).map_values(membership(self@)),
    {
        let mut out: Vec<Member> = Vec::new();
        let mut i: usize = 0;
        while i < self.permissions.len()
            invariant
                i <= self.permissions@.len(),
                self@.wf(),
                out@ == self.permissions@.subrange(0, i as int).filter(granted_on(workspace_id)).map_values(membership(self@)),
            decreases self.permissions@.len() - i,
        {
            let ghost s = self.permissions@;
            proof {
                assert(s.subrange(0, i + 1) =~= s.subrange(0, i as int).push(s[i as int]));
                s.subrange(0, i as int).lemma_filter_push(s[i as int], granted_on(workspace_id));
            }
            let p = &self.permissions[i];
            if p.workspace_id == workspace_id {
                assert(s[i as int].id < self@.next_permission_id);
                let user = match &p.grantee {
                    Grantee::User(u) => {
                        let j = self.find_user_by_id(*u).unwrap();
                        assert(self@.users[j as int].user == user_of(self@, *u));
                        UserCred::Registered(self.users[j].user.copy())
                    },
                    Grantee::Email(e) => UserCred::UnRegistered { email: e.clone() },
                };
                let item = Member {
                    id: p.id,
                    type_: p.type_,
                    accepted: p.accepted,
                    created_at: p.created_at,
                    user,
                };
                assert(item == member_of(self@, s[i as int]));
                assert(item == membership(self@)(s[i as int]));
                out.push(item);
                assert(s.subrange(0, i + 1).filter(granted_on(workspace_id)) == s.subrange(0, i as int).filter(
                    granted_on(workspace_id),
                ).push(s[i as int]));
                assert(out@ =~= s.subrange(0, i + 1).filter(granted_on(workspace_id)).map_values(membership(self@)));
            } else {
                assert(out@ =~= s.subrange(0, i + 1).filter(granted_on(workspace_id)).map_values(membership(self@)));
            }
            i = i + 1;
        }
        assert(self.permissions@.subrange(0, i as int) =~= self.permissions@);
        out
    }

    /// The role that `user_id` holds on the workspace, if any.
    pub fn get_permission(&self, user_id: i32, workspace_id: i64) -> (r: Option<PermissionType>)
        requires
            self@.wf(),
        ensures
            r is Some <==> self@.has_grant(workspace_id, Grantee::User(user_id)),
            r matches Some(role) ==> exists|k: int|
                0 <= k < self@.permissions.len() && #[trigger] self@.permissions[k].workspace_id == workspace_id
                    && self@.permissions[k].grantee == Grantee::User(user_id) && self@.permissions[k].type_ == role,
    {
        match self.find_grant(workspace_id, &Grantee::User(user_id)) {
            Some(k) => Some(self.permissions[k].type_),
            None => None,
        }
    }

    fn find_grant_by_id(&self, permission_id: i64) -> (r: Option<usize>)
        ensures
            match r {
                Some(i) => i < self@.permissions.len() && self@.permissions[i as int].id == permission_id,
                None => forall|k: int| 0 <= k < self@.permissions.len() ==> #[trigger] self@.permissions[k].id != permission_id,
            },
    {
        let mut i: usize = 0;
        while i < self.permissions.len()
            invariant
                i <= self.permissions@.len(),
                forall|k: int| 0 <= k < i ==> #[trigger] self.permissions@[k].id != permission_id,
            decreases self.permissions@.len() - i,
        {
            if self.permissions[i].id == permission_id {
                return Some(i);
            }
            i = i + 1;
        }
        None
    }

    /// The role that `user_id` holds on the workspace of the grant
    /// `permission_id`; `None` when that grant or such a role does not exist.
    pub fn get_permission_by_permission_id(&self, user_id: i32, permission_id: i64) -> (r: Option<PermissionType>)
        requires
            self@.wf(),
        ensures
            r is Some <==> exists|k: int|
                0 <= k < self@.permissions.len() && #[trigger] self@.permissions[k].id == permission_id
                    && self@.has_grant(self@.permissions[k].workspace_id, Grantee::User(user_id)),
            r matches Some(role) ==> exists|k: int, k2: int|
                0 <= k < self@.permissions.len() && 0 <= k2 < self@.permissions.len()
                    && #[trigger] self@.permissions[k].id == permission_id
                    && #[trigger] self@.permissions[k2].workspace_id == self@.permissions[k].workspace_id
                    && self@.permissions[k2].grantee == Grantee::User(user_id) && self@.permissions[k2].type_ == role,
    {
        match self.find_grant_by_id(permission_id) {
            Some(k) => {
                let r = self.get_permission(user_id, self.permissions[k].workspace_id);
                proof {
                    if r is None {
                        assert forall|k1: int|
                            0 <= k1 < self@.permissions.len() && #[trigger] self@.permissions[k1].id == permission_id implies
                            !self@.has_grant(self@.permissions[k1].workspace_id, Grantee::User(user_id)) by {
                            if k1 != k {
                                assert(self@.permissions[k1].id != self@.permissions[k as int].id);
                            }
                        }
                    }
                }
                r
            },
            None => None,
        }
    }

    /// Read access: the user holds any grant on the workspace (accepted or
    /// not), or the workspace is public.
    pub fn can_read_workspace(&self, user_id: i32, workspace_id: i64) -> (r: bool)
        requires
            self@.wf(),
        ensures
            r == (self@.has_grant(workspace_id, Grantee::User(user_id)) || exists|j: int|
                0 <= j < self@.workspaces.len() && #[trigger] self@.workspaces[j].id == workspace_id
                    && self@.workspaces[j].public),
    {
        if self.find_grant(workspace_id, &Grantee::User(user_id)).is_some() {
            return true;
        }
        match self.find_workspace(workspace_id) {
            Some(i) => {
                assert(forall|j: int|
                    0 <= j < self@.workspaces.len() && #[trigger] self@.workspaces[j].id == workspace_id ==> j == i);
                self.workspaces[i].public
            },
            None => false,
        }
    }

    /// Invites `email` to the workspace with `role`: binds the grant to the
    /// registered user with that email, or else to the bare email. A grant is
    /// added, unaccepted, only on a `Normal` workspace where that identity has
    /// none yet; otherwise the result is `Ok(None)` and nothing changes.
    pub fn create_permission(&mut self, email: &String, workspace_id: i64, permission_type: PermissionType, now: i64) -> (r:
        Result<Option<(i64, UserCred)>, StoreError>)
        requires
            old(self)@.wf(),
        ensures
            final(self)@.wf(),
            invite_outcome(old(self)@, final(self)@, *email, workspace_id, permission_type, now, r),
    {
        let ghost t = self@;
        let (g, cred) = match self.find_user_by_email(email) {
            Some(j) => {
                assert(forall|j2: int|
                    0 <= j2 < t.users.len() && #[trigger] t.users[j2].user.email@ == email@ ==> j2 == j);
                (Grantee::User(self.users[j].user.id), UserCred::Registered(self.users[j].user.copy()))
            },
            None => (Grantee::Email(email.clone()), UserCred::UnRegistered { email: email.clone() }),
        };
        assert(g == grantee_for(t, *email));
        proof {
            if cred is Registered {
                let u = cred->Registered_0;
                let j = choose|j: int| 0 <= j < t.users.len() && #[trigger] t.users[j].user.email@ == email@;
                assert(forall|j2: int| 0 <= j2 < t.users.len() && #[trigger] t.users[j2].user.id == u.id ==> j2 == j);
            }
        }
        let normal = match self.find_workspace(workspace_id) {
            Some(i) => {
                assert(forall|j: int|
                    0 <= j < t.workspaces.len() && #[trigger] t.workspaces[j].id == workspace_id ==> j == i);
                self.workspaces[i].type_ == WorkspaceType::Normal
            },
            None => false,
        };
        if !normal {
            return Ok(None);
        }
        if self.find_grant(workspace_id, &g).is_some() {
            return Ok(None);
        }
        if self.next_permission_id > i64::MAX as i128 {
            return Err(StoreError::IdsExhausted);
        }
        let id = self.next_permission_id as i64;
        self.permissions.push(
            Permission {
                id,
                workspace_id,
                grantee: g,
                type_: permission_type,
                accepted: false,
                created_at: now,
            },
        );
        self.next_permission_id = self.next_permission_id + 1;
        proof {
            assert(self@ == invited(t, grantee_for(t, *email), workspace_id, permission_type, now));
            lemma_invited_wf(t, grantee_for(t, *email), workspace_id, permission_type, now);
        }
        Ok(Some((id, cred)))
    }

    /// Marks the grant accepted and returns it; `None` when no grant has that
    /// id.
    pub fn accept_permission(&mut self, permission_id: i64) -> (r: Option<Permission>)
        requires
            old(self)@.wf(),
        ensures
            final(self)@.wf(),
            r is Some <==> exists|k: int|
                0 <= k < old(self)@.permissions.len() && #[trigger] old(self)@.permissions[k].id == permission_id,
            r is None ==> final(self)@ == old(self)@,
            r matches Some(p) ==> exists|k: int|
                0 <= k < old(self)@.permissions.len() && #[trigger] old(self)@.permissions[k].id == permission_id && {
                    &&& p == (Permission { accepted: true, ..old(self)@.permissions[k] })
                    &&& final(self)@ == (Tables { permissions: old(self)@.permissions.update(k, p), ..old(self)@ })
                },
    {
        let k = match self.find_grant_by_id(permission_id) {
            Some(k) => k,
            None => {
                return None;
            },
        };
        let ghost before = self@;
        let p = Permission { accepted: true, ..self.permissions[k].copy() };
        let out = p.copy();
        self.permissions.set(k, p);
        proof {
            assert(self@ == (Tables { permissions: before.permissions.update(k as int, out), ..before }));
            lemma_same_keys(before, self@);
        }
        Some(out)
    }

    /// Deletes the grant with that id, whatever its role. Returns whether a
    /// grant was removed.
    pub fn delete_permission(&mut self, permission_id: i64) -> (r: bool)
        requires
            old(self)@.wf(),
        ensures
            final(self)@.wf(),
            r == exists|k: int|
                0 <= k < old(self)@.permissions.len() && #[trigger] old(self)@.permissions[k].id == permission_id,
            !r ==> final(self)@ == old(self)@,
            r ==> exists|k: int|
                0 <= k < old(self)@.permissions.len() && #[trigger] old(self)@.permissions[k].id == permission_id
                    && final(self)@ == (Tables { permissions: old(self)@.permissions.remove(k), ..old(self)@ }),
    {
        let k = match self.find_grant_by_id(permission_id) {
            Some(k) => k,
            None => {
                return false;
            },
        };
        let ghost before = self@;
        self.permissions.remove(k);
        proof {
            assert(self@ == (Tables { permissions: before.permissions.remove(k as int), ..before }));
            lemma_remove_grant_wf(before, k as int);
        }
        true
    }

    /// Revokes the grant of `user_id` on the workspace unless it is an Owner
    /// grant. Returns whether a grant was removed.
    pub fn delete_permission_by_query(&mut self, user_id: i32, workspace_id: i64) -> (r: bool)
        requires
            old(self)@.wf(),
        ensures
            final(self)@.wf(),
            revoke_outcome(old(self)@, final(self)@, user_id, workspace_id, r),
    {
        let k = match self.find_grant(workspace_id, &Grantee::User(user_id)) {
            Some(k) => k,
            None => {
                return false;
            },
        };
        if self.permissions[k].type_ == PermissionType::Owner {
            assert(forall|k2: int|
                0 <= k2 < self@.permissions.len() && is_revocable(#[trigger] self@.permissions[k2], user_id, workspace_id)
                    ==> self@.permissions[k2].id == self@.permissions[k as int].id);
            return false;
        }
        let ghost before = self@;
        self.permissions.remove(k);
        proof {
            assert(is_revocable(before.permissions[k as int], user_id, workspace_id));
            assert(self@ == (Tables { permissions: before.permissions.remove(k as int), ..before }));
            lemma_remove_grant_wf(before, k as int);
        }
        true
    }

    /// Resolves `email` to a registered user or a bare email, and tells
    /// whether that identity holds a grant on the workspace.
    pub fn get_user_in_workspace_by_email(&self, workspace_id: i64, email: &String) -> (r: UserInWorkspace)
        requires
            self@.wf(),
        ensures
            r.in_workspace == self@.has_grant(workspace_id, grantee_for(self@, *email)),
            match r.user {
                UserCred::Registered(u) => self@.has_email(email@) && grantee_for(self@, *email) == Grantee::User(u.id)
                    && u == user_of(self@, u.id) && u.email@ == email@,
                UserCred::UnRegistered { email: e } => !self@.has_email(email@) && e@ == email@,
            },
    {
        match self.find_user_by_email(email) {
            Some(j) => {
                assert(forall|j2: int|
                    0 <= j2 < self@.users.len() && #[trigger] self@.users[j2].user.email@ == email@ ==> j2 == j);
                assert(forall|j2: int|
                    0 <= j2 < self@.users.len() && #[trigger] self@.users[j2].user.id == self@.users[j as int].user.id ==> j2 == j);
                let g = Grantee::User(self.users[j].user.id);
                let in_workspace = self.find_grant(workspace_id, &g).is_some();
                UserInWorkspace { user: UserCred::Registered(self.users[j].user.copy()), in_workspace }
            },
            None => {
                let g = Grantee::Email(email.clone());
                let in_workspace = self.find_grant(workspace_id, &g).is_some();
                UserInWorkspace { user: UserCred::UnRegistered { email: email.clone() }, in_workspace }
            },
        }
    }

    /// The user registered under `email`, if any.
    pub fn get_user_by_email(&self, email: &String) -> (r: Option<User>)
        requires
            self@.wf(),
        ensures
            r.is_some() == self@.has_email(email@),
            r matches Some(u) ==> exists|i: int|
                0 <= i < self@.users.len() && self@.users[i].user == u && u.email@ == email@,
    {
        match self.find_user_by_email(email) {
            Some(i) => Some(self.users[i].user.copy()),
            None => None,
        }
    }

    /// Checks a credential: the user with `login.email`, with its current
    /// nonce, when its secret equals `login.password`.
    pub fn user_login(&self, login: UserLogin) -> (r: Option<UserWithNonce>)
        requires
            self@.wf(),
        ensures
            r.is_some() == exists|i: int|
                0 <= i < self@.users.len() && #[trigger] self@.users[i].user.email@ == login.email@
                    && self@.users[i].password@ == login.password@,
            r matches Some(u) ==> exists|i: int|
                0 <= i < self@.users.len() && self@.users[i].user == u.user
                    && self@.users[i].token_nonce == u.token_nonce && u.user.email@ == login.email@
                    && self@.users[i].password@ == login.password@,
    {
        match self.find_user_by_email(&login.email) {
            Some(i) => {
                if self.users[i].password == login.password {
                    Some(UserWithNonce { user: self.users[i].user.copy(), token_nonce: self.users[i].token_nonce })
                } else {
                    assert(forall|j: int|
                        0 <= j < self@.users.len() && #[trigger] self@.users[j].user.email@ == login.email@
                            ==> j == i);
                    None
                }
            },
            None => None,
        }
    }

    /// The user that `token` names, with its nonce, when the token's nonce is
    /// the user's current one.
    pub fn refresh_token(&self, token: RefreshToken) -> (r: Option<UserWithNonce>)
        requires
            self@.wf(),
        ensures
            r.is_some() == exists|i: int|
                0 <= i < self@.users.len() && #[trigger] self@.users[i].user.id == token.user_id
                    && self@.users[i].token_nonce == token.token_nonce,
            r matches Some(u) ==> exists|i: int|
                0 <= i < self@.users.len() && self@.users[i].user == u.user
                    && u.user.id == token.user_id && u.token_nonce == token.token_nonce
                    && self@.users[i].token_nonce == token.token_nonce,
    {
        match self.find_user_by_id(token.user_id) {
            Some(i) => {
                if self.users[i].token_nonce == token.token_nonce {
                    Some(UserWithNonce { user: self.users[i].user.copy(), token_nonce: self.users[i].token_nonce })
                } else {
                    None
                }
            },
            None => None,
        }
    }

    /// Whether `token` is valid: its user exists and holds that nonce now.
    pub fn verify_refresh_token(&self, token: &RefreshToken) -> (r: bool)
        requires
            self@.wf(),
        ensures
            r == exists|i: int|
                0 <= i < self@.users.len() && #[trigger] self@.users[i].user.id == token.user_id
                    && self@.users[i].token_nonce == token.token_nonce,
    {
        match self.find_user_by_id(token.user_id) {
            Some(i) => self.users[i].token_nonce == token.token_nonce,
            None => false,
        }
    }

    /// Moves the user's nonce on, which invalidates every refresh token issued
    /// before. Returns the new nonce, or `None` when no user has that id.
    pub fn rotate_token_nonce(&mut self, user_id: i32) -> (r: Option<i16>)
        requires
            old(self)@.wf(),
        ensures
            final(self)@.wf(),
            r.is_some() == old(self)@.has_user_id(user_id),
            r is None ==> final(self)@ == old(self)@,
            r matches Some(n) ==> exists|i: int|
                0 <= i < old(self)@.users.len() && old(self)@.users[i].user.id == user_id && {
                    &&& n == next_nonce(old(self)@.users[i].token_nonce)
                    &&& final(self)@ == (Tables {
                        users: old(self)@.users.update(i, UserRecord {
                            token_nonce: n,
                            ..old(self)@.users[i]
                        }),
                        ..old(self)@
                    })
                },
    {
        match self.find_user_by_id(user_id) {
            Some(i) => {
                let cur = self.users[i].token_nonce;
                let n: i16 = if cur == i16::MAX { 0 } else { cur + 1 };
                let ghost before = self@;
                let rec = UserRecord {
                    user: self.users[i].user.copy(),
                    password: self.users[i].password.clone(),
                    token_nonce: n,
                };
                self.users.set(i, rec);
                assert(self@.users =~= before.users.update(i as int, UserRecord { token_nonce: n, ..before.users[i as int] }));
                proof {
                    lemma_same_identities(before, self@);
                }
                Some(n)
            },
            None => None,
        }
    }
}

} // verus!
