//! The mathematical model of a store: its tables as sequences, the invariant
//! they keep, the states that each operation leads to, and the laws relating
//! operations.
use vstd::prelude::*;

use crate::model::{
    CreateUser, Grantee, Member, Permission, PermissionType, StoreError, User, UserCred, UserRecord,
    Workspace, WorkspaceType, WorkspaceWithPermission,
};

verus! {


/// Whether two grantees name the same identity: the same user id, or the
/// same email text.
pub open spec fn same_identity(a: Grantee, b: Grantee) -> bool {
    match (a, b) {
        (Grantee::User(x), Grantee::User(y)) => x == y,
        (Grantee::Email(x), Grantee::Email(y)) => x@ == y@,
        _ => false,
    }
}

/// The mathematical content of a store: its three tables and the next value
/// of each id sequence.
pub struct Tables {
    pub users: Seq<UserRecord>,
    pub workspaces: Seq<Workspace>,
    pub permissions: Seq<Permission>,
    pub next_user_id: int,
    pub next_workspace_id: int,
    pub next_permission_id: int,
}

impl Tables {
    pub open spec fn has_user_id(self, uid: i32) -> bool {
        exists|j: int| 0 <= j < self.users.len() && #[trigger] self.users[j].user.id == uid
    }

    pub open spec fn has_email(self, email: Seq<char>) -> bool {
        exists|j: int| 0 <= j < self.users.len() && #[trigger] self.users[j].user.email@ == email
    }

    pub open spec fn has_workspace(self, wid: i64) -> bool {
        exists|j: int| 0 <= j < self.workspaces.len() && #[trigger] self.workspaces[j].id == wid
    }

    /// Whether some grant binds `g` to workspace `wid`.
    pub open spec fn has_grant(self, wid: i64, g: Grantee) -> bool {
        exists|j: int|
            0 <= j < self.permissions.len() && #[trigger] self.permissions[j].workspace_id == wid
                && same_identity(self.permissions[j].grantee, g)
    }

    /// The single-entity invariants of the tables.
    pub open spec fn wf(self) -> bool {
        &&& forall|i: int, j: int|
            0 <= i < self.users.len() && 0 <= j < self.users.len() && i != j
                ==> #[trigger] self.users[i].user.id != #[trigger] self.users[j].user.id
        &&& forall|i: int, j: int|
            0 <= i < self.users.len() && 0 <= j < self.users.len() && i != j
                ==> #[trigger] self.users[i].user.email@ != #[trigger] self.users[j].user.email@
        &&& forall|i: int| 0 <= i < self.users.len() ==> #[trigger] self.users[i].user.id < self.next_user_id
        &&& forall|i: int, j: int|
            0 <= i < self.workspaces.len() && 0 <= j < self.workspaces.len() && i != j
                ==> #[trigger] self.workspaces[i].id != #[trigger] self.workspaces[j].id
        &&& forall|i: int|
            0 <= i < self.workspaces.len() ==> #[trigger] self.workspaces[i].id < self.next_workspace_id
        &&& forall|i: int, j: int|
            0 <= i < self.permissions.len() && 0 <= j < self.permissions.len() && i != j ==> {
                &&& #[trigger] self.permissions[i].id != #[trigger] self.permissions[j].id
                &&& !(self.permissions[i].workspace_id == self.permissions[j].workspace_id
                    && same_identity(self.permissions[i].grantee, self.permissions[j].grantee))
            }
        &&& forall|i: int|
            0 <= i < self.permissions.len() ==> {
                &&& #[trigger] self.permissions[i].id < self.next_permission_id
                &&& self.has_workspace(self.permissions[i].workspace_id)
                &&& (self.permissions[i].grantee matches Grantee::User(u) ==> self.has_user_id(u))
            }
        &&& forall|i: int, j: int|
            0 <= i < self.permissions.len() && 0 <= j < self.workspaces.len()
                && #[trigger] self.permissions[i].workspace_id == #[trigger] self.workspaces[j].id
                && self.permissions[i].grantee is Email ==> self.workspaces[j].type_
                == WorkspaceType::Normal
        &&& i32::MIN <= self.next_user_id <= i32::MAX + 1
        &&& i64::MIN <= self.next_workspace_id <= i64::MAX + 1
        &&& i64::MIN <= self.next_permission_id <= i64::MAX + 1
    }
}

/// Creating a workspace with its Owner grant keeps the invariant.
pub(crate) proof fn lemma_new_workspace_wf(t: Tables, uid: i32, ty: WorkspaceType, now: i64)
    requires
        t.wf(),
        t.has_user_id(uid),
        t.next_workspace_id <= i64::MAX,
        t.next_permission_id <= i64::MAX,
    ensures
        with_new_workspace(t, uid, ty, now).wf(),
        forall|w: i64| t.has_workspace(w) ==> with_new_workspace(t, uid, ty, now).has_workspace(w),
{
    let n = with_new_workspace(t, uid, ty, now);
    let wid = t.next_workspace_id as i64;
    let plen = t.permissions.len() as int;
    let wlen = t.workspaces.len() as int;
    assert forall|w: i64| t.has_workspace(w) implies n.has_workspace(w) by {
        let j = choose|j: int| 0 <= j < t.workspaces.len() && #[trigger] t.workspaces[j].id == w;
        assert(n.workspaces[j] == t.workspaces[j]);
    }
    assert(n.workspaces[wlen].id == wid);
    assert(n.has_workspace(wid));
    assert forall|i: int| 0 <= i < plen implies #[trigger] t.permissions[i].workspace_id != wid by {
        let w = t.permissions[i].workspace_id;
        assert(t.permissions[i].id < t.next_permission_id);
        assert(t.has_workspace(w));
        let j = choose|j: int| 0 <= j < t.workspaces.len() && #[trigger] t.workspaces[j].id == w;
        assert(t.workspaces[j].id < t.next_workspace_id);
    }
    assert forall|i: int| 0 <= i < n.permissions.len() implies {
        &&& #[trigger] n.permissions[i].id < n.next_permission_id
        &&& n.has_workspace(n.permissions[i].workspace_id)
        &&& (n.permissions[i].grantee matches Grantee::User(u) ==> n.has_user_id(u))
    } by {
        if i < plen {
            assert(n.permissions[i] == t.permissions[i]);
        }
    }
    assert forall|i: int, j: int|
        0 <= i < n.permissions.len() && 0 <= j < n.workspaces.len()
            && #[trigger] n.permissions[i].workspace_id == #[trigger] n.workspaces[j].id
            && n.permissions[i].grantee is Email implies n.workspaces[j].type_ == WorkspaceType::Normal by {
        if i < plen && j < wlen {
            assert(n.permissions[i] == t.permissions[i]);
            assert(n.workspaces[j] == t.workspaces[j]);
        }
    }
    assert forall|i: int, j: int|
        0 <= i < n.permissions.len() && 0 <= j < n.permissions.len() && i != j implies {
            &&& #[trigger] n.permissions[i].id != #[trigger] n.permissions[j].id
            &&& !(n.permissions[i].workspace_id == n.permissions[j].workspace_id
                && same_identity(n.permissions[i].grantee, n.permissions[j].grantee))
        } by {
        if i < plen {
            assert(n.permissions[i] == t.permissions[i]);
        }
        if j < plen {
            assert(n.permissions[j] == t.permissions[j]);
        }
    }
}

/// Rewriting the grants of an email to a user that has no grant on the same
/// workspaces keeps the invariant.
pub(crate) proof fn lemma_reconciled_wf(t: Tables, uid: i32, email: Seq<char>)
    requires
        t.wf(),
        t.has_user_id(uid),
        !reconcile_conflicts(t, uid, email),
    ensures
        with_reconciled(t, uid, email).wf(),
{
    let n = with_reconciled(t, uid, email);
    assert forall|i: int| 0 <= i < n.permissions.len() implies {
        &&& #[trigger] n.permissions[i].id < n.next_permission_id
        &&& n.has_workspace(n.permissions[i].workspace_id)
        &&& (n.permissions[i].grantee matches Grantee::User(u) ==> n.has_user_id(u))
    } by {
        assert(t.permissions[i].id < t.next_permission_id);
    }
    assert forall|i: int, j: int|
        0 <= i < n.permissions.len() && 0 <= j < n.workspaces.len()
            && #[trigger] n.permissions[i].workspace_id == #[trigger] n.workspaces[j].id
            && n.permissions[i].grantee is Email implies n.workspaces[j].type_ == WorkspaceType::Normal by {
        assert(t.permissions[i].workspace_id == t.workspaces[j].id);
    }
    assert forall|i: int, j: int|
        0 <= i < n.permissions.len() && 0 <= j < n.permissions.len() && i != j implies {
            &&& #[trigger] n.permissions[i].id != #[trigger] n.permissions[j].id
            &&& !(n.permissions[i].workspace_id == n.permissions[j].workspace_id
                && same_identity(n.permissions[i].grantee, n.permissions[j].grantee))
        } by {
        assert(t.permissions[i].id != t.permissions[j].id);
        if n.permissions[i].workspace_id == n.permissions[j].workspace_id
            && same_identity(n.permissions[i].grantee, n.permissions[j].grantee) {
            let pi = t.permissions[i];
            let pj = t.permissions[j];
            let ri = reconciled(pi, uid, email) != pi;
            let rj = reconciled(pj, uid, email) != pj;
            if ri && !rj {
                assert(pj.grantee == Grantee::User(uid));
                assert(reconcile_conflicts(t, uid, email));
            } else if rj && !ri {
                assert(pi.grantee == Grantee::User(uid));
                assert(reconcile_conflicts(t, uid, email));
            }
        }
    }
}

/// Rewriting user rows without changing their public records keeps the
/// invariant.
pub(crate) proof fn lemma_same_identities(a: Tables, b: Tables)
    requires
        a.wf(),
        b.users.len() == a.users.len(),
        forall|k: int| 0 <= k < a.users.len() ==> #[trigger] b.users[k].user == a.users[k].user,
        b.workspaces == a.workspaces,
        b.permissions == a.permissions,
        b.next_user_id == a.next_user_id,
        b.next_workspace_id == a.next_workspace_id,
        b.next_permission_id == a.next_permission_id,
    ensures
        b.wf(),
{
    assert forall|u: i32| a.has_user_id(u) implies b.has_user_id(u) by {
        let j = choose|j: int| 0 <= j < a.users.len() && #[trigger] a.users[j].user.id == u;
        assert(b.users[j].user == a.users[j].user);
    }
    assert forall|i: int, j: int|
        0 <= i < b.users.len() && 0 <= j < b.users.len() && i != j implies
            #[trigger] b.users[i].user.email@ != #[trigger] b.users[j].user.email@ by {
        assert(b.users[i].user == a.users[i].user);
        assert(b.users[j].user == a.users[j].user);
    }
    assert forall|i: int, j: int|
        0 <= i < b.users.len() && 0 <= j < b.users.len() && i != j implies
            #[trigger] b.users[i].user.id != #[trigger] b.users[j].user.id by {
        assert(b.users[i].user == a.users[i].user);
        assert(b.users[j].user == a.users[j].user);
    }
}

/// The Owner grant that binds user `uid` to a new workspace `wid`.
pub open spec fn owner_grant(id: int, wid: i64, uid: i32, now: i64) -> Permission {
    Permission {
        id: id as i64,
        workspace_id: wid,
        grantee: Grantee::User(uid),
        type_: PermissionType::Owner,
        accepted: true,
        created_at: now,
    }
}

/// A grant after the user `uid` registered with `email`: a grant keyed by that
/// email is now keyed by `uid`; every other grant is unchanged.
pub open spec fn reconciled(p: Permission, uid: i32, email: Seq<char>) -> Permission {
    match p.grantee {
        Grantee::Email(e) => if e@ == email {
            Permission { grantee: Grantee::User(uid), ..p }
        } else {
            p
        },
        Grantee::User(_) => p,
    }
}

/// The tables after a workspace of kind `ty` has been created for `uid`
/// together with its Owner grant.
pub open spec fn with_new_workspace(t: Tables, uid: i32, ty: WorkspaceType, now: i64) -> Tables {
    let w = Workspace { id: t.next_workspace_id as i64, public: false, type_: ty, created_at: now };
    Tables {
        workspaces: t.workspaces.push(w),
        permissions: t.permissions.push(owner_grant(t.next_permission_id, w.id, uid, now)),
        next_workspace_id: t.next_workspace_id + 1,
        next_permission_id: t.next_permission_id + 1,
        ..t
    }
}

/// Whether rewriting the grants keyed by `email` to `uid` would give `uid` a
/// second grant on some workspace.
pub open spec fn reconcile_conflicts(t: Tables, uid: i32, email: Seq<char>) -> bool {
    exists|i: int, j: int|
        0 <= i < t.permissions.len() && 0 <= j < t.permissions.len()
            && (#[trigger] t.permissions[i].grantee matches Grantee::Email(e) && e@ == email)
            && #[trigger] t.permissions[j].grantee == Grantee::User(uid)
            && t.permissions[i].workspace_id == t.permissions[j].workspace_id
}

/// The tables after the grants keyed by `email` have been rewritten to `uid`.
pub open spec fn with_reconciled(t: Tables, uid: i32, email: Seq<char>) -> Tables {
    Tables { permissions: t.permissions.map_values(|p: Permission| reconciled(p, uid, email)), ..t }
}

/// The user row that registering `c` at time `now` inserts.
pub open spec fn new_user_record(t: Tables, c: CreateUser, now: i64) -> UserRecord {
    UserRecord {
        user: User {
            id: t.next_user_id as i32,
            name: c.name,
            email: c.email,
            avatar_url: c.avatar_url,
            created_at: now,
        },
        password: c.password,
        token_nonce: 0,
    }
}

pub open spec fn with_new_user(t: Tables, c: CreateUser, now: i64) -> Tables {
    Tables { users: t.users.push(new_user_record(t, c, now)), next_user_id: t.next_user_id + 1, ..t }
}

/// The tables after `c` registered: the user row, its `Private` workspace with
/// the Owner grant, and the grants keyed by its email now bound to it.
pub open spec fn registered(t: Tables, c: CreateUser, now: i64) -> Tables {
    let uid = t.next_user_id as i32;
    with_reconciled(with_new_workspace(with_new_user(t, c, now), uid, WorkspaceType::Private, now), uid, c.email@)
}

/// User `uid` holds a grant on exactly one `Private` workspace; that
/// workspace's only grant is an Owner grant bound to `uid`.
pub open spec fn has_sole_private_workspace(t: Tables, uid: i32) -> bool {
    exists|i: int|
        0 <= i < t.workspaces.len() && #[trigger] t.workspaces[i].type_ == WorkspaceType::Private && {
            &&& exists|k: int|
                0 <= k < t.permissions.len() && #[trigger] t.permissions[k].workspace_id == t.workspaces[i].id
                    && t.permissions[k].grantee == Grantee::User(uid) && t.permissions[k].type_ == PermissionType::Owner
                    && forall|k2: int|
                    0 <= k2 < t.permissions.len() && #[trigger] t.permissions[k2].workspace_id == t.workspaces[i].id
                        ==> k2 == k
            &&& forall|j: int|
                0 <= j < t.workspaces.len() && #[trigger] t.workspaces[j].type_ == WorkspaceType::Private
                    && t.has_grant(t.workspaces[j].id, Grantee::User(uid)) ==> j == i
        }
}

/// Adding a user row with a fresh id and an unused email keeps the invariant.
pub(crate) proof fn lemma_new_user_wf(t: Tables, c: CreateUser, now: i64)
    requires
        t.wf(),
        !t.has_email(c.email@),
        t.next_user_id <= i32::MAX,
    ensures
        with_new_user(t, c, now).wf(),
        with_new_user(t, c, now).has_user_id(t.next_user_id as i32),
        forall|u: i32| t.has_user_id(u) ==> with_new_user(t, c, now).has_user_id(u),
{
    let n = with_new_user(t, c, now);
    let len = t.users.len() as int;
    assert(n.users[len].user.id == t.next_user_id as i32);
    assert forall|u: i32| t.has_user_id(u) implies n.has_user_id(u) by {
        let j = choose|j: int| 0 <= j < t.users.len() && #[trigger] t.users[j].user.id == u;
        assert(n.users[j] == t.users[j]);
    }
    assert forall|i: int, j: int|
        0 <= i < n.users.len() && 0 <= j < n.users.len() && i != j implies
            #[trigger] n.users[i].user.id != #[trigger] n.users[j].user.id
            && n.users[i].user.email@ != n.users[j].user.email@ by {
        if i < len {
            assert(n.users[i] == t.users[i]);
            assert(t.users[i].user.id < t.next_user_id);
        }
        if j < len {
            assert(n.users[j] == t.users[j]);
            assert(t.users[j].user.id < t.next_user_id);
        }
    }
    assert forall|i: int| 0 <= i < n.permissions.len() implies {
        &&& #[trigger] n.permissions[i].id < n.next_permission_id
        &&& n.has_workspace(n.permissions[i].workspace_id)
        &&& (n.permissions[i].grantee matches Grantee::User(u) ==> n.has_user_id(u))
    } by {
        assert(t.permissions[i].id < t.next_permission_id);
    }
}

/// Registration never meets a conflict, yields a well-formed store, gives the
/// new user a sole `Private` workspace, and binds each grant keyed by its
/// email to it with role and acceptance kept.
pub proof fn lemma_registration(t: Tables, c: CreateUser, now: i64)
    requires
        t.wf(),
        !t.has_email(c.email@),
        t.next_user_id <= i32::MAX,
        t.next_workspace_id <= i64::MAX,
        t.next_permission_id <= i64::MAX,
    ensures
        !reconcile_conflicts(
            with_new_workspace(with_new_user(t, c, now), t.next_user_id as i32, WorkspaceType::Private, now),
            t.next_user_id as i32,
            c.email@,
        ),
        registered(t, c, now).wf(),
        has_sole_private_workspace(registered(t, c, now), t.next_user_id as i32),
        forall|i: int|
            0 <= i < t.permissions.len() && (#[trigger] t.permissions[i].grantee matches Grantee::Email(e)
                && e@ == c.email@) ==> registered(t, c, now).permissions[i] == (Permission {
                grantee: Grantee::User(t.next_user_id as i32),
                ..t.permissions[i]
            }),
{
    let uid = t.next_user_id as i32;
    let t1 = with_new_user(t, c, now);
    lemma_new_user_wf(t, c, now);
    let t2 = with_new_workspace(t1, uid, WorkspaceType::Private, now);
    lemma_new_workspace_wf(t1, uid, WorkspaceType::Private, now);
    let wid = t1.next_workspace_id as i64;
    let plen = t.permissions.len() as int;
    let wlen = t.workspaces.len() as int;
    // Every earlier grant sits on an earlier workspace and, if bound to a
    // user, to an earlier user.
    assert forall|i: int| 0 <= i < plen implies #[trigger] t.permissions[i].workspace_id != wid
        && t.permissions[i].grantee != Grantee::User(uid) by {
        assert(t.permissions[i].id < t.next_permission_id);
        let w = t.permissions[i].workspace_id;
        let j = choose|j: int| 0 <= j < t.workspaces.len() && #[trigger] t.workspaces[j].id == w;
        assert(t.workspaces[j].id < t.next_workspace_id);
        if let Grantee::User(u) = t.permissions[i].grantee {
            let k = choose|k: int| 0 <= k < t.users.len() && #[trigger] t.users[k].user.id == u;
            assert(t.users[k].user.id < t.next_user_id);
        }
    }
    assert(t2.permissions[plen] == owner_grant(t.next_permission_id, wid, uid, now));
    assert(!reconcile_conflicts(t2, uid, c.email@)) by {
        if reconcile_conflicts(t2, uid, c.email@) {
            let (a, b) = choose|a: int, b: int|
                0 <= a < t2.permissions.len() && 0 <= b < t2.permissions.len()
                    && (#[trigger] t2.permissions[a].grantee matches Grantee::Email(e) && e@ == c.email@)
                    && #[trigger] t2.permissions[b].grantee == Grantee::User(uid)
                    && t2.permissions[a].workspace_id == t2.permissions[b].workspace_id;
            assert(b == plen);
            assert(a < plen);
            assert(t2.permissions[a] == t.permissions[a]);
        }
    }
    lemma_reconciled_wf(t2, uid, c.email@);
    let t3 = registered(t, c, now);
    assert(t3.workspaces[wlen].id == wid);
    assert(t3.permissions[plen] == owner_grant(t.next_permission_id, wid, uid, now));
    assert forall|k2: int| 0 <= k2 < t3.permissions.len() && #[trigger] t3.permissions[k2].workspace_id == wid implies k2
        == plen by {
        if k2 < plen {
            assert(t3.permissions[k2].workspace_id == t.permissions[k2].workspace_id);
        }
    }
    assert forall|j: int|
        0 <= j < t3.workspaces.len() && #[trigger] t3.workspaces[j].type_ == WorkspaceType::Private
            && t3.has_grant(t3.workspaces[j].id, Grantee::User(uid)) implies j == wlen by {
        if j < wlen {
            let k = choose|k: int|
                0 <= k < t3.permissions.len() && #[trigger] t3.permissions[k].workspace_id == t3.workspaces[j].id
                    && same_identity(t3.permissions[k].grantee, Grantee::User(uid));
            assert(t3.workspaces[j] == t.workspaces[j]);
            if k == plen {
                assert(t.workspaces[j].id < t.next_workspace_id);
            } else {
                let p = t.permissions[k];
                assert(t3.permissions[k] == reconciled(p, uid, c.email@));
                assert(p.grantee is Email);
                assert(p.workspace_id == t.workspaces[j].id);
            }
        }
    }
    assert(has_sole_private_workspace(t3, uid)) by {
        assert(t3.workspaces[wlen].type_ == WorkspaceType::Private);
    }
    assert forall|i: int|
        0 <= i < t.permissions.len() && (#[trigger] t.permissions[i].grantee matches Grantee::Email(e)
            && e@ == c.email@) implies t3.permissions[i] == (Permission {
            grantee: Grantee::User(uid),
            ..t.permissions[i]
        }) by {
        assert(t2.permissions[i] == t.permissions[i]);
    }
}

/// The workspace row with id `wid` (meaningful when there is one).
pub open spec fn workspace_of(t: Tables, wid: i64) -> Workspace {
    t.workspaces[choose|j: int| 0 <= j < t.workspaces.len() && #[trigger] t.workspaces[j].id == wid]
}

/// The user row with id `uid` (meaningful when there is one).
pub open spec fn user_of(t: Tables, uid: i32) -> User {
    t.users[choose|j: int| 0 <= j < t.users.len() && #[trigger] t.users[j].user.id == uid].user
}

/// Whether `p` is an Owner grant on `wid` bound to a registered user.
pub open spec fn is_owner_grant(p: Permission, wid: i64) -> bool {
    p.workspace_id == wid && p.type_ == PermissionType::Owner && p.grantee is User
}

pub open spec fn accepted_on(wid: i64) -> spec_fn(Permission) -> bool {
    |p: Permission| p.workspace_id == wid && p.accepted
}

pub open spec fn granted_on(wid: i64) -> spec_fn(Permission) -> bool {
    |p: Permission| p.workspace_id == wid
}

pub open spec fn granted_to(uid: i32) -> spec_fn(Permission) -> bool {
    |p: Permission| p.grantee == Grantee::User(uid)
}

/// A grant of `uid`, listed with its workspace.
pub open spec fn listed_for_user(t: Tables, p: Permission) -> WorkspaceWithPermission {
    WorkspaceWithPermission { workspace: workspace_of(t, p.workspace_id), permission: p.type_ }
}

pub open spec fn listing(t: Tables) -> spec_fn(Permission) -> WorkspaceWithPermission {
    |p: Permission| listed_for_user(t, p)
}

pub open spec fn membership(t: Tables) -> spec_fn(Permission) -> Member {
    |p: Permission| member_of(t, p)
}

/// A grant listed as a member, with a registered grantee resolved to its user.
pub open spec fn member_of(t: Tables, p: Permission) -> Member {
    Member {
        id: p.id,
        type_: p.type_,
        accepted: p.accepted,
        created_at: p.created_at,
        user: match p.grantee {
            Grantee::User(u) => UserCred::Registered(user_of(t, u)),
            Grantee::Email(e) => UserCred::UnRegistered { email: e },
        },
    }
}

/// Whether a workspace with id `wid` exists and is of kind `Normal`.
pub open spec fn is_normal_workspace(t: Tables, wid: i64) -> bool {
    exists|j: int|
        0 <= j < t.workspaces.len() && #[trigger] t.workspaces[j].id == wid && t.workspaces[j].type_
            == WorkspaceType::Normal
}

/// Changing rows without changing their keys keeps the invariant.
pub(crate) proof fn lemma_same_keys(a: Tables, b: Tables)
    requires
        a.wf(),
        b.users == a.users,
        b.workspaces.len() == a.workspaces.len(),
        forall|k: int|
            0 <= k < a.workspaces.len() ==> #[trigger] b.workspaces[k].id == a.workspaces[k].id
                && b.workspaces[k].type_ == a.workspaces[k].type_,
        b.permissions.len() == a.permissions.len(),
        forall|k: int|
            0 <= k < a.permissions.len() ==> #[trigger] b.permissions[k].id == a.permissions[k].id
                && b.permissions[k].workspace_id == a.permissions[k].workspace_id
                && b.permissions[k].grantee == a.permissions[k].grantee,
        b.next_user_id == a.next_user_id,
        b.next_workspace_id == a.next_workspace_id,
        b.next_permission_id == a.next_permission_id,
    ensures
        b.wf(),
{
    assert forall|w: i64| a.has_workspace(w) implies b.has_workspace(w) by {
        let j = choose|j: int| 0 <= j < a.workspaces.len() && #[trigger] a.workspaces[j].id == w;
        assert(b.workspaces[j].id == a.workspaces[j].id);
    }
    assert forall|i: int| 0 <= i < b.permissions.len() implies {
        &&& #[trigger] b.permissions[i].id < b.next_permission_id
        &&& b.has_workspace(b.permissions[i].workspace_id)
        &&& (b.permissions[i].grantee matches Grantee::User(u) ==> b.has_user_id(u))
    } by {
        assert(a.permissions[i].id < a.next_permission_id);
    }
    assert forall|i: int, j: int|
        0 <= i < b.permissions.len() && 0 <= j < b.permissions.len() && i != j implies {
            &&& #[trigger] b.permissions[i].id != #[trigger] b.permissions[j].id
            &&& !(b.permissions[i].workspace_id == b.permissions[j].workspace_id
                && same_identity(b.permissions[i].grantee, b.permissions[j].grantee))
        } by {
        assert(a.permissions[i].id != a.permissions[j].id);
    }
    assert forall|i: int, j: int|
        0 <= i < b.workspaces.len() && 0 <= j < b.workspaces.len() && i != j implies
            #[trigger] b.workspaces[i].id != #[trigger] b.workspaces[j].id by {
        assert(a.workspaces[i].id != a.workspaces[j].id);
    }
    assert forall|i: int| 0 <= i < b.workspaces.len() implies #[trigger] b.workspaces[i].id < b.next_workspace_id by {
        assert(a.workspaces[i].id < a.next_workspace_id);
    }
    assert forall|i: int, j: int|
        0 <= i < b.permissions.len() && 0 <= j < b.workspaces.len()
            && #[trigger] b.permissions[i].workspace_id == #[trigger] b.workspaces[j].id
            && b.permissions[i].grantee is Email implies b.workspaces[j].type_ == WorkspaceType::Normal by {
        assert(b.permissions[i].id == a.permissions[i].id);
        assert(b.workspaces[j].id == a.workspaces[j].id);
        assert(a.permissions[i].workspace_id == a.workspaces[j].id);
    }
}

/// The identity that an invitation of `email` binds: the registered user
/// with that email, or else the bare email.
pub open spec fn grantee_for(t: Tables, email: String) -> Grantee {
    if t.has_email(email@) {
        Grantee::User(
            t.users[choose|j: int| 0 <= j < t.users.len() && #[trigger] t.users[j].user.email@ == email@].user.id,
        )
    } else {
        Grantee::Email(email)
    }
}

/// The tables after an unaccepted grant of `role` for `g` on `wid` was added.
pub open spec fn invited(t: Tables, g: Grantee, wid: i64, role: PermissionType, now: i64) -> Tables {
    Tables {
        permissions: t.permissions.push(
            Permission {
                id: t.next_permission_id as i64,
                workspace_id: wid,
                grantee: g,
                type_: role,
                accepted: false,
                created_at: now,
            },
        ),
        next_permission_id: t.next_permission_id + 1,
        ..t
    }
}

/// What an invitation of `email` to `wid` with `role` does, from tables `t0`
/// to `t1` with result `r`: a grant is added exactly when the workspace is
/// `Normal` and the identity holds no grant on it yet.
pub open spec fn invite_outcome(
    t0: Tables,
    t1: Tables,
    email: String,
    wid: i64,
    role: PermissionType,
    now: i64,
    r: Result<Option<(i64, UserCred)>, StoreError>,
) -> bool {
    let g = grantee_for(t0, email);
    let admitted = is_normal_workspace(t0, wid) && !t0.has_grant(wid, g);
    &&& (r matches Ok(Some(_))) <==> admitted && t0.next_permission_id <= i64::MAX
    &&& r is Err <==> admitted && t0.next_permission_id > i64::MAX
    &&& r is Err ==> r == Err::<Option<(i64, UserCred)>, StoreError>(StoreError::IdsExhausted)
    &&& !(r matches Ok(Some(_))) ==> t1 == t0
    &&& r matches Ok(Some((id, cred))) ==> {
        &&& id == t0.next_permission_id
        &&& t1 == invited(t0, g, wid, role, now)
        &&& match cred {
            UserCred::Registered(u) => g == Grantee::User(u.id) && u == user_of(t0, u.id) && u.email@ == email@,
            UserCred::UnRegistered { email: e } => e@ == email@ && !t0.has_email(email@),
        }
    }
}

pub open spec fn owner_on(wid: i64) -> spec_fn(Permission) -> bool {
    |p: Permission| p.workspace_id == wid && p.type_ == PermissionType::Owner
}

/// Whether `p` is a grant of user `uid` on `wid` that is not an Owner grant.
pub open spec fn is_revocable(p: Permission, uid: i32, wid: i64) -> bool {
    p.workspace_id == wid && p.grantee == Grantee::User(uid) && p.type_ != PermissionType::Owner
}

/// What revoking the non-owner grant of `uid` on `wid` does, from `t0` to `t1`.
pub open spec fn revoke_outcome(t0: Tables, t1: Tables, uid: i32, wid: i64, r: bool) -> bool {
    &&& r == exists|k: int| 0 <= k < t0.permissions.len() && is_revocable(#[trigger] t0.permissions[k], uid, wid)
    &&& !r ==> t1 == t0
    &&& r ==> exists|k: int|
        0 <= k < t0.permissions.len() && is_revocable(#[trigger] t0.permissions[k], uid, wid)
            && t1 == (Tables { permissions: t0.permissions.remove(k), ..t0 })
}

/// Adding a grant for an identity that holds none on a `Normal` workspace
/// keeps the invariant.
pub(crate) proof fn lemma_invited_wf(t: Tables, g: Grantee, wid: i64, role: PermissionType, now: i64)
    requires
        t.wf(),
        is_normal_workspace(t, wid),
        !t.has_grant(wid, g),
        g matches Grantee::User(u) ==> t.has_user_id(u),
        t.next_permission_id <= i64::MAX,
    ensures
        invited(t, g, wid, role, now).wf(),
{
    let n = invited(t, g, wid, role, now);
    let plen = t.permissions.len() as int;
    let wi = choose|j: int|
        0 <= j < t.workspaces.len() && #[trigger] t.workspaces[j].id == wid && t.workspaces[j].type_
            == WorkspaceType::Normal;
    assert forall|i: int| 0 <= i < n.permissions.len() implies {
        &&& #[trigger] n.permissions[i].id < n.next_permission_id
        &&& n.has_workspace(n.permissions[i].workspace_id)
        &&& (n.permissions[i].grantee matches Grantee::User(u) ==> n.has_user_id(u))
    } by {
        if i < plen {
            assert(n.permissions[i] == t.permissions[i]);
            assert(t.permissions[i].id < t.next_permission_id);
        } else {
            assert(n.workspaces[wi].id == wid);
        }
    }
    assert forall|i: int, j: int|
        0 <= i < n.permissions.len() && 0 <= j < n.permissions.len() && i != j implies {
            &&& #[trigger] n.permissions[i].id != #[trigger] n.permissions[j].id
            &&& !(n.permissions[i].workspace_id == n.permissions[j].workspace_id
                && same_identity(n.permissions[i].grantee, n.permissions[j].grantee))
        } by {
        if i < plen {
            assert(n.permissions[i] == t.permissions[i]);
            assert(t.permissions[i].id < t.next_permission_id);
        }
        if j < plen {
            assert(n.permissions[j] == t.permissions[j]);
            assert(t.permissions[j].id < t.next_permission_id);
        }
        if i == plen && same_identity(n.permissions[i].grantee, n.permissions[j].grantee)
            && n.permissions[i].workspace_id == n.permissions[j].workspace_id {
            assert(same_identity(t.permissions[j].grantee, g));
        }
        if j == plen && same_identity(n.permissions[i].grantee, n.permissions[j].grantee)
            && n.permissions[i].workspace_id == n.permissions[j].workspace_id {
            assert(same_identity(t.permissions[i].grantee, g));
        }
    }
    assert forall|i: int, j: int|
        0 <= i < n.permissions.len() && 0 <= j < n.workspaces.len()
            && #[trigger] n.permissions[i].workspace_id == #[trigger] n.workspaces[j].id
            && n.permissions[i].grantee is Email implies n.workspaces[j].type_ == WorkspaceType::Normal by {
        if i < plen {
            assert(n.permissions[i] == t.permissions[i]);
        } else if j != wi {
            assert(t.workspaces[j].id != t.workspaces[wi].id);
        }
    }
}

pub open spec fn not_on(wid: i64) -> spec_fn(Permission) -> bool {
    |p: Permission| p.workspace_id != wid
}

/// Deleting workspace row `i` together with every grant on it keeps the
/// invariant; `idx` maps each kept grant to its place in the old table.
pub(crate) proof fn lemma_delete_workspace_wf(t: Tables, i: int, kept: Seq<Permission>, idx: Seq<int>)
    requires
        t.wf(),
        0 <= i < t.workspaces.len(),
        idx.len() == kept.len(),
        forall|k: int| 0 <= k < kept.len() ==> 0 <= #[trigger] idx[k] < t.permissions.len() && kept[k] == t.permissions[idx[k]],
        forall|k1: int, k2: int| 0 <= k1 < k2 < kept.len() ==> #[trigger] idx[k1] < #[trigger] idx[k2],
        forall|k: int| 0 <= k < kept.len() ==> #[trigger] kept[k].workspace_id != t.workspaces[i].id,
    ensures
        (Tables { workspaces: t.workspaces.remove(i), permissions: kept, ..t }).wf(),
{
    let n = Tables { workspaces: t.workspaces.remove(i), permissions: kept, ..t };
    let wid = t.workspaces[i].id;
    assert forall|j: int, l: int|
        0 <= j < n.workspaces.len() && 0 <= l < n.workspaces.len() && j != l implies
            #[trigger] n.workspaces[j].id != #[trigger] n.workspaces[l].id by {
        let a = if j < i { j } else { j + 1 };
        let b = if l < i { l } else { l + 1 };
        assert(t.workspaces[a].id != t.workspaces[b].id);
    }
    assert forall|j: int| 0 <= j < n.workspaces.len() implies #[trigger] n.workspaces[j].id < n.next_workspace_id by {
        let a = if j < i { j } else { j + 1 };
        assert(t.workspaces[a].id < t.next_workspace_id);
    }
    assert forall|k: int| 0 <= k < n.permissions.len() implies {
        &&& #[trigger] n.permissions[k].id < n.next_permission_id
        &&& n.has_workspace(n.permissions[k].workspace_id)
        &&& (n.permissions[k].grantee matches Grantee::User(u) ==> n.has_user_id(u))
    } by {
        let m = idx[k];
        assert(t.permissions[m].id < t.next_permission_id);
        let w = t.permissions[m].workspace_id;
        let j = choose|j: int| 0 <= j < t.workspaces.len() && #[trigger] t.workspaces[j].id == w;
        assert(j != i);
        let a = if j < i { j } else { j - 1 };
        assert(n.workspaces[a].id == w);
    }
    assert forall|k1: int, k2: int|
        0 <= k1 < n.permissions.len() && 0 <= k2 < n.permissions.len() && k1 != k2 implies {
            &&& #[trigger] n.permissions[k1].id != #[trigger] n.permissions[k2].id
            &&& !(n.permissions[k1].workspace_id == n.permissions[k2].workspace_id
                && same_identity(n.permissions[k1].grantee, n.permissions[k2].grantee))
        } by {
        if k1 < k2 {
            assert(idx[k1] < idx[k2]);
        } else {
            assert(idx[k2] < idx[k1]);
        }
        assert(t.permissions[idx[k1]].id != t.permissions[idx[k2]].id);
    }
    assert forall|k: int, j: int|
        0 <= k < n.permissions.len() && 0 <= j < n.workspaces.len()
            && #[trigger] n.permissions[k].workspace_id == #[trigger] n.workspaces[j].id
            && n.permissions[k].grantee is Email implies n.workspaces[j].type_ == WorkspaceType::Normal by {
        let a = if j < i { j } else { j + 1 };
        assert(t.permissions[idx[k]].workspace_id == t.workspaces[a].id);
    }
}

/// Removing one grant keeps the invariant.
pub(crate) proof fn lemma_remove_grant_wf(t: Tables, k: int)
    requires
        t.wf(),
        0 <= k < t.permissions.len(),
    ensures
        (Tables { permissions: t.permissions.remove(k), ..t }).wf(),
{
    let n = Tables { permissions: t.permissions.remove(k), ..t };
    assert forall|i: int| 0 <= i < n.permissions.len() implies {
        &&& #[trigger] n.permissions[i].id < n.next_permission_id
        &&& n.has_workspace(n.permissions[i].workspace_id)
        &&& (n.permissions[i].grantee matches Grantee::User(u) ==> n.has_user_id(u))
    } by {
        if i < k {
            assert(t.permissions[i].id < t.next_permission_id);
        } else {
            assert(t.permissions[i + 1].id < t.next_permission_id);
        }
    }
    assert forall|i: int, j: int|
        0 <= i < n.permissions.len() && 0 <= j < n.permissions.len() && i != j implies {
            &&& #[trigger] n.permissions[i].id != #[trigger] n.permissions[j].id
            &&& !(n.permissions[i].workspace_id == n.permissions[j].workspace_id
                && same_identity(n.permissions[i].grantee, n.permissions[j].grantee))
        } by {
        let a = if i < k { i } else { i + 1 };
        let b = if j < k { j } else { j + 1 };
        assert(t.permissions[a].id != t.permissions[b].id);
    }
    assert forall|i: int, j: int|
        0 <= i < n.permissions.len() && 0 <= j < n.workspaces.len()
            && #[trigger] n.permissions[i].workspace_id == #[trigger] n.workspaces[j].id
            && n.permissions[i].grantee is Email implies n.workspaces[j].type_ == WorkspaceType::Normal by {
        let a = if i < k { i } else { i + 1 };
        assert(t.permissions[a].workspace_id == t.workspaces[j].id);
    }
}

/// Removing an element that `pred` rejects leaves the filtered sequence as
/// it was.
pub(crate) proof fn lemma_filter_remove(s: Seq<Permission>, k: int, pred: spec_fn(Permission) -> bool)
    requires
        0 <= k < s.len(),
        !pred(s[k]),
    ensures
        s.remove(k).filter(pred) == s.filter(pred),
{
    broadcast use vstd::seq_lib::group_seq_lib_default;

    let a = s.subrange(0, k);
    let b = s.subrange(k + 1, s.len() as int);
    assert(s.remove(k) =~= a + b);
    assert(s =~= a + (seq![s[k]] + b));
    assert(seq![s[k]] =~= Seq::<Permission>::empty().push(s[k]));
    Seq::<Permission>::empty().lemma_filter_push(s[k], pred);
    assert(Seq::<Permission>::empty().filter(pred) =~= Seq::<Permission>::empty());
    assert(seq![s[k]].filter(pred) =~= Seq::<Permission>::empty());
    assert((seq![s[k]] + b).filter(pred) == b.filter(pred)) by {
        Seq::filter_distributes_over_add(seq![s[k]], b, pred);
        assert(seq![s[k]].filter(pred) + b.filter(pred) =~= b.filter(pred));
    }
    Seq::filter_distributes_over_add(a, b, pred);
    Seq::filter_distributes_over_add(a, seq![s[k]] + b, pred);
}

/// Inviting the same email to the same `Normal` workspace with the same role
/// twice in a row: the second invitation is absorbed, changes nothing, and
/// the identity ends with exactly one grant on the workspace.
pub proof fn lemma_invite_twice(
    t0: Tables,
    t1: Tables,
    t2: Tables,
    email: String,
    wid: i64,
    role: PermissionType,
    now1: i64,
    now2: i64,
    r1: Result<Option<(i64, UserCred)>, StoreError>,
    r2: Result<Option<(i64, UserCred)>, StoreError>,
)
    requires
        t0.wf(),
        t1.wf(),
        is_normal_workspace(t0, wid),
        invite_outcome(t0, t1, email, wid, role, now1, r1),
        invite_outcome(t1, t2, email, wid, role, now2, r2),
        r1 is Ok,
    ensures
        r2 matches Ok(None),
        t2 == t1,
        exists|k: int|
            0 <= k < t2.permissions.len() && #[trigger] t2.permissions[k].workspace_id == wid
                && same_identity(t2.permissions[k].grantee, grantee_for(t2, email)) && forall|k2: int|
                0 <= k2 < t2.permissions.len() && #[trigger] t2.permissions[k2].workspace_id == wid
                    && same_identity(t2.permissions[k2].grantee, grantee_for(t2, email)) ==> k2 == k,
{
    let g = grantee_for(t0, email);
    assert(t1.users == t0.users);
    assert(grantee_for(t1, email) == g);
    assert(is_normal_workspace(t1, wid)) by {
        let j = choose|j: int|
            0 <= j < t0.workspaces.len() && #[trigger] t0.workspaces[j].id == wid && t0.workspaces[j].type_
                == WorkspaceType::Normal;
        assert(t1.workspaces[j] == t0.workspaces[j]);
    }
    assert(t1.has_grant(wid, g)) by {
        if r1 matches Ok(Some(_)) {
            let k = t0.permissions.len() as int;
            assert(t1.permissions[k].workspace_id == wid);
            assert(same_identity(t1.permissions[k].grantee, g));
        }
    }
    let k = choose|k: int|
        0 <= k < t1.permissions.len() && #[trigger] t1.permissions[k].workspace_id == wid
            && same_identity(t1.permissions[k].grantee, g);
    assert forall|k2: int|
        0 <= k2 < t2.permissions.len() && #[trigger] t2.permissions[k2].workspace_id == wid
            && same_identity(t2.permissions[k2].grantee, grantee_for(t2, email)) implies k2 == k by {
        if k2 != k {
            assert(t1.permissions[k2].id != t1.permissions[k].id);
            assert(same_identity(t1.permissions[k2].grantee, t1.permissions[k].grantee));
        }
    }
}

/// Revoking through the owner-protected path never removes an Owner grant:
/// on every workspace the Owner grants are the same before and after.
pub proof fn lemma_owner_grants_survive(t0: Tables, t1: Tables, uid: i32, wid: i64, r: bool, w: i64)
    requires
        revoke_outcome(t0, t1, uid, wid, r),
    ensures
        t1.permissions.filter(owner_on(w)) == t0.permissions.filter(owner_on(w)),
        t1.permissions.filter(owner_on(w)).len() == t0.permissions.filter(owner_on(w)).len(),
{
    if r {
        let k = choose|k: int|
            0 <= k < t0.permissions.len() && is_revocable(#[trigger] t0.permissions[k], uid, wid)
                && t1 == (Tables { permissions: t0.permissions.remove(k), ..t0 });
        lemma_filter_remove(t0.permissions, k, owner_on(w));
    }
}

/// The refresh-token nonce that follows `n`.
pub open spec fn next_nonce(n: i16) -> i16 {
    if n == i16::MAX {
        0
    } else {
        (n + 1) as i16
    }
}

} // verus!
