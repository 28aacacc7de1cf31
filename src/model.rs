use vstd::prelude::*;

verus! {

/// The two kinds of workspace: one `Private` workspace per user, created at
/// registration, and shareable `Normal` workspaces.
#[derive(Clone, Copy, Debug, PartialEq, Eq, Structural)]
pub enum WorkspaceType {
    Private,
    Normal,
}

/// Roles of a grant, from the least to the most privileged.
#[derive(Clone, Copy, Debug, PartialEq, Eq, Structural)]
pub enum PermissionType {
    Read,
    Write,
    Admin,
    Owner,
}

impl PermissionType {
    /// Privilege rank: `Read` < `Write` < `Admin` < `Owner`.
    pub open spec fn rank(self) -> int {
        match self {
            PermissionType::Read => 0,
            PermissionType::Write => 1,
            PermissionType::Admin => 2,
            PermissionType::Owner => 3,
        }
    }

    /// Whether this role carries at least the privileges of `other`.
    pub fn at_least(self, other: PermissionType) -> (r: bool)
        ensures
            r == (self.rank() >= other.rank()),
    {
        let a: u8 = match self {
            PermissionType::Read => 0,
            PermissionType::Write => 1,
            PermissionType::Admin => 2,
            PermissionType::Owner => 3,
        };
        let b: u8 = match other {
            PermissionType::Read => 0,
            PermissionType::Write => 1,
            PermissionType::Admin => 2,
            PermissionType::Owner => 3,
        };
        a >= b
    }
}

#[derive(Clone, Copy, Debug, PartialEq, Eq, Structural)]
pub struct Workspace {
    pub id: i64,
    pub public: bool,
    pub type_: WorkspaceType,
    pub created_at: i64,
}

#[derive(Debug)]
pub struct User {
    pub id: i32,
    pub name: String,
    pub email: String,
    pub avatar_url: Option<String>,
    pub created_at: i64,
}

fn copy_text(s: &Option<String>) -> (r: Option<String>)
    ensures
        r == *s,
{
    match s {
        Some(t) => Some(t.clone()),
        None => None,
    }
}

impl User {
    pub fn copy(&self) -> (r: User)
        ensures
            r == *self,
    {
        User {
            id: self.id,
            name: self.name.clone(),
            email: self.email.clone(),
            avatar_url: copy_text(&self.avatar_url),
            created_at: self.created_at,
        }
    }
}

/// A user together with its current refresh-token nonce.
#[derive(Debug)]
pub struct UserWithNonce {
    pub user: User,
    pub token_nonce: i16,
}

/// A stored user row: the public record, its credential secret and its nonce.
#[derive(Debug)]
pub struct UserRecord {
    pub user: User,
    pub password: String,
    pub token_nonce: i16,
}

/// The identity a grant is bound to: a registered user's id, or a bare email
/// for someone who has not registered yet.
#[derive(Debug)]
pub enum Grantee {
    User(i32),
    Email(String),
}

impl Grantee {
    pub fn copy(&self) -> (r: Grantee)
        ensures
            r == *self,
    {
        match self {
            Grantee::User(id) => Grantee::User(*id),
            Grantee::Email(e) => Grantee::Email(e.clone()),
        }
    }
}

/// A grant: binds a grantee to a workspace with a role and an acceptance flag.
#[derive(Debug)]
pub struct Permission {
    pub id: i64,
    pub workspace_id: i64,
    pub grantee: Grantee,
    pub type_: PermissionType,
    pub accepted: bool,
    pub created_at: i64,
}

impl Permission {
    pub fn copy(&self) -> (r: Permission)
        ensures
            r == *self,
    {
        Permission {
            id: self.id,
            workspace_id: self.workspace_id,
            grantee: self.grantee.copy(),
            type_: self.type_,
            accepted: self.accepted,
            created_at: self.created_at,
        }
    }
}

/// How an invited email resolved: to a registered user, or to no one yet.
#[derive(Debug)]
pub enum UserCred {
    Registered(User),
    UnRegistered { email: String },
}

pub struct CreateUser {
    pub name: String,
    pub password: String,
    pub email: String,
    pub avatar_url: Option<String>,
}

pub struct UserLogin {
    pub email: String,
    pub password: String,
}

#[derive(Clone, Copy, Debug, PartialEq, Eq, Structural)]
pub struct RefreshToken {
    pub user_id: i32,
    pub token_nonce: i16,
}

#[derive(Clone, Copy, Debug, PartialEq, Eq, Structural)]
pub struct UpdateWorkspace {
    pub public: bool,
}

/// A workspace with its owner and number of accepted members. A `Private`
/// workspace discloses neither: its owner is `None` and its count `0`.
#[derive(Debug)]
pub struct WorkspaceDetail {
    pub owner: Option<User>,
    pub member_count: usize,
    pub workspace: Workspace,
}

/// A workspace together with the role that a given user holds in it.
#[derive(Clone, Copy, Debug, PartialEq, Eq, Structural)]
pub struct WorkspaceWithPermission {
    pub workspace: Workspace,
    pub permission: PermissionType,
}

/// One grant of a workspace, with the grantee resolved.
#[derive(Debug)]
pub struct Member {
    pub id: i64,
    pub type_: PermissionType,
    pub accepted: bool,
    pub created_at: i64,
    pub user: UserCred,
}

/// Whether an email is known, and whether that identity holds a grant on a
/// given workspace.
#[derive(Debug)]
pub struct UserInWorkspace {
    pub user: UserCred,
    pub in_workspace: bool,
}

/// Failures of the store: the compound operation was rolled back.
#[derive(Clone, Copy, Debug, PartialEq, Eq, Structural)]
pub enum StoreError {
    /// An id sequence has no further value.
    IdsExhausted,
    /// A grant names a user id that no user row has.
    UnknownUser,
    /// A rewrite would give an identity a second grant on one workspace.
    Conflict,
    /// A `Normal` workspace has no registered owner.
    OwnerMissing,
}

} // verus!
