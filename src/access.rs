//! The access-control model: stored policies of `(user, object, grant)` and
//! the grouping that expands each grant into the actions it allows.
use vstd::prelude::*;

verus! {

/// What a request wants to do with an object.
#[derive(Clone, Copy, Debug, PartialEq, Eq, Hash, Structural)]
pub enum Action {
    Read,
    Write,
    Delete,
}

/// Per-collab permission level.
#[derive(Clone, Copy, Debug, PartialEq, Eq, Hash, Structural)]
pub enum AccessLevel {
    ReadOnly,
    ReadAndComment,
    ReadAndWrite,
    FullAccess,
}

/// Per-workspace role of a member.
#[derive(Clone, Copy, Debug, PartialEq, Eq, Hash, Structural)]
pub enum Role {
    Owner,
    Member,
    Guest,
}

/// The right that one stored policy hands out.
#[derive(Clone, Copy, Debug, PartialEq, Eq, Hash, Structural)]
pub enum Grant {
    Level(AccessLevel),
    Role(Role),
}

/// The object a policy speaks of: a workspace (by its uuid) or a collab object.
#[derive(Clone, Debug)]
pub enum ObjectType {
    Workspace(u128),
    Collab(String),
}

/// Mathematical form of an [`ObjectType`].
pub enum ObjectKey {
    Workspace(u128),
    Collab(Seq<char>),
}

impl View for ObjectType {
    type V = ObjectKey;

    open spec fn view(&self) -> ObjectKey {
        match self {
            ObjectType::Workspace(w) => ObjectKey::Workspace(*w),
            ObjectType::Collab(s) => ObjectKey::Collab(s@),
        }
    }
}

/// One stored policy.
#[derive(Clone, Debug)]
pub struct Policy {
    pub uid: i64,
    pub object: ObjectType,
    pub grant: Grant,
}

/// A row of the collab membership table.
#[derive(Clone, Debug)]
pub struct CollabMemberRow {
    pub uid: i64,
    pub oid: String,
    pub access_level: AccessLevel,
}

/// A row of the workspace membership table.
#[derive(Clone, Debug)]
pub struct WorkspaceMemberRow {
    pub uid: i64,
    pub workspace_id: u128,
    pub role: Role,
}

pub open spec fn level_allows(level: AccessLevel, action: Action) -> bool {
    match action {
        Action::Read => true,
        Action::Write => level == AccessLevel::ReadAndWrite || level == AccessLevel::FullAccess,
        Action::Delete => level == AccessLevel::FullAccess,
    }
}

pub open spec fn role_allows(role: Role, action: Action) -> bool {
    match action {
        Action::Read => true,
        Action::Write => role == Role::Owner || role == Role::Member,
        Action::Delete => role == Role::Owner,
    }
}

pub open spec fn grant_allows(grant: Grant, action: Action) -> bool {
    match grant {
        Grant::Level(l) => level_allows(l, action),
        Grant::Role(r) => role_allows(r, action),
    }
}

impl AccessLevel {
    /// Whether this level lets its holder write.
    pub fn can_write(&self) -> (r: bool)
        ensures
            r == level_allows(*self, Action::Write),
    {
        match self {
            AccessLevel::ReadAndWrite | AccessLevel::FullAccess => true,
            _ => false,
        }
    }

    /// Whether this level lets its holder delete.
    pub fn can_delete(&self) -> (r: bool)
        ensures
            r == level_allows(*self, Action::Delete),
    {
        match self {
            AccessLevel::FullAccess => true,
            _ => false,
        }
    }
}

/// Whether a grant allows an action.
pub fn grant_allows_action(grant: Grant, action: Action) -> (r: bool)
    ensures
        r == grant_allows(grant, action),
{
    match grant {
        Grant::Level(l) => match action {
            Action::Read => true,
            Action::Write => l.can_write(),
            Action::Delete => l.can_delete(),
        },
        Grant::Role(role) => match action {
            Action::Read => true,
            Action::Write => match role {
                Role::Guest => false,
                _ => true,
            },
            Action::Delete => match role {
                Role::Owner => true,
                _ => false,
            },
        },
    }
}

/// Whether two objects are the same.
pub fn same_object(a: &ObjectType, b: &ObjectType) -> (r: bool)
    ensures
        r == (a@ == b@),
{
    match (a, b) {
        (ObjectType::Workspace(x), ObjectType::Workspace(y)) => *x == *y,
        (ObjectType::Collab(x), ObjectType::Collab(y)) => *x == *y,
        _ => false,
    }
}

/// Mathematical form of a [`Policy`]: user, object, grant.
pub type PolicyView = (i64, ObjectKey, Grant);

impl View for Policy {
    type V = PolicyView;

    open spec fn view(&self) -> PolicyView {
        (self.uid, self.object@, self.grant)
    }
}

/// The policy that a collab membership row stands for.
pub open spec fn collab_policy(row: CollabMemberRow) -> PolicyView {
    (row.uid, ObjectKey::Collab(row.oid@), Grant::Level(row.access_level))
}

/// The policy that a workspace membership row stands for.
pub open spec fn workspace_policy(row: WorkspaceMemberRow) -> PolicyView {
    (row.uid, ObjectKey::Workspace(row.workspace_id), Grant::Role(row.role))
}

/// Whether some stored policy lets `uid` perform `action` on `object`.
pub open spec fn allowed(ps: Seq<PolicyView>, uid: i64, object: ObjectKey, action: Action) -> bool {
    exists|i: int|
        0 <= i < ps.len() && #[trigger] ps[i].0 == uid && ps[i].1 == object && grant_allows(
            ps[i].2,
            action,
        )
}

/// Turns collab membership rows into policies, one per row, in row order.
pub fn create_collab_policies(rows: &Vec<CollabMemberRow>) -> (r: Vec<Policy>)
    ensures
        r.len() == rows.len(),
        forall|i: int| 0 <= i < rows.len() ==> #[trigger] r[i]@ == collab_policy(rows[i]),
{
    let mut policies: Vec<Policy> = Vec::new();
    let mut i: usize = 0;
    while i < rows.len()
        invariant
            i <= rows.len(),
            policies.len() == i,
            forall|j: int| 0 <= j < i ==> #[trigger] policies[j]@ == collab_policy(rows[j]),
        decreases rows.len() - i,
    {
        let row = &rows[i];
        policies.push(
            Policy {
                uid: row.uid,
                object: ObjectType::Collab(row.oid.clone()),
                grant: Grant::Level(row.access_level),
            },
        );
        i = i + 1;
    }
    policies
}

/// Turns workspace membership rows into policies, one per row, in row order.
pub fn create_workspace_policies(rows: &Vec<WorkspaceMemberRow>) -> (r: Vec<Policy>)
    ensures
        r.len() == rows.len(),
        forall|i: int| 0 <= i < rows.len() ==> #[trigger] r[i]@ == workspace_policy(rows[i]),
{
    let mut policies: Vec<Policy> = Vec::new();
    let mut i: usize = 0;
    while i < rows.len()
        invariant
            i <= rows.len(),
            policies.len() == i,
            forall|j: int| 0 <= j < i ==> #[trigger] policies[j]@ == workspace_policy(rows[j]),
        decreases rows.len() - i,
    {
        let row = &rows[i];
        policies.push(
            Policy {
                uid: row.uid,
                object: ObjectType::Workspace(row.workspace_id),
                grant: Grant::Role(row.role),
            },
        );
        i = i + 1;
    }
    policies
}

/// The grouping rules, level by level: every level reads; those that can
/// write, write; those that can delete, delete.
pub open spec fn grouping_rules() -> Seq<(AccessLevel, Action)> {
    seq![
        (AccessLevel::ReadOnly, Action::Read),
        (AccessLevel::ReadAndComment, Action::Read),
        (AccessLevel::ReadAndWrite, Action::Read),
        (AccessLevel::ReadAndWrite, Action::Write),
        (AccessLevel::FullAccess, Action::Read),
        (AccessLevel::FullAccess, Action::Write),
        (AccessLevel::FullAccess, Action::Delete),
    ]
}

fn push_level_rules(rules: &mut Vec<(AccessLevel, Action)>, level: AccessLevel)
    ensures
        final(rules)@ == old(rules)@ + (if level_allows(level, Action::Delete) {
            seq![(level, Action::Read), (level, Action::Write), (level, Action::Delete)]
        } else if level_allows(level, Action::Write) {
            seq![(level, Action::Read), (level, Action::Write)]
        } else {
            seq![(level, Action::Read)]
        }),
{
    rules.push((level, Action::Read));
    if level.can_write() {
        rules.push((level, Action::Write));
    }
    if level.can_delete() {
        rules.push((level, Action::Delete));
    }
}

/// The rules that expand each access level into the actions it implies.
pub fn grouping_policies() -> (r: Vec<(AccessLevel, Action)>)
    ensures
        r@ == grouping_rules(),
        forall|l: AccessLevel, a: Action| r@.contains((l, a)) <==> level_allows(l, a),
{
    let mut rules: Vec<(AccessLevel, Action)> = Vec::new();
    push_level_rules(&mut rules, AccessLevel::ReadOnly);
    push_level_rules(&mut rules, AccessLevel::ReadAndComment);
    push_level_rules(&mut rules, AccessLevel::ReadAndWrite);
    push_level_rules(&mut rules, AccessLevel::FullAccess);
    assert(rules@ =~= grouping_rules());
    assert forall|l: AccessLevel, a: Action| rules@.contains((l, a)) <==> level_allows(l, a) by {
        if level_allows(l, a) {
            let k: int = match (l, a) {
                (AccessLevel::ReadOnly, _) => 0,
                (AccessLevel::ReadAndComment, _) => 1,
                (AccessLevel::ReadAndWrite, Action::Read) => 2,
                (AccessLevel::ReadAndWrite, _) => 3,
                (AccessLevel::FullAccess, Action::Read) => 4,
                (AccessLevel::FullAccess, Action::Write) => 5,
                (AccessLevel::FullAccess, Action::Delete) => 6,
            };
            assert(rules@[k] == (l, a));
        }
    }
    rules
}

/// The loaded access-control model.
pub struct PolicyStore {
    policies: Vec<Policy>,
}

impl View for PolicyStore {
    type V = Seq<PolicyView>;

    closed spec fn view(&self) -> Seq<PolicyView> {
        self.policies@.map_values(|p: Policy| p@)
    }
}

impl PolicyStore {
    /// A store that holds no policy and so allows nothing.
    pub fn new() -> (r: PolicyStore)
        ensures
            r@ == Seq::<PolicyView>::empty(),
    {
        let r = PolicyStore { policies: Vec::new() };
        assert(r@ =~= Seq::<PolicyView>::empty());
        r
    }

    /// Builds a complete model from the two membership tables: workspace
    /// policies first, then collab policies.
    pub fn load(workspace_rows: &Vec<WorkspaceMemberRow>, collab_rows: &Vec<CollabMemberRow>) -> (r: PolicyStore)
        ensures
            r@ == workspace_rows@.map_values(|w: WorkspaceMemberRow| workspace_policy(w))
                + collab_rows@.map_values(|c: CollabMemberRow| collab_policy(c)),
    {
        let mut policies = create_workspace_policies(workspace_rows);
        let mut collab = create_collab_policies(collab_rows);
        policies.append(&mut collab);
        let r = PolicyStore { policies };
        assert(r@ =~= workspace_rows@.map_values(|w: WorkspaceMemberRow| workspace_policy(w))
            + collab_rows@.map_values(|c: CollabMemberRow| collab_policy(c)));
        r
    }

    /// Replaces the whole model at once with one built from the tables, so
    /// that no check ever sees a half-loaded model.
    pub fn reload(&mut self, workspace_rows: &Vec<WorkspaceMemberRow>, collab_rows: &Vec<CollabMemberRow>)
        ensures
            final(self)@ == workspace_rows@.map_values(|w: WorkspaceMemberRow| workspace_policy(w))
                + collab_rows@.map_values(|c: CollabMemberRow| collab_policy(c)),
    {
        *self = PolicyStore::load(workspace_rows, collab_rows);
    }

    /// Adds one policy.
    pub fn add_policy(&mut self, policy: Policy)
        ensures
            final(self)@ == old(self)@.push(policy@),
    {
        self.policies.push(policy);
        assert(self@ =~= old(self)@.push(policy@));
    }

    /// Whether `uid` may perform `action` on `object`.
    pub fn check(&self, uid: i64, object: &ObjectType, action: Action) -> (r: bool)
        ensures
            r == allowed(self@, uid, object@, action),
    {
        let mut i: usize = 0;
        while i < self.policies.len()
            invariant
                i <= self.policies.len(),
                forall|j: int|
                    0 <= j < i ==> !(#[trigger] self@[j].0 == uid && self@[j].1 == object@
                        && grant_allows(self@[j].2, action)),
            decreases self.policies.len() - i,
        {
            let p = &self.policies[i];
            if p.uid == uid && same_object(&p.object, object) && grant_allows_action(p.grant, action) {
                assert(self@[i as int].0 == uid);
                return true;
            }
            i = i + 1;
        }
        false
    }
}

/// A check succeeds only through a stored policy for that very user and
/// object whose grant implies the action; and whoever may do anything with an
/// object may also read it.
pub proof fn lemma_check_only_by_stored_grant(store: &PolicyStore, uid: i64, object: ObjectKey, action: Action)
    requires
        allowed(store@, uid, object, action),
    ensures
        exists|i: int|
            0 <= i < store@.len() && #[trigger] store@[i].0 == uid && store@[i].1 == object && grant_allows(
                store@[i].2,
                action,
            ),
        allowed(store@, uid, object, Action::Read),
{
    let i = choose|i: int|
        0 <= i < store@.len() && #[trigger] store@[i].0 == uid && store@[i].1 == object && grant_allows(
            store@[i].2,
            action,
        );
    assert(grant_allows(store@[i].2, Action::Read));
}

} // verus!
