//! The access decision for HTTP requests whose route carries a workspace id
//! and/or a collab object id.
use vstd::prelude::*;
use crate::access::{allowed, Action, ObjectKey, ObjectType, PolicyStore};

verus! {

/// Which kind of resource a check guards.
#[derive(Clone, Copy, Debug, PartialEq, Eq, Hash, Structural)]
pub enum AccessResource {
    Workspace,
    Collab,
}

/// The request methods the access decision distinguishes.
#[derive(Clone, Copy, Debug, PartialEq, Eq, Hash, Structural)]
pub enum HttpMethod {
    Get,
    Head,
    Post,
    Put,
    Patch,
    Delete,
    Options,
    Other,
}

/// One permission check a request must pass.
#[derive(Clone, Debug)]
pub struct AccessCheck {
    pub resource: AccessResource,
    pub object: ObjectType,
    pub action: Action,
}

/// Why a request was turned away.
#[derive(Clone, Copy, Debug, PartialEq, Eq, Hash, Structural)]
pub enum AccessError {
    /// The caller lacks the permission that the named resource asks for.
    Forbidden(AccessResource),
    /// The route names a resource but the caller's uid is unknown.
    UnknownUser,
}

pub open spec fn method_action(m: HttpMethod) -> Action {
    match m {
        HttpMethod::Post | HttpMethod::Put | HttpMethod::Patch => Action::Write,
        HttpMethod::Delete => Action::Delete,
        _ => Action::Read,
    }
}

/// The action a request method asks for: writes for `POST`, `PUT` and
/// `PATCH`, delete for `DELETE`, read for everything else.
pub fn method_to_action(m: HttpMethod) -> (r: Action)
    ensures
        r == method_action(m),
{
    match m {
        HttpMethod::Post | HttpMethod::Put | HttpMethod::Patch => Action::Write,
        HttpMethod::Delete => Action::Delete,
        _ => Action::Read,
    }
}

/// What `uuid::Uuid::parse_str` makes of a string, as a 128-bit value.
pub uninterp spec fn uuid_of(s: Seq<char>) -> Option<u128>;

/// Relies on `uuid::Uuid::parse_str` to accept the textual uuid forms and on
/// `Uuid::as_u128` to read the result as one big-endian number.
#[verifier::external_body]
fn parse_uuid(s: &str) -> (r: Option<u128>)
    ensures
        r == uuid_of(s@),
{
    uuid::Uuid::parse_str(s).ok().map(|u| u.as_u128())
}

/// Reads the workspace route parameter: `None` when it is missing,
/// `Some(None)` when it is present but no uuid, `Some(Some(id))` otherwise.
pub fn parse_workspace_param(param: Option<&str>) -> (r: Option<Option<u128>>)
    ensures
        r == match param {
            Some(s) => Some(uuid_of(s@)),
            None => None,
        },
{
    match param {
        Some(s) => Some(parse_uuid(s)),
        None => None,
    }
}

pub open spec fn check_view(c: AccessCheck) -> (AccessResource, ObjectKey, Action) {
    (c.resource, c.object@, c.action)
}

/// The checks a request needs, workspace first, then collab object.
pub open spec fn checks_for(workspace: Option<u128>, object: Option<Seq<char>>, action: Action) -> Seq<
    (AccessResource, ObjectKey, Action),
> {
    let w = match workspace {
        Some(id) => seq![(AccessResource::Workspace, ObjectKey::Workspace(id), action)],
        None => Seq::empty(),
    };
    let c = match object {
        Some(oid) => seq![(AccessResource::Collab, ObjectKey::Collab(oid), action)],
        None => Seq::empty(),
    };
    w + c
}

pub open spec fn opt_view(o: Option<&str>) -> Option<Seq<char>> {
    match o {
        Some(s) => Some(s@),
        None => None,
    }
}

/// The checks for a request on workspace `workspace_id` (if any) and object
/// `object_param` (if any) with this method.
pub fn required_checks(workspace_id: Option<u128>, object_param: Option<&str>, method: HttpMethod) -> (r: Vec<AccessCheck>)
    ensures
        r@.map_values(|c: AccessCheck| check_view(c)) == checks_for(
            workspace_id,
            opt_view(object_param),
            method_action(method),
        ),
{
    let action = method_to_action(method);
    let mut checks: Vec<AccessCheck> = Vec::new();
    if let Some(id) = workspace_id {
        checks.push(AccessCheck { resource: AccessResource::Workspace, object: ObjectType::Workspace(id), action });
    }
    if let Some(oid) = object_param {
        checks.push(AccessCheck { resource: AccessResource::Collab, object: ObjectType::Collab(oid.to_string()), action });
    }
    assert(checks@.map_values(|c: AccessCheck| check_view(c)) =~= checks_for(workspace_id, opt_view(object_param), action));
    checks
}

/// The first check in `cs` that `uid` fails, if any.
pub open spec fn first_failure(ps: Seq<crate::access::PolicyView>, uid: i64, cs: Seq<(AccessResource, ObjectKey, Action)>) -> Option<
    AccessResource,
>
    decreases cs.len(),
{
    if cs.len() == 0 {
        None
    } else if !allowed(ps, uid, cs[0].1, cs[0].2) {
        Some(cs[0].0)
    } else {
        first_failure(ps, uid, cs.drop_first())
    }
}

/// Runs the checks in order and stops at the first that fails.
pub fn authorize(store: &PolicyStore, uid: i64, checks: &Vec<AccessCheck>) -> (r: Result<(), AccessError>)
    ensures
        r == match first_failure(store@, uid, checks@.map_values(|c: AccessCheck| check_view(c))) {
            Some(res) => Err(AccessError::Forbidden(res)),
            None => Ok(()),
        },
{
    let ghost cs = checks@.map_values(|c: AccessCheck| check_view(c));
    let mut i: usize = 0;
    assert(cs.skip(0) =~= cs);
    while i < checks.len()
        invariant
            i <= checks.len(),
            cs == checks@.map_values(|c: AccessCheck| check_view(c)),
            first_failure(store@, uid, cs) == first_failure(store@, uid, cs.skip(i as int)),
        decreases checks.len() - i,
    {
        let c = &checks[i];
        assert(cs.skip(i as int)[0] == check_view(*c));
        assert(cs.skip(i as int).drop_first() =~= cs.skip(i + 1));
        if !store.check(uid, &c.object, c.action) {
            return Err(AccessError::Forbidden(c.resource));
        }
        i = i + 1;
    }
    assert(cs.skip(i as int).len() == 0);
    Ok(())
}

/// The decision for a request whose workspace parameter has been read
/// (see [`parse_workspace_param`]): no check when the route names neither a
/// workspace nor an object; otherwise the caller must be known, a workspace
/// parameter that is no uuid is refused, and the caller must pass the
/// workspace check, then the collab check.
pub open spec fn decision(
    ps: Seq<crate::access::PolicyView>,
    uid: Option<i64>,
    workspace: Option<Option<u128>>,
    object: Option<Seq<char>>,
    action: Action,
) -> Result<(), AccessError> {
    if workspace is None && object is None {
        Ok(())
    } else {
        match uid {
            None => Err(AccessError::UnknownUser),
            Some(u) => if workspace == Some(None::<u128>) {
                Err(AccessError::Forbidden(AccessResource::Workspace))
            } else {
                let id = match workspace {
                    Some(Some(id)) => Some(id),
                    _ => None,
                };
                match first_failure(ps, u, checks_for(id, object, action)) {
                    Some(res) => Err(AccessError::Forbidden(res)),
                    None => Ok(()),
                }
            },
        }
    }
}

/// The access decision over an already-read workspace parameter.
pub fn authorize_parsed(
    store: &PolicyStore,
    uid: Option<i64>,
    workspace: Option<Option<u128>>,
    object_param: Option<&str>,
    method: HttpMethod,
) -> (r: Result<(), AccessError>)
    ensures
        r == decision(store@, uid, workspace, opt_view(object_param), method_action(method)),
{
    if workspace.is_none() && object_param.is_none() {
        return Ok(());
    }
    let u = match uid {
        None => {
            return Err(AccessError::UnknownUser);
        },
        Some(u) => u,
    };
    let id = match workspace {
        Some(None) => {
            return Err(AccessError::Forbidden(AccessResource::Workspace));
        },
        Some(Some(id)) => Some(id),
        None => None,
    };
    let checks = required_checks(id, object_param, method);
    authorize(store, u, &checks)
}

/// The whole decision for one request, from its route parameters.
pub fn authorize_request(
    store: &PolicyStore,
    uid: Option<i64>,
    workspace_param: Option<&str>,
    object_param: Option<&str>,
    method: HttpMethod,
) -> (r: Result<(), AccessError>)
    ensures
        r == decision(
            store@,
            uid,
            match workspace_param {
                Some(s) => Some(uuid_of(s@)),
                None => None,
            },
            opt_view(object_param),
            method_action(method),
        ),
{
    let workspace = parse_workspace_param(workspace_param);
    authorize_parsed(store, uid, workspace, object_param, method)
}

} // verus!
