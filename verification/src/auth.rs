//! Who is asking: API keys and session cookies in request headers, the
//! answers of the authentication service, and the context that every
//! protected operation runs under.
use vstd::prelude::*;

use crate::error::{AppError, AppResult};
use crate::input::opt_view;
use crate::text::{
    chars_of, eq_lit, split, split_chars, split_once, split_once_chars, starts_with, starts_with_lit,
    string_from, trim, trim_chars,
};

verus! {

/// An account as the authentication service describes it.
pub struct BridgeUser {
    pub id: String,
    pub name: String,
    pub email: String,
    pub image: Option<String>,
    pub role: String,
    pub approval_status: String,
}

/// A user's place in a workspace.
pub struct Membership {
    pub organization_id: String,
    pub organization_name: String,
    pub organization_slug: String,
    pub role: String,
}

/// A signed-in browser session, with the workspace it is acting in.
pub struct BridgeSession {
    pub user: BridgeUser,
    pub active_organization_id: Option<String>,
    pub active_role: Option<String>,
    pub memberships: Vec<Membership>,
}

/// An API key that the authentication service has accepted.
pub struct VerifiedApiKey {
    pub id: String,
    pub organization_id: String,
    pub created_by_user_id: Option<String>,
    pub permissions: Vec<String>,
}

/// Who performs an operation and in which workspace.
pub struct AuthContext {
    pub user_id: Option<String>,
    pub api_key_id: Option<String>,
    pub organization_id: String,
    pub role: String,
    pub is_global_admin: bool,
}

/// The API key a request carries: a non-blank `X-API-Key` header (trimmed)
/// wins; otherwise an `Authorization: Bearer` value, trimmed and non-blank.
pub open spec fn spec_api_key(x_api_key: Option<Seq<char>>, authorization: Option<Seq<char>>) -> Option<Seq<char>> {
    if x_api_key is Some && trim(x_api_key->0).len() > 0 {
        Some(trim(x_api_key->0))
    } else {
        match authorization {
            Some(a) => if starts_with(a, "Bearer "@) && trim(a.skip(7)).len() > 0 {
                Some(trim(a.skip(7)))
            } else {
                None
            },
            None => None,
        }
    }
}

/// The view of an optional `str`.
pub open spec fn str_view(v: Option<&str>) -> Option<Seq<char>> {
    match v {
        Some(s) => Some(s@),
        None => None,
    }
}

/// Extracts the API key from the `X-API-Key` and `Authorization` header
/// values (each `None` when absent or not visible ASCII text).
pub fn api_key_from_headers(x_api_key: Option<&str>, authorization: Option<&str>) -> (r: Option<String>)
    ensures
        opt_view(r) == spec_api_key(str_view(x_api_key), str_view(authorization)),
{
    match x_api_key {
        Some(v) => {
            let c = chars_of(v);
            let t = trim_chars(c.as_slice());
            if t.len() > 0 {
                return Some(string_from(t.as_slice()));
            }
        },
        None => {},
    }
    match authorization {
        Some(a) => {
            let c = chars_of(a);
            if !starts_with_lit(c.as_slice(), "Bearer ") {
                return None;
            }
            proof {
                reveal_strlit("Bearer ");
            }
            let mut rest: Vec<char> = Vec::new();
            let mut i: usize = 7;
            while i < c.len()
                invariant
                    7 <= i <= c@.len(),
                    rest@ == c@.subrange(7, i as int),
                decreases c@.len() - i,
            {
                rest.push(c[i]);
                i = i + 1;
                assert(rest@ =~= c@.subrange(7, i as int));
            }
            assert(rest@ =~= a@.skip(7));
            let t = trim_chars(rest.as_slice());
            if t.len() > 0 {
                Some(string_from(t.as_slice()))
            } else {
                None
            }
        },
        None => None,
    }
}

/// The value of the first cookie named `vault_workspace` in a `Cookie` header.
pub open spec fn cookie_value(pieces: Seq<Seq<char>>) -> Option<Seq<char>>
    decreases pieces.len(),
{
    if pieces.len() == 0 {
        None
    } else {
        match split_once(trim(pieces[0]), '=') {
            Some((name, value)) => if name == "vault_workspace"@ {
                Some(value)
            } else {
                cookie_value(pieces.drop_first())
            },
            None => cookie_value(pieces.drop_first()),
        }
    }
}

/// The workspace a browser last switched to, from its `Cookie` header.
pub fn workspace_cookie(cookie_header: Option<&str>) -> (r: Option<String>)
    ensures
        opt_view(r) == match cookie_header {
            Some(c) => cookie_value(split(c@, ';')),
            None => None,
        },
{
    let header = match cookie_header {
        Some(h) => h,
        None => {
            return None;
        },
    };
    let c = chars_of(header);
    let pieces = split_chars(c.as_slice(), ';');
    let ghost all = split(header@, ';');
    let mut i: usize = 0;
    assert(all.skip(0) =~= all);
    while i < pieces.len()
        invariant
            i <= pieces@.len(),
            all == split(header@, ';'),
            cookie_header == Some(header),
            pieces@.len() == all.len(),
            forall|k: int| 0 <= k < pieces@.len() ==> #[trigger] pieces@[k]@ == all[k],
            cookie_value(all) == cookie_value(all.skip(i as int)),
        decreases pieces@.len() - i,
    {
        assert(all.skip(i as int).drop_first() =~= all.skip(i + 1));
        assert(all.skip(i as int)[0] == all[i as int]);
        let t = trim_chars(pieces[i].as_slice());
        match split_once_chars(t.as_slice(), '=') {
            Some((name, value)) => {
                if eq_lit(name.as_slice(), "vault_workspace") {
                    return Some(string_from(value.as_slice()));
                }
            },
            None => {},
        }
        i = i + 1;
    }
    assert(all.skip(i as int) =~= Seq::<Seq<char>>::empty());
    None
}

/// Whether a comma-separated role list names `admin`.
pub open spec fn has_admin_role(roles: Seq<char>) -> bool {
    exists|i: int| 0 <= i < split(roles, ',').len() && #[trigger] split(roles, ',')[i] == "admin"@
}

/// Whether a user's role list makes them a global administrator.
pub fn is_global_admin_role(roles: &str) -> (r: bool)
    ensures
        r == has_admin_role(roles@),
{
    let c = chars_of(roles);
    let pieces = split_chars(c.as_slice(), ',');
    let ghost all = split(roles@, ',');
    let mut i: usize = 0;
    while i < pieces.len()
        invariant
            i <= pieces@.len(),
            all == split(roles@, ','),
            pieces@.len() == all.len(),
            forall|k: int| 0 <= k < pieces@.len() ==> #[trigger] pieces@[k]@ == all[k],
            forall|k: int| 0 <= k < i ==> #[trigger] all[k] != "admin"@,
        decreases pieces@.len() - i,
    {
        if eq_lit(pieces[i].as_slice(), "admin") {
            assert(all[i as int] == "admin"@);
            return true;
        }
        i = i + 1;
    }
    false
}

/// The context of a request made with a verified API key: the key's
/// workspace, acting as `api_key`, never a global administrator.
pub fn context_from_key(key: VerifiedApiKey) -> (r: AuthContext)
    ensures
        opt_view(r.user_id) == opt_view(key.created_by_user_id),
        r.api_key_id matches Some(k) && k@ == key.id@,
        r.organization_id@ == key.organization_id@,
        r.role@ == "api_key"@,
        !r.is_global_admin,
{
    AuthContext {
        user_id: key.created_by_user_id,
        api_key_id: Some(key.id),
        organization_id: key.organization_id,
        role: String::from_str("api_key"),
        is_global_admin: false,
    }
}

/// The context of a browser session: the account must be approved and a
/// workspace must be active; the role defaults to `member`.
pub fn context_from_session(session: BridgeSession) -> (r: AppResult<AuthContext>)
    ensures
        match r {
            Ok(ctx) => {
                &&& session.user.approval_status@ == "approved"@
                &&& session.active_organization_id matches Some(o) && ctx.organization_id@ == o@
                &&& ctx.user_id matches Some(u) && u@ == session.user.id@
                &&& ctx.api_key_id is None
                &&& ctx.role@ == match opt_view(session.active_role) {
                    Some(r) => r,
                    None => "member"@,
                }
                &&& ctx.is_global_admin == has_admin_role(session.user.role@)
            },
            Err(e) => if session.user.approval_status@ != "approved"@ {
                e is PendingApproval
            } else {
                session.active_organization_id is None && e is Forbidden
            },
        },
{
    let status = chars_of(session.user.approval_status.as_str());
    if !eq_lit(status.as_slice(), "approved") {
        return Err(AppError::PendingApproval);
    }
    let organization_id = match session.active_organization_id {
        Some(o) => o,
        None => {
            return Err(AppError::Forbidden);
        },
    };
    let role = match session.active_role {
        Some(r) => r,
        None => String::from_str("member"),
    };
    let is_global_admin = is_global_admin_role(session.user.role.as_str());
    Ok(AuthContext {
        user_id: Some(session.user.id),
        api_key_id: None,
        organization_id,
        role,
        is_global_admin,
    })
}

/// How the authentication service's HTTP status is reported: `401`, `403`
/// and `404` keep their meaning, any other non-success means the service is
/// unavailable, and a success carries data.
pub fn bridge_status_error(status: u16) -> (r: Option<AppError>)
    ensures
        match r {
            None => 200 <= status <= 299,
            Some(e) => if status == 401 {
                e is Unauthorized
            } else if status == 403 {
                e is Forbidden
            } else if status == 404 {
                e is NotFound
            } else {
                !(200 <= status <= 299) && e is AuthUnavailable
            },
        },
{
    if status == 401 {
        Some(AppError::Unauthorized)
    } else if status == 403 {
        Some(AppError::Forbidden)
    } else if status == 404 {
        Some(AppError::NotFound)
    } else if status < 200 || status > 299 {
        Some(AppError::AuthUnavailable)
    } else {
        None
    }
}

/// Only workspace owners and admins may manage a workspace.
pub fn require_workspace_manager(role: &str) -> (r: AppResult<()>)
    ensures
        r is Ok <==> (role@ == "owner"@ || role@ == "admin"@),
        r matches Err(e) ==> e is Forbidden,
{
    let c = chars_of(role);
    if eq_lit(c.as_slice(), "owner") || eq_lit(c.as_slice(), "admin") {
        Ok(())
    } else {
        Err(AppError::Forbidden)
    }
}

} // verus!
