//! What the browser pages decide: who may open or change what, the numbers
//! the forms show and store, and the requests sent to the authentication
//! service on a user's behalf.
use vstd::prelude::*;

use crate::auth::{has_admin_role, is_global_admin_role, BridgeSession, Membership};
use crate::error::{AppError, AppResult};
use crate::input::{comma_list, opt_view, split_comma_list};
use crate::items::ItemCreate;
use crate::text::{chars_of, eq_lit};
use crate::uploads::DEFAULT_WORKSPACE_LIMIT;

verus! {

/// The workspace a user switches to.
pub struct SwitchForm {
    pub organization_id: String,
}

/// A new upload limit for the active workspace, in mebibytes.
pub struct WorkspaceSettingsForm {
    pub max_upload_mb: u64,
}

/// A new role for a workspace member.
pub struct MemberRoleForm {
    pub role: String,
}

/// The typed confirmation that deletes a workspace.
pub struct DeleteWorkspaceForm {
    pub confirmation: String,
}

/// Text captured from the dashboard; `tags` is comma-separated.
pub struct CaptureForm {
    pub payload: String,
    pub kind: String,
    pub virtual_path: String,
    pub tags: String,
    pub source_url: Option<String>,
}

/// A new API key: its name, lifetime and the optional read and delete
/// permissions (present when the boxes were ticked).
pub struct KeyForm {
    pub name: String,
    pub expires_in_days: i64,
    pub read: Option<String>,
    pub delete: Option<String>,
}

/// The role that an invitation grants.
pub struct InviteForm {
    pub role: String,
}

/// Only approved accounts may use the application.
pub fn require_approved(session: &BridgeSession) -> (r: AppResult<()>)
    ensures
        r is Ok <==> session.user.approval_status@ == "approved"@,
        r matches Err(e) ==> e is PendingApproval,
{
    let status = chars_of(session.user.approval_status.as_str());
    if eq_lit(status.as_slice(), "approved") {
        Ok(())
    } else {
        Err(AppError::PendingApproval)
    }
}

/// Only global administrators may administer accounts.
pub fn require_global_admin(session: &BridgeSession) -> (r: AppResult<()>)
    ensures
        r is Ok <==> has_admin_role(session.user.role@),
        r matches Err(e) ==> e is Forbidden,
{
    if is_global_admin_role(session.user.role.as_str()) {
        Ok(())
    } else {
        Err(AppError::Forbidden)
    }
}

/// The role a session holds in its active workspace, `member` when it
/// names none.
pub open spec fn role_or_member(active_role: Option<Seq<char>>) -> Seq<char> {
    match active_role {
        Some(r) => r,
        None => "member"@,
    }
}

/// The active role as text, `member` when the session names none.
fn active_role_chars(session: &BridgeSession) -> (r: Vec<char>)
    ensures
        r@ == role_or_member(opt_view(session.active_role)),
{
    match &session.active_role {
        Some(role) => chars_of(role.as_str()),
        None => {
            proof {
                reveal_strlit("member");
            }
            chars_of("member")
        },
    }
}

/// Whether a session may manage its workspace (owners and admins), and
/// whether it owns it; a session without a role is a plain member.
pub fn role_flags(session: &BridgeSession) -> (r: (bool, bool))
    ensures
        r.0 == (role_or_member(opt_view(session.active_role)) == "owner"@
            || role_or_member(opt_view(session.active_role)) == "admin"@),
        r.1 == (role_or_member(opt_view(session.active_role)) == "owner"@),
{
    let role = active_role_chars(session);
    let owner = eq_lit(role.as_slice(), "owner");
    let admin = eq_lit(role.as_slice(), "admin");
    (owner || admin, owner)
}

/// Settings and membership changes need an owner or admin role in the
/// active workspace.
pub fn require_session_manager(session: &BridgeSession) -> (r: AppResult<()>)
    ensures
        r is Ok <==> (opt_view(session.active_role) == Some("owner"@)
            || opt_view(session.active_role) == Some("admin"@)),
        r matches Err(e) ==> e is Forbidden,
{
    match &session.active_role {
        Some(role) => {
            let c = chars_of(role.as_str());
            if eq_lit(c.as_slice(), "owner") || eq_lit(c.as_slice(), "admin") {
                Ok(())
            } else {
                Err(AppError::Forbidden)
            }
        },
        None => Err(AppError::Forbidden),
    }
}

/// Transferring or deleting a workspace needs its owner.
pub fn require_owner(session: &BridgeSession) -> (r: AppResult<()>)
    ensures
        r is Ok <==> opt_view(session.active_role) == Some("owner"@),
        r matches Err(e) ==> e is Forbidden,
{
    match &session.active_role {
        Some(role) => {
            let c = chars_of(role.as_str());
            if eq_lit(c.as_slice(), "owner") {
                Ok(())
            } else {
                Err(AppError::Forbidden)
            }
        },
        None => Err(AppError::Forbidden),
    }
}

/// Creating an invitation needs an owner or admin role; a session without
/// a role is a plain member.
pub fn require_inviter(session: &BridgeSession) -> (r: AppResult<()>)
    ensures
        r is Ok <==> (role_or_member(opt_view(session.active_role)) == "owner"@
            || role_or_member(opt_view(session.active_role)) == "admin"@),
        r matches Err(e) ==> e is Forbidden,
{
    let (manage, _) = role_flags(session);
    if manage {
        Ok(())
    } else {
        Err(AppError::Forbidden)
    }
}

/// The active workspace of a session; a session without one may not use
/// workspace pages.
pub fn active_workspace(session: &BridgeSession) -> (r: AppResult<String>)
    ensures
        match r {
            Ok(o) => session.active_organization_id matches Some(a) && o@ == a@,
            Err(e) => session.active_organization_id is None && e is Forbidden,
        },
{
    match &session.active_organization_id {
        Some(o) => Ok(o.clone()),
        None => Err(AppError::Forbidden),
    }
}

/// The name of the first membership in `organization_id`, or `Workspace`
/// when the session lists none.
pub open spec fn membership_name(memberships: Seq<Membership>, organization_id: Seq<char>) -> Seq<char>
    decreases memberships.len(),
{
    if memberships.len() == 0 {
        "Workspace"@
    } else if memberships[0].organization_id@ == organization_id {
        memberships[0].organization_name@
    } else {
        membership_name(memberships.skip(1), organization_id)
    }
}

/// The display name of a workspace among a session's memberships.
pub fn workspace_name(memberships: &Vec<Membership>, organization_id: &str) -> (r: String)
    ensures
        r@ == membership_name(memberships@, organization_id@),
{
    let wanted = String::from_str(organization_id);
    let mut i: usize = 0;
    assert(memberships@.skip(0) =~= memberships@);
    while i < memberships.len()
        invariant
            i <= memberships@.len(),
            wanted@ == organization_id@,
            membership_name(memberships@, organization_id@)
                == membership_name(memberships@.skip(i as int), organization_id@),
        decreases memberships@.len() - i,
    {
        assert(memberships@.skip(i as int).skip(1) =~= memberships@.skip(i + 1));
        assert(memberships@.skip(i as int)[0] == memberships@[i as int]);
        if memberships[i].organization_id == wanted {
            return memberships[i].organization_name.clone();
        }
        i = i + 1;
    }
    assert(memberships@.skip(i as int).len() == 0);
    proof {
        reveal_strlit("Workspace");
    }
    String::from_str("Workspace")
}

/// One mebibyte.
pub const MIB: u64 = 1048576;

/// The largest upload, in whole mebibytes, under a workspace limit and the
/// server's own maximum.
pub open spec fn spec_max_upload_mb(limit: u64, server_max: u64) -> u64 {
    (if limit < server_max { limit } else { server_max }) / MIB
}

/// Whole mebibytes a page offers for uploads.
pub fn max_upload_mb(limit: u64, server_max: u64) -> (r: u64)
    ensures
        r == spec_max_upload_mb(limit, server_max),
{
    let m = if limit < server_max { limit } else { server_max };
    m / MIB
}

/// The limit a dashboard reads from a workspace's stored setting: the
/// stored value reinterpreted as unsigned, or, with no setting, the
/// 100 MiB (104857600 bytes) every workspace starts at.
pub fn stored_upload_limit(stored: Option<i64>) -> (r: u64)
    ensures
        r == match stored {
            Some(v) => v as u64,
            None => DEFAULT_WORKSPACE_LIMIT,
        },
{
    match stored {
        Some(v) => v as u64,
        None => DEFAULT_WORKSPACE_LIMIT,
    }
}

/// The byte limit stored for a requested number of mebibytes: at least one
/// mebibyte, saturating, capped by the server maximum, and written as the
/// database's signed integer.
pub open spec fn spec_settings_limit(max_upload_mb: u64, server_max: u64) -> i64 {
    let mb: int = if max_upload_mb < 1 { 1 } else { max_upload_mb as int };
    let requested: int = if mb * MIB > u64::MAX { u64::MAX as int } else { mb * MIB };
    let limit: int = if requested < server_max { requested } else { server_max as int };
    (limit as u64) as i64
}

/// The workspace upload limit to store for a settings form.
pub fn settings_limit(max_upload_mb: u64, server_max: u64) -> (r: i64)
    ensures
        r == spec_settings_limit(max_upload_mb, server_max),
        server_max <= i64::MAX ==> 0 <= r <= server_max,
{
    let mb = if max_upload_mb < 1 { 1 } else { max_upload_mb };
    let requested = match mb.checked_mul(MIB) {
        Some(v) => v,
        None => u64::MAX,
    };
    let limit = if requested < server_max { requested } else { server_max };
    limit as i64
}

/// The role an invitation grants: `admin` when asked for, else `member`.
pub open spec fn spec_invitation_role(requested: Seq<char>) -> Seq<char> {
    if requested == "admin"@ {
        "admin"@
    } else {
        "member"@
    }
}

/// The role to grant for an invitation form.
pub fn invitation_role(requested: &str) -> (r: &'static str)
    ensures
        r@ == spec_invitation_role(requested@),
{
    let c = chars_of(requested);
    proof {
        reveal_strlit("admin");
        reveal_strlit("member");
    }
    if eq_lit(c.as_slice(), "admin") {
        "admin"
    } else {
        "member"
    }
}

/// The permissions of a new API key: it may always write; it may read and
/// delete when those boxes were ticked.
pub open spec fn spec_key_permissions(read: bool, delete: bool) -> Seq<Seq<char>> {
    seq!["items:write"@] + (if read {
        seq!["items:read"@]
    } else {
        Seq::empty()
    }) + (if delete {
        seq!["items:delete"@]
    } else {
        Seq::empty()
    })
}

/// The permissions to request for a key form.
pub fn key_permissions(form: &KeyForm) -> (r: Vec<String>)
    ensures
        r@.map_values(|s: String| s@) == spec_key_permissions(form.read is Some, form.delete is Some),
{
    let mut out: Vec<String> = Vec::new();
    out.push(String::from_str("items:write"));
    if form.read.is_some() {
        out.push(String::from_str("items:read"));
    }
    if form.delete.is_some() {
        out.push(String::from_str("items:delete"));
    }
    assert(out@.map_values(|s: String| s@) =~= spec_key_permissions(form.read is Some, form.delete is Some));
    out
}

/// A key's lifetime in days, between one day and ten years.
pub fn key_expiry_days(requested: i64) -> (r: i64)
    ensures
        r == if requested < 1 {
            1
        } else if requested > 3650 {
            3650
        } else {
            requested
        },
{
    if requested < 1 {
        1
    } else if requested > 3650 {
        3650
    } else {
        requested
    }
}

/// Switching workspaces needs an approved account whose session, asked for
/// the requested workspace, made it the active one.
pub fn check_switch(session: &BridgeSession, organization_id: &str) -> (r: AppResult<()>)
    ensures
        r is Ok <==> (session.user.approval_status@ == "approved"@
            && opt_view(session.active_organization_id) == Some(organization_id@)),
        r matches Err(e) ==> e is Forbidden,
{
    let status = chars_of(session.user.approval_status.as_str());
    if !eq_lit(status.as_slice(), "approved") {
        return Err(AppError::Forbidden);
    }
    match &session.active_organization_id {
        Some(active) => {
            if *active == String::from_str(organization_id) {
                Ok(())
            } else {
                Err(AppError::Forbidden)
            }
        },
        None => Err(AppError::Forbidden),
    }
}

/// The `Set-Cookie` value that remembers the chosen workspace for a year,
/// marked `Secure` when the site is served over HTTPS.
pub open spec fn spec_workspace_cookie_header(organization_id: Seq<char>, public_base_url: Seq<char>) -> Seq<char> {
    "vault_workspace="@ + organization_id + "; Path=/; HttpOnly; SameSite=Lax; Max-Age=31536000"@
        + if crate::text::starts_with(public_base_url, "https://"@) {
        "; Secure"@
    } else {
        Seq::empty()
    }
}

/// The cookie header that selects a workspace.
pub fn workspace_cookie_header(organization_id: &str, public_base_url: &str) -> (r: String)
    ensures
        r@ == spec_workspace_cookie_header(organization_id@, public_base_url@),
{
    let mut out = String::from_str("vault_workspace=");
    out.append(organization_id);
    out.append("; Path=/; HttpOnly; SameSite=Lax; Max-Age=31536000");
    let base = chars_of(public_base_url);
    if crate::text::starts_with_lit(base.as_slice(), "https://") {
        out.append("; Secure");
    }
    out
}

/// The `Set-Cookie` value that forgets the chosen workspace.
pub const CLEARED_WORKSPACE_COOKIE: &'static str = "vault_workspace=; Path=/; HttpOnly; SameSite=Lax; Max-Age=0";

/// A membership change sent to the authentication service: the active
/// workspace, the user asking, the member concerned and, for role
/// changes, the new role.
pub struct MemberRequest {
    pub organization_id: String,
    pub requester_id: String,
    pub user_id: String,
    pub role: Option<String>,
}

/// Builds a membership change; a session without an active workspace may
/// not make one.
pub fn member_request(session: &BridgeSession, user_id: &str, role: Option<&str>) -> (r: AppResult<MemberRequest>)
    ensures
        match r {
            Ok(m) => {
                &&& session.active_organization_id matches Some(o) && m.organization_id@ == o@
                &&& m.requester_id@ == session.user.id@
                &&& m.user_id@ == user_id@
                &&& opt_view(m.role) == crate::auth::str_view(role)
            },
            Err(e) => session.active_organization_id is None && e is Forbidden,
        },
{
    let organization_id = active_workspace(session)?;
    let role = match role {
        Some(r) => Some(String::from_str(r)),
        None => None,
    };
    Ok(MemberRequest {
        organization_id,
        requester_id: session.user.id.clone(),
        user_id: String::from_str(user_id),
        role,
    })
}

/// The item that a capture form creates; its tags are the trimmed,
/// non-blank comma-separated pieces.
pub fn capture_item(form: CaptureForm) -> (r: ItemCreate)
    ensures
        r.payload@ == form.payload@,
        r.kind@ == form.kind@,
        r.virtual_path@ == form.virtual_path@,
        r.tags@.map_values(|t: String| t@) == comma_list(form.tags@),
        opt_view(r.source_url) == opt_view(form.source_url),
{
    let tags = split_comma_list(form.tags.as_str());
    ItemCreate {
        payload: form.payload,
        kind: form.kind,
        virtual_path: form.virtual_path,
        tags,
        source_url: form.source_url,
    }
}

/// The private link that redeems an invitation token.
pub fn invitation_url(public_base_url: &str, token: &str) -> (r: String)
    ensures
        r@ == public_base_url@ + "/join/"@ + token@,
{
    let mut out = String::from_str(public_base_url);
    out.append("/join/");
    out.append(token);
    out
}

/// What the waiting page shows: `None` sends an approved account on to
/// the dashboard; otherwise whether the account was rejected.
pub fn pending_view(session: &BridgeSession) -> (r: Option<bool>)
    ensures
        r is None <==> session.user.approval_status@ == "approved"@,
        r matches Some(rejected) ==> rejected == (session.user.approval_status@ == "rejected"@),
{
    let status = chars_of(session.user.approval_status.as_str());
    if eq_lit(status.as_slice(), "approved") {
        None
    } else {
        Some(eq_lit(status.as_slice(), "rejected"))
    }
}

/// Bytes that `application/x-www-form-urlencoded` leaves as they are.
pub open spec fn form_unreserved(b: u8) -> bool {
    b == 42 || b == 45 || b == 46 || b == 95 || (48 <= b <= 57) || (65 <= b <= 90) || (97 <= b <= 122)
}

/// The uppercase hexadecimal digit for `n`, which is below sixteen.
pub open spec fn upper_hex_digit(n: u8) -> char {
    if n < 10 {
        ((n + 48) as u8) as char
    } else {
        ((n + 55) as u8) as char
    }
}

/// One byte, form-encoded: kept, a space as `+`, anything else as `%XX`.
pub open spec fn form_byte(b: u8) -> Seq<char> {
    if form_unreserved(b) {
        seq![b as char]
    } else if b == 32 {
        seq!['+']
    } else {
        seq!['%', upper_hex_digit(b / 16), upper_hex_digit(b % 16)]
    }
}

/// Bytes form-encoded one after the other.
pub open spec fn form_encoded(bytes: Seq<u8>) -> Seq<char>
    decreases bytes.len(),
{
    if bytes.len() == 0 {
        Seq::empty()
    } else {
        form_encoded(bytes.drop_last()) + form_byte(bytes.last())
    }
}

/// The form encoding of a text's UTF-8 bytes.
pub open spec fn form_encoded_text(s: Seq<char>) -> Seq<char> {
    form_encoded(vstd::utf8::encode_utf8(s))
}

/// An uppercase hexadecimal digit.
fn upper_hex(n: u8) -> (c: char)
    requires
        n < 16,
    ensures
        c == upper_hex_digit(n),
{
    if n < 10 {
        (n + 48) as char
    } else {
        (n + 55) as char
    }
}

/// Appends the form encoding of `value` to `out`, as
/// `form_urlencoded::byte_serialize` writes it.
pub fn append_form_encoded(out: &mut String, value: &str)
    ensures
        final(out)@ == old(out)@ + form_encoded_text(value@),
{
    let bytes = value.as_bytes();
    let ghost start = out@;
    let mut i: usize = 0;
    while i < bytes.len()
        invariant
            i <= bytes@.len(),
            bytes@ == vstd::utf8::encode_utf8(value@),
            out@ == start + form_encoded(bytes@.take(i as int)),
        decreases bytes@.len() - i,
    {
        let b = bytes[i];
        assert(bytes@.take(i + 1).drop_last() =~= bytes@.take(i as int));
        let ghost before = out@;
        if b == 42 || b == 45 || b == 46 || b == 95 || (48 <= b && b <= 57) || (65 <= b && b <= 90) || (97 <= b && b <= 122) {
            out.push(b as char);
        } else if b == 32 {
            out.push('+');
        } else {
            out.push('%');
            out.push(upper_hex(b / 16));
            out.push(upper_hex(b % 16));
        }
        assert(out@ =~= before + form_byte(b));
        i = i + 1;
    }
    assert(bytes@.take(i as int) =~= bytes@);
}

/// The authentication service's path listing a workspace's API keys.
pub fn api_keys_path(organization_id: &str, requester_id: &str) -> (r: String)
    ensures
        r@ == "/internal/api-keys?organizationId="@ + form_encoded_text(organization_id@) + "&requesterId="@
            + form_encoded_text(requester_id@),
{
    let mut out = String::from_str("/internal/api-keys?organizationId=");
    append_form_encoded(&mut out, organization_id);
    out.append("&requesterId=");
    append_form_encoded(&mut out, requester_id);
    out
}

/// The authentication service's path describing a workspace.
pub fn workspace_details_path(organization_id: &str, requester_id: &str) -> (r: String)
    ensures
        r@ == "/internal/workspaces/details?organizationId="@ + form_encoded_text(organization_id@)
            + "&requesterId="@ + form_encoded_text(requester_id@),
{
    let mut out = String::from_str("/internal/workspaces/details?organizationId=");
    append_form_encoded(&mut out, organization_id);
    out.append("&requesterId=");
    append_form_encoded(&mut out, requester_id);
    out
}

/// The authentication service's path listing accounts for an administrator.
pub fn admin_users_path(requester_id: &str) -> (r: String)
    ensures
        r@ == "/internal/admin/users?requesterId="@ + form_encoded_text(requester_id@),
{
    let mut out = String::from_str("/internal/admin/users?requesterId=");
    append_form_encoded(&mut out, requester_id);
    out
}

/// The authentication service's path of one API key, used to revoke it.
pub fn api_key_path(id: &str, organization_id: &str, requester_id: &str) -> (r: String)
    ensures
        r@ == "/internal/api-keys/"@ + form_encoded_text(id@) + "?organizationId="@
            + form_encoded_text(organization_id@) + "&requesterId="@ + form_encoded_text(requester_id@),
{
    let mut out = String::from_str("/internal/api-keys/");
    append_form_encoded(&mut out, id);
    out.append("?organizationId=");
    append_form_encoded(&mut out, organization_id);
    out.append("&requesterId=");
    append_form_encoded(&mut out, requester_id);
    out
}

} // verus!
