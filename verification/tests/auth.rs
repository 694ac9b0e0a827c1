use clipboard_vault::auth::{
    api_key_from_headers, bridge_status_error, context_from_key, context_from_session, is_global_admin_role,
    require_workspace_manager, workspace_cookie, BridgeSession, BridgeUser, VerifiedApiKey,
};
use clipboard_vault::error::AppError;

fn session(status: &str, active: Option<&str>, role: Option<&str>) -> BridgeSession {
    BridgeSession {
        user: BridgeUser {
            id: "u1".into(),
            name: "Ada".into(),
            email: "ada@example.com".into(),
            image: None,
            role: "user,admin".into(),
            approval_status: status.into(),
        },
        active_organization_id: active.map(str::to_owned),
        active_role: role.map(str::to_owned),
        memberships: vec![],
    }
}

#[test]
fn api_keys_come_from_either_header() {
    assert_eq!(api_key_from_headers(Some("  cv_live_1 "), Some("Bearer cv_live_2")).as_deref(), Some("cv_live_1"));
    assert_eq!(api_key_from_headers(Some("   "), Some("Bearer  cv_live_2 ")).as_deref(), Some("cv_live_2"));
    assert_eq!(api_key_from_headers(None, Some("Bearer cv_live_2")).as_deref(), Some("cv_live_2"));
    assert_eq!(api_key_from_headers(None, Some("Basic abc")), None);
    assert_eq!(api_key_from_headers(None, Some("Bearer    ")), None);
    assert_eq!(api_key_from_headers(None, Some("bearer cv")), None);
    assert_eq!(api_key_from_headers(None, None), None);
}

#[test]
fn the_workspace_cookie_is_found_among_others() {
    assert_eq!(workspace_cookie(Some("theme=dark; vault_workspace=org-2; x=1")).as_deref(), Some("org-2"));
    assert_eq!(workspace_cookie(Some("vault_workspace=a=b")).as_deref(), Some("a=b"));
    assert_eq!(workspace_cookie(Some("vault_workspace=first;vault_workspace=second")).as_deref(), Some("first"));
    assert_eq!(workspace_cookie(Some("other=1")), None);
    assert_eq!(workspace_cookie(None), None);
}

#[test]
fn admin_is_a_listed_role() {
    assert!(is_global_admin_role("admin"));
    assert!(is_global_admin_role("user,admin"));
    assert!(!is_global_admin_role("user, admin"));
    assert!(!is_global_admin_role("superadmin"));
}

#[test]
fn keys_decide_the_workspace() {
    let context = context_from_key(VerifiedApiKey {
        id: "k1".into(),
        organization_id: "org-9".into(),
        created_by_user_id: Some("u5".into()),
        permissions: vec!["items:write".into()],
    });
    assert_eq!(context.organization_id, "org-9");
    assert_eq!(context.api_key_id.as_deref(), Some("k1"));
    assert_eq!(context.user_id.as_deref(), Some("u5"));
    assert_eq!(context.role, "api_key");
    assert!(!context.is_global_admin);
}

#[test]
fn sessions_need_approval_and_a_workspace() {
    let context = context_from_session(session("approved", Some("org-1"), None)).unwrap();
    assert_eq!(context.organization_id, "org-1");
    assert_eq!(context.user_id.as_deref(), Some("u1"));
    assert_eq!(context.role, "member");
    assert!(context.is_global_admin);
    assert!(context.api_key_id.is_none());
    assert_eq!(context_from_session(session("approved", Some("org-1"), Some("owner"))).unwrap().role, "owner");
    assert!(matches!(context_from_session(session("pending", Some("org-1"), None)), Err(AppError::PendingApproval)));
    assert!(matches!(context_from_session(session("approved", None, None)), Err(AppError::Forbidden)));
}

#[test]
fn bridge_statuses_map_to_errors() {
    assert!(bridge_status_error(200).is_none());
    assert!(bridge_status_error(204).is_none());
    assert!(matches!(bridge_status_error(401), Some(AppError::Unauthorized)));
    assert!(matches!(bridge_status_error(403), Some(AppError::Forbidden)));
    assert!(matches!(bridge_status_error(404), Some(AppError::NotFound)));
    assert!(matches!(bridge_status_error(500), Some(AppError::AuthUnavailable)));
    assert!(matches!(bridge_status_error(302), Some(AppError::AuthUnavailable)));
}

#[test]
fn managers_are_owners_and_admins() {
    assert!(require_workspace_manager("owner").is_ok());
    assert!(require_workspace_manager("admin").is_ok());
    assert!(matches!(require_workspace_manager("member"), Err(AppError::Forbidden)));
}
