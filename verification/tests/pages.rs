use clipboard_vault::auth::{workspace_cookie, BridgeSession, BridgeUser, Membership};
use clipboard_vault::error::AppError;
use clipboard_vault::pages::{
    active_workspace, admin_users_path, api_key_path, api_keys_path, append_form_encoded, capture_item,
    check_switch, invitation_role, invitation_url, key_expiry_days, key_permissions, max_upload_mb,
    member_request, pending_view, require_approved, require_global_admin, require_inviter, require_owner,
    require_session_manager, role_flags, settings_limit, stored_upload_limit, workspace_cookie_header,
    workspace_details_path, workspace_name, CaptureForm, KeyForm, CLEARED_WORKSPACE_COOKIE,
};

fn session(status: &str, roles: &str, active: Option<&str>, role: Option<&str>) -> BridgeSession {
    BridgeSession {
        user: BridgeUser {
            id: "user-1".into(),
            name: "Ada".into(),
            email: "ada@example.com".into(),
            image: None,
            role: roles.into(),
            approval_status: status.into(),
        },
        active_organization_id: active.map(str::to_owned),
        active_role: role.map(str::to_owned),
        memberships: vec![
            Membership {
                organization_id: "org-1".into(),
                organization_name: "Research".into(),
                organization_slug: "research".into(),
                role: "owner".into(),
            },
            Membership {
                organization_id: "org-2".into(),
                organization_name: "Design".into(),
                organization_slug: "design".into(),
                role: "member".into(),
            },
        ],
    }
}

#[test]
fn only_approved_accounts_pass() {
    assert!(require_approved(&session("approved", "user", None, None)).is_ok());
    assert!(matches!(require_approved(&session("pending", "user", None, None)), Err(AppError::PendingApproval)));
    assert!(matches!(require_approved(&session("rejected", "user", None, None)), Err(AppError::PendingApproval)));
}

#[test]
fn global_admin_is_one_of_the_listed_roles() {
    assert!(require_global_admin(&session("approved", "user,admin", None, None)).is_ok());
    assert!(matches!(require_global_admin(&session("approved", "administrator", None, None)), Err(AppError::Forbidden)));
    assert!(matches!(require_global_admin(&session("approved", "user", None, None)), Err(AppError::Forbidden)));
}

#[test]
fn role_flags_follow_the_active_role() {
    assert_eq!(role_flags(&session("approved", "user", Some("org-1"), Some("owner"))), (true, true));
    assert_eq!(role_flags(&session("approved", "user", Some("org-1"), Some("admin"))), (true, false));
    assert_eq!(role_flags(&session("approved", "user", Some("org-1"), Some("member"))), (false, false));
    assert_eq!(role_flags(&session("approved", "user", Some("org-1"), None)), (false, false));
}

#[test]
fn owners_and_admins_manage_only_owners_transfer() {
    let owner = session("approved", "user", Some("org-1"), Some("owner"));
    let admin = session("approved", "user", Some("org-1"), Some("admin"));
    let member = session("approved", "user", Some("org-1"), Some("member"));
    let none = session("approved", "user", Some("org-1"), None);
    assert!(require_session_manager(&owner).is_ok());
    assert!(require_session_manager(&admin).is_ok());
    assert!(matches!(require_session_manager(&member), Err(AppError::Forbidden)));
    assert!(matches!(require_session_manager(&none), Err(AppError::Forbidden)));
    assert!(require_owner(&owner).is_ok());
    assert!(matches!(require_owner(&admin), Err(AppError::Forbidden)));
    assert!(require_inviter(&admin).is_ok());
    assert!(matches!(require_inviter(&none), Err(AppError::Forbidden)));
}

#[test]
fn the_active_workspace_is_required() {
    assert_eq!(active_workspace(&session("approved", "user", Some("org-2"), None)).unwrap(), "org-2");
    assert!(matches!(active_workspace(&session("approved", "user", None, None)), Err(AppError::Forbidden)));
}

#[test]
fn workspace_names_come_from_memberships() {
    let s = session("approved", "user", Some("org-2"), None);
    assert_eq!(workspace_name(&s.memberships, "org-2"), "Design");
    assert_eq!(workspace_name(&s.memberships, "org-9"), "Workspace");
}

#[test]
fn upload_limits_shown_in_whole_mebibytes() {
    assert_eq!(max_upload_mb(26_214_400, 10_737_418_240), 25);
    assert_eq!(max_upload_mb(10_737_418_240, 1_572_864), 1);
    assert_eq!(stored_upload_limit(None), 104_857_600);
    assert_eq!(max_upload_mb(stored_upload_limit(None), 10_737_418_240), 100);
    assert_eq!(stored_upload_limit(Some(5_000)), 5_000);
    assert_eq!(stored_upload_limit(Some(-1)), u64::MAX);
}

#[test]
fn settings_store_at_least_one_mebibyte_within_the_maximum() {
    assert_eq!(settings_limit(0, 10_737_418_240), 1_048_576);
    assert_eq!(settings_limit(200, 10_737_418_240), 209_715_200);
    assert_eq!(settings_limit(u64::MAX, 10_737_418_240), 10_737_418_240);
    assert_eq!(settings_limit(5, 1_000), 1_000);
}

#[test]
fn invitations_grant_admin_only_when_asked() {
    assert_eq!(invitation_role("admin"), "admin");
    assert_eq!(invitation_role("owner"), "member");
    assert_eq!(invitation_role(""), "member");
}

#[test]
fn keys_always_write_and_read_or_delete_on_request() {
    let form = |read: bool, delete: bool| KeyForm {
        name: "ci".into(),
        expires_in_days: 30,
        read: read.then(|| "on".to_string()),
        delete: delete.then(|| "on".to_string()),
    };
    assert_eq!(key_permissions(&form(false, false)), vec!["items:write"]);
    assert_eq!(key_permissions(&form(true, false)), vec!["items:write", "items:read"]);
    assert_eq!(key_permissions(&form(true, true)), vec!["items:write", "items:read", "items:delete"]);
    assert_eq!(key_permissions(&form(false, true)), vec!["items:write", "items:delete"]);
}

#[test]
fn key_lifetimes_are_clamped() {
    assert_eq!(key_expiry_days(-4), 1);
    assert_eq!(key_expiry_days(0), 1);
    assert_eq!(key_expiry_days(90), 90);
    assert_eq!(key_expiry_days(10_000), 3650);
}

#[test]
fn switching_needs_the_requested_workspace_to_be_active() {
    assert!(check_switch(&session("approved", "user", Some("org-2"), None), "org-2").is_ok());
    assert!(matches!(check_switch(&session("approved", "user", Some("org-1"), None), "org-2"), Err(AppError::Forbidden)));
    assert!(matches!(check_switch(&session("pending", "user", Some("org-2"), None), "org-2"), Err(AppError::Forbidden)));
    assert!(matches!(check_switch(&session("approved", "user", None, None), "org-2"), Err(AppError::Forbidden)));
}

#[test]
fn workspace_cookies_are_secure_over_https() {
    assert_eq!(
        workspace_cookie_header("org-2", "https://vault.example.com"),
        "vault_workspace=org-2; Path=/; HttpOnly; SameSite=Lax; Max-Age=31536000; Secure"
    );
    assert_eq!(
        workspace_cookie_header("org-2", "http://localhost:8080"),
        "vault_workspace=org-2; Path=/; HttpOnly; SameSite=Lax; Max-Age=31536000"
    );
    assert_eq!(CLEARED_WORKSPACE_COOKIE, "vault_workspace=; Path=/; HttpOnly; SameSite=Lax; Max-Age=0");
}

#[test]
fn a_switched_workspace_is_read_back_from_the_cookie() {
    let header = workspace_cookie_header("org-2", "https://vault.example.com");
    let pair = header.split(';').next().unwrap();
    assert_eq!(workspace_cookie(Some(pair)).unwrap(), "org-2");
}

#[test]
fn member_requests_need_an_active_workspace() {
    let s = session("approved", "user", Some("org-1"), Some("owner"));
    let request = member_request(&s, "user-7", Some("admin")).unwrap();
    assert_eq!(request.organization_id, "org-1");
    assert_eq!(request.requester_id, "user-1");
    assert_eq!(request.user_id, "user-7");
    assert_eq!(request.role.as_deref(), Some("admin"));
    let removal = member_request(&s, "user-7", None).unwrap();
    assert!(removal.role.is_none());
    assert!(matches!(member_request(&session("approved", "user", None, None), "user-7", None), Err(AppError::Forbidden)));
}

#[test]
fn captured_text_splits_its_tags() {
    let item = capture_item(CaptureForm {
        payload: "hello".into(),
        kind: "auto".into(),
        virtual_path: "/notes".into(),
        tags: " a, ,b ,".into(),
        source_url: Some("https://example.com".into()),
    });
    assert_eq!(item.payload, "hello");
    assert_eq!(item.kind, "auto");
    assert_eq!(item.virtual_path, "/notes");
    assert_eq!(item.tags, vec!["a", "b"]);
    assert_eq!(item.source_url.as_deref(), Some("https://example.com"));
}

#[test]
fn invitation_links_point_at_the_join_page() {
    assert_eq!(invitation_url("https://vault.example.com", "abc123"), "https://vault.example.com/join/abc123");
}

#[test]
fn the_waiting_page_knows_rejections() {
    assert_eq!(pending_view(&session("approved", "user", None, None)), None);
    assert_eq!(pending_view(&session("pending", "user", None, None)), Some(false));
    assert_eq!(pending_view(&session("rejected", "user", None, None)), Some(true));
}

#[test]
fn form_encoding_matches_the_url_crate() {
    let samples = ["plain", "a b&c=d", "ünïcødé/?#", "*-._~!'()", "", "100% sure\n"];
    for sample in samples {
        let mut ours = String::new();
        append_form_encoded(&mut ours, sample);
        let theirs: String = url::form_urlencoded::byte_serialize(sample.as_bytes()).collect();
        assert_eq!(ours, theirs);
    }
}

#[test]
fn internal_paths_encode_their_parameters() {
    assert_eq!(
        api_keys_path("org 1", "u&2"),
        "/internal/api-keys?organizationId=org+1&requesterId=u%262"
    );
    assert_eq!(
        workspace_details_path("org-1", "user-1"),
        "/internal/workspaces/details?organizationId=org-1&requesterId=user-1"
    );
    assert_eq!(admin_users_path("a/b"), "/internal/admin/users?requesterId=a%2Fb");
    assert_eq!(
        api_key_path("key=1", "org-1", "user-1"),
        "/internal/api-keys/key%3D1?organizationId=org-1&requesterId=user-1"
    );
}
