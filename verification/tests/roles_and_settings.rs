use websites::entities::{check_assignable_role, login_action, LoginAction, PublishMethod, SiteRole};
use websites::errors::SiteError;
use websites::publish::{check_saved_method, PublishTarget, RsyncPublishConfig, S3CompatiblePublishConfig};
use websites::scanner::regex_escape;
use websites::site::{normalize_slug, sanitize_tag_slug};
use websites::site_export::{check_membership_role, export_publish_config, publish_config_to_import};

fn rsync_config() -> RsyncPublishConfig {
    RsyncPublishConfig {
        ssh_host: "example.com".to_string(),
        ssh_user: Some("deploy".to_string()),
        ssh_port: Some(2222),
        remote_path: "/var/www/example".to_string(),
        identity_file: None,
    }
}

fn bad_request_message(e: SiteError) -> String {
    match e {
        SiteError::BadRequest(m) => m,
        other => panic!("expected a bad request, got {:?}", other),
    }
}

#[test]
fn tag_slug_is_lower_case() {
    assert_eq!(sanitize_tag_slug("Alpha Tag"), "alpha-tag");
    assert_eq!(sanitize_tag_slug("RUST 2024"), "rust-2024");
}

#[test]
fn slugs_are_unchanged_by_a_second_pass() {
    for name in ["Alpha Tag", "C++ & Rust", "--Mixed__Case--", "Ünïcode Tâg", "!!!", ""] {
        let once = sanitize_tag_slug(name);
        assert_eq!(sanitize_tag_slug(&once), once);
        let post = normalize_slug(name);
        assert_eq!(normalize_slug(&post), post);
    }
    assert_eq!(sanitize_tag_slug("already-a-slug"), "already-a-slug");
}

#[test]
fn regex_escape_marks_meta_characters() {
    assert_eq!(regex_escape("a.b-c"), "a\\.b\\-c");
    assert_eq!(regex_escape("data-src"), "data\\-src");
    assert_eq!(regex_escape("href"), "href");
    assert_eq!(regex_escape("(x|y)*"), "\\(x\\|y\\)\\*");
}

#[test]
fn admin_role_cannot_be_given_to_a_membership() {
    assert!(SiteRole::Admin.is_admin());
    assert!(!SiteRole::Owner.is_admin());
    assert_eq!(
        bad_request_message(check_assignable_role(SiteRole::Admin).unwrap_err()),
        "cannot assign admin role to a site"
    );
    assert!(check_assignable_role(SiteRole::Owner).is_ok());
    assert!(check_assignable_role(SiteRole::Viewer).is_ok());
}

#[test]
fn exported_memberships_cannot_hold_admin() {
    assert_eq!(
        bad_request_message(check_membership_role(SiteRole::Admin).unwrap_err()),
        "site membership exports cannot contain admin roles"
    );
    assert!(check_membership_role(SiteRole::Editor).is_ok());
}

#[test]
fn first_login_creates_an_admin() {
    assert_eq!(login_action(0, false), LoginAction::CreateAdmin);
    assert_eq!(login_action(1, true), LoginAction::TouchExisting);
    assert_eq!(login_action(1, false), LoginAction::CreateUser);
}

#[test]
fn saved_method_must_match() {
    assert!(check_saved_method(PublishMethod::RsyncSsh, PublishMethod::RsyncSsh).is_ok());
    assert_eq!(
        bad_request_message(
            check_saved_method(PublishMethod::Disabled, PublishMethod::S3Compatible).unwrap_err()
        ),
        "unsupported publish method: disabled"
    );
    assert_eq!(
        bad_request_message(
            check_saved_method(PublishMethod::S3Compatible, PublishMethod::RsyncSsh).unwrap_err()
        ),
        "unsupported publish method: s3_compatible"
    );
}

#[test]
fn rsync_publish_config_survives_export_and_import() {
    let exported = export_publish_config(PublishTarget::Rsync(rsync_config())).unwrap();
    assert_eq!(exported.method, PublishMethod::RsyncSsh);
    assert!(exported.s3.is_none());
    let rsync = exported.rsync.as_ref().unwrap();
    assert_eq!(rsync.ssh_host, "example.com");
    assert_eq!(rsync.ssh_port, Some(2222));
    match publish_config_to_import(exported).unwrap() {
        PublishTarget::Rsync(c) => {
            assert_eq!(c.ssh_host, "example.com");
            assert_eq!(c.ssh_user.as_deref(), Some("deploy"));
            assert_eq!(c.ssh_port, Some(2222));
            assert_eq!(c.remote_path, "/var/www/example");
            assert!(c.identity_file.is_none());
        }
        other => panic!("expected rsync settings, got {:?}", other),
    }
}

#[test]
fn s3_publish_config_exports_under_its_method() {
    let config = S3CompatiblePublishConfig {
        endpoint_url: Some("https://s3.example.com".to_string()),
        bucket: "site".to_string(),
        prefix: "blog".to_string(),
        region: "us-east-1".to_string(),
        access_key_id: "key".to_string(),
        secret_access_key: "secret".to_string(),
        force_path_style: true,
    };
    let exported = export_publish_config(PublishTarget::S3(config)).unwrap();
    assert_eq!(exported.method, PublishMethod::S3Compatible);
    assert!(exported.rsync.is_none());
    assert_eq!(exported.s3.as_ref().unwrap().bucket, "site");
}

#[test]
fn disabled_publish_config_is_not_exported() {
    assert_eq!(
        bad_request_message(export_publish_config(PublishTarget::Disabled).unwrap_err()),
        "unsupported publish method in export: disabled"
    );
}
