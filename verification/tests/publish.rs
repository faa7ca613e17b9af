use websites::errors::SiteError;
use websites::publish::{
    build_rsync_args, error_chain, finish_rsync_publish, normalize_prefix, object_key_for_path,
    parse_rsync_stats, publish_config_summary_for_log, shell_quote, stale_object_keys,
    PublishOutcome, PublishTarget, RsyncPublishConfig, S3CompatiblePublishConfig,
};

fn s3_config() -> S3CompatiblePublishConfig {
    S3CompatiblePublishConfig {
        endpoint_url: None,
        bucket: "bucket".to_string(),
        prefix: " /site/ ".to_string(),
        region: "us-east-1".to_string(),
        access_key_id: "key".to_string(),
        secret_access_key: "secret".to_string(),
        force_path_style: true,
    }
}

#[test]
fn normalize_prefix_trims_slashes() {
    assert_eq!(normalize_prefix("/foo/bar/"), "foo/bar");
    assert_eq!(normalize_prefix(""), "");
}

#[test]
fn build_rsync_args_sets_ssh_transport() {
    let config = RsyncPublishConfig {
        ssh_host: "example.com".to_string(),
        ssh_user: Some("deploy".to_string()),
        ssh_port: Some(2222),
        remote_path: "/var/www/example".to_string(),
        identity_file: Some("/tmp/id file".to_string()),
    };
    let args = build_rsync_args("/tmp/rendered", &config);
    assert_eq!(
        args,
        vec![
            "-a",
            "--delete",
            "--stats",
            "-e",
            "ssh -o BatchMode=yes -p 2222 -i '/tmp/id file'",
            "/tmp/rendered/",
            "deploy@example.com:/var/www/example/",
        ]
        .into_iter()
        .map(String::from)
        .collect::<Vec<_>>()
    );
}

#[test]
fn parse_rsync_stats_reads_transferred_and_deleted_counts() {
    let (transferred, deleted) =
        parse_rsync_stats("Number of files transferred: 4\nNumber of deleted files: 2\n");
    assert_eq!(transferred, 4);
    assert_eq!(deleted, 2);
}

#[test]
fn rsync_stats_take_the_last_report_and_ignore_garbage() {
    assert_eq!(
        parse_rsync_stats("  Number of regular files transferred: 7\r\nTotal deleted files: x\nTotal deleted files: 3"),
        (7, 3)
    );
    assert_eq!(parse_rsync_stats(""), (0, 0));
}

#[test]
fn s3_config_validation_names_the_first_problem() {
    assert!(s3_config().validate().is_ok());
    let mut blank_endpoint = s3_config();
    blank_endpoint.endpoint_url = Some("  ".to_string());
    blank_endpoint.bucket = String::new();
    match blank_endpoint.validate() {
        Err(SiteError::BadRequest(m)) => assert_eq!(m, "publish endpoint_url cannot be blank"),
        other => panic!("unexpected: {other:?}"),
    }
    let mut no_secret = s3_config();
    no_secret.secret_access_key = " ".to_string();
    match no_secret.validate() {
        Err(SiteError::BadRequest(m)) => assert_eq!(m, "publish secret_access_key is required"),
        other => panic!("unexpected: {other:?}"),
    }
    assert_eq!(s3_config().normalized_prefix(), "site");
}

#[test]
fn rsync_config_validation_and_target() {
    let config = RsyncPublishConfig {
        ssh_host: " host ".to_string(),
        ssh_user: Some("  ".to_string()),
        ssh_port: None,
        remote_path: " /srv/site// ".to_string(),
        identity_file: Some(" ".to_string()),
    };
    match config.validate() {
        Err(SiteError::BadRequest(m)) => assert_eq!(m, "publish identity_file cannot be blank"),
        other => panic!("unexpected: {other:?}"),
    }
    assert_eq!(config.ssh_target(), "host");
    assert_eq!(config.normalized_remote_path(), "/srv/site");
}

#[test]
fn object_keys_and_stale_keys() {
    assert_eq!(object_key_for_path("/site/", "nested\\app.css"), "site/nested/app.css");
    assert_eq!(object_key_for_path("", "index.html"), "index.html");
    let stale = stale_object_keys(
        &["index.html".to_string(), "old.txt".to_string()],
        &["index.html".to_string(), "nested/app.css".to_string()],
    );
    assert_eq!(stale, vec!["old.txt".to_string()]);
}

#[test]
fn shell_quoting() {
    assert_eq!(shell_quote(""), "''");
    assert_eq!(shell_quote("/a-b_c.d:e@f"), "/a-b_c.d:e@f");
    assert_eq!(shell_quote("it's"), "'it'\\''s'");
}

#[test]
fn rsync_results() {
    assert_eq!(
        finish_rsync_publish(2, "Number of files transferred: 2", "Number of deleted files: 1", true, "exit status: 0")
            .expect("ok"),
        PublishOutcome { rendered_file_count: 2, published_file_count: 2, deleted_object_count: 1 }
    );
    match finish_rsync_publish(2, " out ", " err ", false, "exit status: 23") {
        Err(SiteError::Internal(m)) => {
            assert_eq!(m, "rsync publish failed: status=exit status: 23 stdout=out stderr=err")
        }
        other => panic!("unexpected: {other:?}"),
    }
}

#[test]
fn summaries_and_error_chains() {
    let summary = publish_config_summary_for_log(&PublishTarget::S3(s3_config()));
    assert_eq!(
        summary,
        vec![
            ("method", "s3_compatible".to_string()),
            ("bucket", "bucket".to_string()),
            ("prefix", "site".to_string()),
            ("endpoint_url", "aws-default".to_string()),
        ]
    );
    assert_eq!(
        publish_config_summary_for_log(&PublishTarget::Disabled),
        vec![("method", "disabled".to_string())]
    );
    assert_eq!(error_chain(&["a".to_string(), "b".to_string()]), "a: b");
    assert_eq!(error_chain(&[]), "");
}
