use labcaller::config::{is_listed, Config};
use labcaller::ids::{id_text, parse_id, storage_key};
use labcaller::text::{file_extension, progress_text, push_decimal};

#[test]
fn progress_text_two_decimals() {
    assert_eq!(progress_text(500, 1000), "Upload progress: 50.00%");
    assert_eq!(progress_text(1, 3), "Upload progress: 33.33%");
    assert_eq!(progress_text(2, 3), "Upload progress: 66.67%");
    assert_eq!(progress_text(1, 8), "Upload progress: 12.50%");
    assert_eq!(progress_text(1000, 1000), "Upload progress: 100.00%");
    assert_eq!(progress_text(0, 1000), "Upload progress: 0.00%");
    assert_eq!(progress_text(3000, 1000), "Upload progress: 300.00%");
}

#[test]
fn progress_text_zero_size_is_complete() {
    assert_eq!(progress_text(0, 0), "Upload progress: 100.00%");
    assert_eq!(progress_text(12345, 0), "Upload progress: 100.00%");
}

#[test]
fn progress_text_negative_size() {
    assert_eq!(progress_text(500, -1000), "Upload progress: -50.00%");
    assert_eq!(progress_text(0, -1000), "Upload progress: -0.00%");
}

#[test]
fn progress_text_ties_go_to_even() {
    assert_eq!(progress_text(1, 20000), "Upload progress: 0.00%");
    assert_eq!(progress_text(3, 20000), "Upload progress: 0.02%");
}

#[test]
fn progress_text_largest_values() {
    assert_eq!(progress_text(u64::MAX, 1), "Upload progress: 1844674407370955161500.00%");
    assert_eq!(progress_text(0, i64::MIN), "Upload progress: -0.00%");
}

#[test]
fn decimal_rendering() {
    let mut s = String::from("n=");
    push_decimal(&mut s, 0);
    assert_eq!(s, "n=0");
    let mut t = String::new();
    push_decimal(&mut t, 340282366920938463463374607431768211455);
    assert_eq!(t, "340282366920938463463374607431768211455");
}

#[test]
fn extensions() {
    assert_eq!(file_extension("run1.pod5"), "pod5");
    assert_eq!(file_extension("a.b.pod5"), "pod5");
    assert_eq!(file_extension("pod5"), "pod5");
    assert_eq!(file_extension("run."), "");
    assert_eq!(file_extension(""), "");
}

#[test]
fn uuid_text_round_trip() {
    let v: u128 = 0xa1a2a3a4_b1b2_c1c2_d1d2_d3d4d5d6d7d8;
    let t = id_text(v);
    assert_eq!(t, "a1a2a3a4-b1b2-c1c2-d1d2-d3d4d5d6d7d8");
    assert_eq!(parse_id(&t), Some(v));
    assert_eq!(parse_id("A1A2A3A4B1B2C1C2D1D2D3D4D5D6D7D8"), Some(v));
    assert_eq!(parse_id("a1a2"), None);
    assert_eq!(id_text(0), "00000000-0000-0000-0000-000000000000");
}

#[test]
fn storage_keys() {
    assert_eq!(storage_key("labcaller-dev", 1), "labcaller-dev/00000000-0000-0000-0000-000000000001");
}

#[test]
fn allow_list_membership() {
    let allowed = vec!["application/octet-stream".to_string()];
    assert!(is_listed(&allowed, &"application/octet-stream".to_string()));
    assert!(!is_listed(&allowed, &"application/octet".to_string()));
    assert!(!is_listed(&vec![], &"x".to_string()));
}

fn config() -> Config {
    Config {
        db_host: "db.local".to_string(),
        db_port: 5432,
        db_user: "lab".to_string(),
        db_password: "pw".to_string(),
        db_name: "labcaller".to_string(),
        db_prefix: "postgresql".to_string(),
        db_url: None,
        app_name: "labcaller".to_string(),
        s3_url: String::new(),
        s3_bucket: String::new(),
        s3_access_key: String::new(),
        s3_secret_key: String::new(),
        keycloak_ui_id: String::new(),
        keycloak_url: String::new(),
        keycloak_realm: String::new(),
        deployment: "dev".to_string(),
        _kube_config: String::new(),
        kube_namespace: String::new(),
        interval_external_services: 60,
        submission_base_image: String::new(),
        submission_base_image_tag: String::new(),
        s3_prefix: "labcaller-dev".to_string(),
        pod_prefix: "labcaller-dev".to_string(),
    }
}

#[test]
fn db_url_from_parts() {
    let c = config().form_db_url();
    assert_eq!(c.db_url.as_deref(), Some("postgresql://lab:pw@db.local:5432/labcaller"));
    assert_eq!(c.db_host, "db.local");
    let mut c2 = config();
    c2.db_port = 0;
    assert_eq!(c2.form_db_url().db_url.as_deref(), Some("postgresql://lab:pw@db.local:0/labcaller"));
}
