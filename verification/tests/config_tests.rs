use crab_share::config::{
    get_time_from_str, CompressionMthd, Config, ConfigError, KeyPair, PartialConfig,
};

#[test]
fn durations_parse_with_unit_suffixes() {
    assert_eq!(get_time_from_str("7d"), Some(604_800));
    assert_eq!(get_time_from_str("12h"), Some(43_200));
    assert_eq!(get_time_from_str("30m"), Some(1_800));
    assert_eq!(get_time_from_str("45s"), Some(45));
    assert_eq!(get_time_from_str("300"), Some(300));
    assert_eq!(get_time_from_str("+7d"), Some(604_800));
}

#[test]
fn bad_durations_do_not_parse() {
    assert_eq!(get_time_from_str("abc"), None);
    assert_eq!(get_time_from_str("d"), None);
    assert_eq!(get_time_from_str("7.5d"), None);
    assert_eq!(get_time_from_str("-7d"), None);
    // 50 million days of seconds does not fit in 32 bits
    assert_eq!(get_time_from_str("50000000d"), None);
    assert_eq!(get_time_from_str("4294967295"), Some(u32::MAX));
    assert_eq!(get_time_from_str("4294967296"), None);
}

#[test]
fn compression_names() {
    assert_eq!(CompressionMthd::from_name("deflate"), Some(CompressionMthd::Deflate));
    assert_eq!(CompressionMthd::from_name("bzip2"), Some(CompressionMthd::Bzip2));
    assert_eq!(CompressionMthd::from_name("stored"), Some(CompressionMthd::Stored));
    assert_eq!(CompressionMthd::from_name("store"), Some(CompressionMthd::Stored));
    assert_eq!(CompressionMthd::from_name("zstd"), Some(CompressionMthd::Zstd));
    assert_eq!(CompressionMthd::from_name("gzip"), None);
    assert_eq!(CompressionMthd::from_name("Deflate"), None);
}

fn partial(path: Option<&str>, bucket: Option<&str>, url: Option<&str>, creds: bool) -> PartialConfig {
    let given = PartialConfig {
        expires: None,
        bucket: bucket.map(|s| s.to_string()),
        url: url.map(|s| s.to_string()),
        path: path.map(|s| s.to_string()),
        region: None,
        credentials: if creds {
            Some(KeyPair {
                access_key: "AK".to_string(),
                secret_key: "SK".to_string(),
            })
        } else {
            None
        },
        compression: None,
        zip_single_file: None,
        purge: None,
    };
    given.merge(PartialConfig::static_default())
}

#[test]
fn merge_prefers_first_source() {
    let a = PartialConfig {
        bucket: Some("from-args".to_string()),
        ..PartialConfig::empty()
    };
    let b = PartialConfig {
        bucket: Some("from-env".to_string()),
        region: Some("us-east-1".to_string()),
        ..PartialConfig::empty()
    };
    let merged = a.merge(b);
    assert_eq!(merged.bucket.as_deref(), Some("from-args"));
    assert_eq!(merged.region.as_deref(), Some("us-east-1"));
    assert!(merged.url.is_none());
}

#[test]
fn defaults_fill_missing_options() {
    let p = partial(Some("/tmp/x"), Some("b"), Some("http://s3"), true);
    assert_eq!(p.expires.as_deref(), Some("7d"));
    assert_eq!(p.region.as_deref(), Some("eu-central-1"));
    assert_eq!(p.compression, Some(CompressionMthd::Zstd));
    assert_eq!(p.zip_single_file, Some(false));
    assert_eq!(p.purge, Some(false));
}

#[test]
fn full_config_resolves() {
    let c = Config::from_partial(partial(Some("/tmp/x"), Some("b"), Some("http://s3"), true))
        .expect("complete configuration");
    assert_eq!(c.expires, 604_800);
    assert_eq!(c.bucket, "b");
    assert_eq!(c.url, "http://s3");
    assert_eq!(c.path, "/tmp/x");
    assert_eq!(c.region, "eu-central-1");
    assert_eq!(c.credentials.access_key, "AK");
    assert_eq!(c.credentials.secret_key, "SK");
    assert_eq!(c.compression, CompressionMthd::Zstd);
    assert!(!c.zip_single_file);
    assert!(!c.purge);
}

#[test]
fn missing_path_reported_first() {
    match Config::from_partial(partial(None, Some("b"), Some("u"), true)) {
        Err(ConfigError::Parse(m)) => assert_eq!(m, "No path given"),
        _ => panic!("expected a parse error"),
    }
}

#[test]
fn missing_bucket_reported() {
    match Config::from_partial(partial(Some("/tmp/x"), None, Some("u"), true)) {
        Err(e @ ConfigError::Missing(_)) => {
            assert_eq!(e.message(), "Error: Missing config option: bucket");
        },
        _ => panic!("expected a missing-option error"),
    }
}

#[test]
fn missing_url_reported() {
    match Config::from_partial(partial(Some("/tmp/x"), Some("b"), None, true)) {
        Err(ConfigError::Missing(m)) => assert_eq!(m, "url"),
        _ => panic!("expected a missing-option error"),
    }
}

#[test]
fn missing_credentials_reported() {
    match Config::from_partial(partial(Some("/tmp/x"), Some("b"), Some("u"), false)) {
        Err(ConfigError::Missing(m)) => assert_eq!(m, "credentials"),
        _ => panic!("expected a missing-option error"),
    }
}

#[test]
fn unparsable_expires_reported() {
    let mut p = partial(Some("/tmp/x"), Some("b"), Some("u"), true);
    p.expires = Some("soon".to_string());
    match Config::from_partial(p) {
        Err(ConfigError::Parse(m)) => {
            assert_eq!(m, "Could not parse expires: \"soon\"");
        },
        _ => panic!("expected a parse error"),
    }
}
