use leaks::config::{
    default_bucket, default_collection, default_namespace, default_scope,
};
use leaks::leak::{checked_total, split, total_entries};
use leaks::{Config, CredentialData, LeakData};

fn group(subdomain: &str, from: usize, n: usize) -> CredentialData {
    CredentialData {
        subdomain: subdomain.to_string(),
        data: (from..from + n).map(|i| (format!("user{i}"), format!("pw{i}"))).collect(),
    }
}

fn leak(sizes: &[usize]) -> LeakData {
    let mut from = 0;
    let mut credentials = Vec::new();
    for (i, n) in sizes.iter().enumerate() {
        credentials.push(group(&format!("sub{i}"), from, *n));
        from += n;
    }
    LeakData { domain: "example.com".to_string(), credentials }
}

fn sizes(parts: &[LeakData]) -> Vec<usize> {
    parts.iter().map(|p| p.credentials.iter().map(|c| c.data.len()).sum()).collect()
}

fn triples(parts: &[LeakData]) -> Vec<(String, String, String)> {
    let mut all: Vec<(String, String, String)> = parts
        .iter()
        .flat_map(|p| p.credentials.iter())
        .flat_map(|c| c.data.iter().map(|(u, p)| (c.subdomain.clone(), u.clone(), p.clone())))
        .collect();
    all.sort();
    all
}

#[test]
fn entries_are_counted() {
    assert_eq!(total_entries(&leak(&[100, 200, 300]).credentials), 600);
    assert_eq!(total_entries(&leak(&[]).credentials), 0);
    assert_eq!(total_entries(&leak(&[0, 0]).credentials), 0);
    assert_eq!(checked_total(&leak(&[100, 200, 300]).credentials), Some(600));
    assert_eq!(checked_total(&leak(&[]).credentials), Some(0));
}

#[test]
fn parts_take_their_share() {
    assert_eq!(sizes(&split(leak(&[100, 200, 300]), 2)), vec![300, 300]);
    assert_eq!(sizes(&split(leak(&[100, 200, 300]), 3)), vec![200, 200, 200]);
    assert_eq!(sizes(&split(leak(&[100, 200, 300]), 4)), vec![150, 150, 150, 150]);
    assert_eq!(sizes(&split(leak(&[100, 200, 300]), 7)), vec![85, 85, 85, 85, 85, 85, 90]);
    assert_eq!(sizes(&split(leak(&[100, 200, 300]), 1)), vec![600]);
    assert_eq!(sizes(&split(leak(&[3]), 5)), vec![0, 0, 0, 0, 3]);
    assert_eq!(sizes(&split(leak(&[]), 3)), vec![0, 0, 0]);
    assert_eq!(sizes(&split(leak(&[0, 0]), 2)), vec![0, 0]);
}

#[test]
fn no_credential_is_lost_or_made_up() {
    for n in 1..9 {
        let given = leak(&[5, 0, 7, 1, 12]);
        let before = triples(std::slice::from_ref(&given));
        let parts = split(given, n);
        assert_eq!(parts.len(), n);
        assert_eq!(triples(&parts), before, "for {n} parts");
    }
}

#[test]
fn every_piece_is_a_run_of_one_group() {
    for n in 1..9 {
        let given = leak(&[5, 0, 7, 1, 12]);
        let groups: Vec<(String, Vec<(String, String)>)> =
            given.credentials.iter().map(|c| (c.subdomain.clone(), c.data.clone())).collect();
        for part in split(given, n) {
            for piece in part.credentials {
                let (_, data) = groups.iter().find(|(s, _)| *s == piece.subdomain).unwrap();
                let found = (0..=data.len())
                    .any(|a| data[a..].starts_with(&piece.data));
                assert!(found, "for {n} parts, under {}", piece.subdomain);
            }
        }
    }
}

#[test]
fn parts_keep_the_domain() {
    let parts = split(leak(&[4, 4]), 3);
    for p in &parts {
        assert_eq!(p.domain, "example.com");
    }
}

#[test]
fn group_that_does_not_fit_is_cut() {
    let parts = split(leak(&[4]), 2);
    assert_eq!(parts.len(), 2);
    assert_eq!(parts[0].credentials.len(), 1);
    assert_eq!(parts[0].credentials[0].subdomain, "sub0");
    assert_eq!(
        parts[0].credentials[0].data,
        vec![("user2".to_string(), "pw2".to_string()), ("user3".to_string(), "pw3".to_string())]
    );
    assert_eq!(parts[1].credentials.len(), 1);
    assert_eq!(parts[1].credentials[0].subdomain, "sub0");
    assert_eq!(
        parts[1].credentials[0].data,
        vec![("user0".to_string(), "pw0".to_string()), ("user1".to_string(), "pw1".to_string())]
    );
}

#[test]
fn defaults_are_named() {
    assert_eq!(default_namespace(), "default");
    assert_eq!(default_bucket(), "leaks-bucket");
    assert_eq!(default_scope(), "_default");
    assert_eq!(default_collection(), "leaks");
}

#[test]
fn absent_settings_take_their_defaults() {
    let config = Config::with_defaults(
        "couchbase://localhost".to_string(),
        "admin".to_string(),
        "secret".to_string(),
        None,
        Some("other-bucket".to_string()),
        None,
        None,
        "tlds.dat".to_string(),
    );
    assert_eq!(config.couch_uri, "couchbase://localhost");
    assert_eq!(config.couch_username, "admin");
    assert_eq!(config.couch_password, "secret");
    assert_eq!(config.couch_namespace, "default");
    assert_eq!(config.couch_bucket, "other-bucket");
    assert_eq!(config.couch_scope, "_default");
    assert_eq!(config.couch_collection, "leaks");
    assert_eq!(config.tld_path, "tlds.dat");
}
