use leaks::extract::{parse_entry, Patterns};
use leaks::SuffixIndex;

fn gen_test_st() -> SuffixIndex {
    SuffixIndex::new("com net co.uk").unwrap()
}

#[test]
fn simple() {
    let st = gen_test_st();
    let patterns = Patterns::new().unwrap();
    let (username, password, subdomain, domain) =
        parse_entry("wolya@yandex.net:5555", &patterns, &st).unwrap();
    assert_eq!(username, "wolya");
    assert_eq!(password, "5555");
    assert!(subdomain.is_empty());
    assert_eq!(domain, "yandex.net");
}

#[test]
fn credentials_scary_at() {
    let st = gen_test_st();
    let patterns = Patterns::new().unwrap();
    let (username, password, subdomain, domain) =
        parse_entry("username36@yahoo.com:password@", &patterns, &st).unwrap();
    assert_eq!(username, "username36");
    assert_eq!(password, "password@");
    assert!(subdomain.is_empty());
    assert_eq!(domain, "yahoo.com");
}

#[test]
fn credentials_first() {
    let st = gen_test_st();
    let patterns = Patterns::new().unwrap();
    let (username, password, subdomain, domain) =
        parse_entry("wolya:5555@yandex.net", &patterns, &st).unwrap();
    assert_eq!(username, "wolya");
    assert_eq!(password, "5555");
    assert!(subdomain.is_empty());
    assert_eq!(domain, "yandex.net");
}

#[test]
fn credentials_first_double_at() {
    let st = gen_test_st();
    let patterns = Patterns::new().unwrap();
    let (username, password, subdomain, domain) =
        parse_entry("wolya:55@55@yandex.net", &patterns, &st).unwrap();
    assert_eq!(username, "wolya");
    assert_eq!(password, "55@55");
    assert!(subdomain.is_empty());
    assert_eq!(domain, "yandex.net");
}

#[test]
fn credentials_scary_0() {
    let st = gen_test_st();
    let patterns = Patterns::new().unwrap();
    let (username, password, subdomain, domain) =
        parse_entry("wolya@yandex.conm.:5555", &patterns, &st).unwrap();
    assert_eq!(username, "wolya");
    assert_eq!(password, "5555");
    assert!(subdomain.is_empty());
    assert_eq!(domain, "yandex.conm");
}

#[test]
fn credentials_scary_1() {
    let st = gen_test_st();
    let patterns = Patterns::new().unwrap();
    let (username, password, subdomain, domain) =
        parse_entry("wolya@yandex.com..:5555dd", &patterns, &st).unwrap();
    assert_eq!(username, "wolya");
    assert_eq!(password, "5555dd");
    assert!(subdomain.is_empty());
    assert_eq!(domain, "yandex.com");
}

#[test]
fn credentials_scary_2() {
    let st = gen_test_st();
    let patterns = Patterns::new().unwrap();
    let (username, password, subdomain, domain) =
        parse_entry("user.name@wanadoo.fr:Password", &patterns, &st).unwrap();
    assert_eq!(username, "user.name");
    assert_eq!(password, "Password");
    assert!(subdomain.is_empty());
    assert_eq!(domain, "wanadoo.fr");
}

#[test]
fn credentials_scary_3() {
    let st = gen_test_st();
    let patterns = Patterns::new().unwrap();
    let (username, password, subdomain, domain) =
        parse_entry("wolya@gotadsl.co.uk:password!", &patterns, &st).unwrap();
    assert_eq!(username, "wolya");
    assert_eq!(password, "password!");
    assert!(subdomain.is_empty());
    assert_eq!(domain, "gotadsl.co.uk");
}

#[test]
fn credentials_scary_4() {
    let st = gen_test_st();
    let patterns = Patterns::new().unwrap();
    let (username, password, subdomain, domain) =
        parse_entry("user-name@wanadoo.fr:password2password", &patterns, &st).unwrap();
    assert_eq!(username, "user-name");
    assert_eq!(password, "password2password");
    assert!(subdomain.is_empty());
    assert_eq!(domain, "wanadoo.fr");
}

#[test]
fn no_undescore_domain_name() {
    let st = gen_test_st();
    let patterns = Patterns::new().unwrap();
    assert!(parse_entry("user-name@wana_doo.fr:password2password", &patterns, &st).is_err());
}

#[test]
fn no_undescore_domain_name_2() {
    let st = gen_test_st();
    let patterns = Patterns::new().unwrap();
    assert!(parse_entry("user-name:password2password@wana_doo.fr", &patterns, &st).is_err());
}

#[test]
fn dash_domain_name() {
    let st = gen_test_st();
    let patterns = Patterns::new().unwrap();
    let (username, password, subdomain, domain) =
        parse_entry("user-name@wana-doo.fr:password2password", &patterns, &st).unwrap();
    assert_eq!(username, "user-name");
    assert_eq!(password, "password2password");
    assert!(subdomain.is_empty());
    assert_eq!(domain, "wana-doo.fr");
}

#[test]
fn dash_domain_name_2() {
    let st = gen_test_st();
    let patterns = Patterns::new().unwrap();
    let (username, password, subdomain, domain) =
        parse_entry("user-name:password2password@wana-doo.fr", &patterns, &st).unwrap();
    assert_eq!(username, "user-name");
    assert_eq!(password, "password2password");
    assert!(subdomain.is_empty());
    assert_eq!(domain, "wana-doo.fr");
}

#[test]
fn number_login() {
    let st = gen_test_st();
    let patterns = Patterns::new().unwrap();
    let (username, password, subdomain, domain) =
        parse_entry("999999@yahoo.com:112233", &patterns, &st).unwrap();
    assert_eq!(username, "999999");
    assert_eq!(domain, "yahoo.com");
    assert_eq!(password, "112233");
    assert!(subdomain.is_empty());
}

#[test]
fn domain_case() {
    let st = gen_test_st();
    let patterns = Patterns::new().unwrap();
    let (username, password, subdomain, domain) =
        parse_entry("username@AOL.com:password", &patterns, &st).unwrap();
    assert_eq!(username, "username");
    assert_eq!(password, "password");
    assert!(subdomain.is_empty());
    assert_eq!(domain, "aol.com");
}

#[test]
fn large_username() {
    let st = gen_test_st();
    let patterns = Patterns::new().unwrap();
    let (username, password, subdomain, domain) =
        parse_entry("wqwepqowqeiweyyyteyetetqewwqwqw@yahoo.com:parter", &patterns, &st).unwrap();
    assert_eq!(username, "wqwepqowqeiweyyyteyetetqewwqwqw");
    assert_eq!(password, "parter");
    assert!(subdomain.is_empty());
    assert_eq!(domain, "yahoo.com");
}

#[test]
fn dot_dot() {
    let st = gen_test_st();
    let patterns = Patterns::new().unwrap();
    let (username, password, subdomain, domain) =
        parse_entry("username@yahoo..com:parter", &patterns, &st).unwrap();
    assert_eq!(username, "username");
    assert_eq!(password, "parter");
    assert!(subdomain.is_empty());
    assert_eq!(domain, "yahoo.com");
}

#[test]
fn domain_lowercase() {
    let st = gen_test_st();
    let patterns = Patterns::new().unwrap();
    let (username, password, subdomain, domain) =
        parse_entry("username@DOMAIN.COM:parter", &patterns, &st).unwrap();
    assert_eq!(username, "username");
    assert_eq!(password, "parter");
    assert!(subdomain.is_empty());
    assert_eq!(domain, "domain.com");
}
