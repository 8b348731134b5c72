use vstd::prelude::*;
use vstd::string::StringExecFns;

verus! {

/// Where the index of leaks is kept, and where the public-suffix list lies.
#[derive(Debug, Clone)]
pub struct Config {
    pub couch_uri: String,
    pub couch_username: String,
    pub couch_password: String,
    pub couch_namespace: String,
    pub couch_bucket: String,
    pub couch_scope: String,
    pub couch_collection: String,
    pub tld_path: String,
}

/// The namespace that is used where none is given.
pub fn default_namespace() -> (name: String)
    ensures
        name@ == "default"@,
{
    String::from_str("default")
}

/// The bucket that is used where none is given.
pub fn default_bucket() -> (name: String)
    ensures
        name@ == "leaks-bucket"@,
{
    String::from_str("leaks-bucket")
}

/// The scope that is used where none is given.
pub fn default_scope() -> (name: String)
    ensures
        name@ == "_default"@,
{
    String::from_str("_default")
}

/// The collection that is used where none is given.
pub fn default_collection() -> (name: String)
    ensures
        name@ == "leaks"@,
{
    String::from_str("leaks")
}

/// The characters of a setting that may be absent.
pub open spec fn setting(given: Option<String>, fallback: Seq<char>) -> Seq<char> {
    match given {
        Some(s) => s@,
        None => fallback,
    }
}

impl Config {
    /// A configuration out of the settings that were given: the address,
    /// the credentials and the path of the suffix list as they are, and for
    /// each of the other four the value given or else its default.
    pub fn with_defaults(
        couch_uri: String,
        couch_username: String,
        couch_password: String,
        couch_namespace: Option<String>,
        couch_bucket: Option<String>,
        couch_scope: Option<String>,
        couch_collection: Option<String>,
        tld_path: String,
    ) -> (config: Config)
        ensures
            config.couch_uri@ == couch_uri@,
            config.couch_username@ == couch_username@,
            config.couch_password@ == couch_password@,
            config.couch_namespace@ == setting(couch_namespace, "default"@),
            config.couch_bucket@ == setting(couch_bucket, "leaks-bucket"@),
            config.couch_scope@ == setting(couch_scope, "_default"@),
            config.couch_collection@ == setting(couch_collection, "leaks"@),
            config.tld_path@ == tld_path@,
    {
        Config {
            couch_uri,
            couch_username,
            couch_password,
            couch_namespace: match couch_namespace {
                Some(s) => s,
                None => default_namespace(),
            },
            couch_bucket: match couch_bucket {
                Some(s) => s,
                None => default_bucket(),
            },
            couch_scope: match couch_scope {
                Some(s) => s,
                None => default_scope(),
            },
            couch_collection: match couch_collection {
                Some(s) => s,
                None => default_collection(),
            },
            tld_path,
        }
    }
}

} // verus!
