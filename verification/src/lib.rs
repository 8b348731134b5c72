pub mod archive;
pub mod config;
pub mod convert;
pub mod domain;
pub mod extract;
pub mod indexer;
pub mod leak;
pub mod reply;
pub mod suffix_index;
pub mod suffix_list;
pub mod text;

pub use crate::config::Config;
pub use crate::domain::parse_domain;
pub use crate::leak::{CredentialData, LeakData};
pub use crate::suffix_index::SuffixIndex;
pub use crate::suffix_list::parse_tld;
