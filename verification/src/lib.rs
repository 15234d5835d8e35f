//! Brute-force digest-prefix search for commit records.
//!
//! The library prepares a digestible commit payload with an embedded,
//! rewritable counter field, and offers the verified building blocks of the
//! search loop that mutates the counter, recomputes the digest and tests the
//! digest against a requested hexadecimal prefix.

pub mod counter;
pub mod error;
pub mod hex;
pub mod matcher;
pub mod prepare;
pub mod repo;
pub mod search;

pub use counter::update_hex_counter;
pub use error::Error;
pub use hex::decode_hex;
pub use hex::encode_hex;
pub use matcher::matches_prefix;
pub use prepare::add_bruteforce_header;
pub use prepare::extract_commit_data;
pub use repo::format_object_path;
pub use repo::Repo;
pub use search::inner_loop;
pub use search::parse_prefix;
