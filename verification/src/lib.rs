//! Verified core of the Bedrock Package Tool (bpt): configuration parsing, signature block
//! discovery, install-manifest ordering and encoding, bounded file windows, path safety checks,
//! and error classification.

pub mod arch;
pub mod bpt_conf;
pub mod cache;
pub mod check;
pub mod codec;
pub mod color;
pub mod constant;
pub mod error;
pub mod instfile;
pub mod manifest;
pub mod netutil;
pub mod outcome;
pub mod passphrase;
pub mod paths;
pub mod repos;
pub mod search;
pub mod shell;
pub mod sig;
pub mod sigcheck;
pub mod window;
pub mod world;
pub mod tarball;
pub mod text;
