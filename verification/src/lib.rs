//! Boot configuration for a minimal init: the kernel command line grammar and
//! the sequencing of virtiofs mounts.

pub mod cmdline;
pub mod env;
pub mod text;
pub mod virtiofs;
