//! First-boot provisioning engine for an operating system's root filesystem.
//!
//! The engine idempotently creates a canonical directory hierarchy, device
//! nodes with a kind-specific binary descriptor encoding, and a starter set
//! of regular files, some of which have a build version string substituted
//! into them.  The target filesystem is modelled explicitly as a value, so
//! every decision the engine makes is a verified function of that model.

pub mod device;
pub mod flow;
pub mod install;
pub mod strutil;
pub mod text;
pub mod time;
pub mod vfs;
