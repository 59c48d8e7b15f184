//! Deployment of a bundled web interface into a per-user directory.
//!
//! A program ships with a [`layout::Bundle`]: a compressed archive of static
//! assets and the version of those assets. At every start it makes sure that
//! the assets on disk are those of the bundle. On the first run it asks the
//! user and installs them; on later runs it compares the version marker on
//! disk with the embedded version and, where they differ, replaces the
//! installed assets wholesale.
//!
//! The library decides and the caller acts. [`driver::Driver`] names the next
//! thing to do, the caller does it and reports back, until the driver
//! finishes with an [`driver::Outcome`]. Every change to the disk is a
//! [`disk::FsOp`], planned in full before the first one is asked for.
//!
//! - [`paths`]: locations, and the relative paths that entries name;
//! - [`disk`]: the operations on the disk and what they leave behind;
//! - [`archive`]: the archive reader, from bytes to a plan;
//! - [`version`]: the version oracle;
//! - [`layout`]: the bundle and the places of an installation;
//! - [`installer`] and [`updater`]: the two plans a deployment can need;
//! - [`driver`]: the sequence of decisions of one start;
//! - [`guarantees`]: what holds of every archive and every deployment.

pub mod archive;
pub mod disk;
pub mod driver;
pub mod guarantees;
pub mod installer;
pub mod layout;
pub mod paths;
pub mod updater;
pub mod version;
