//! Where the packages of a resolved dependency graph live on disk, and what
//! has to be done to put them there.
//!
//! An [`InstallationContext`] lays out the directories of a project. Its
//! `install` turns a resolved graph into a plan, a list of [`Step`]s, and a
//! [`Run`] says which of them is due and how the run ends. Nothing here
//! touches the disk or the network: the caller carries out each step and
//! reports how it came out. What the steps are taken to leave on disk is
//! said in `disk`, and what holds of all plans and runs in `guarantees`.

pub mod archive;
pub mod disk;
pub mod entry_point;
pub mod guarantees;
pub mod installation;
pub mod package_id;
pub mod realm;
pub mod resolution;
pub mod run;
pub mod step;
pub mod tree_path;

pub use archive::{archive_entry_point, UnreadableArchive};
pub use entry_point::{sniff_entry_point, EntryPoint};
pub use installation::InstallationContext;
pub use package_id::{package_id_file_name, PackageId};
pub use realm::Realm;
pub use resolution::{Dependency, DependencyList, Metadata, PackageSourceMap, Resolve};
pub use run::{Cause, Directive, Outcome, Run};
pub use step::{InstallError, LinkForm, Step};
pub use tree_path::TreePath;
