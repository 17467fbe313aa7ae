//! Closing object-key prefixes for good.
//!
//! A *scope* is a key prefix below which the objects of one epoch of a database lie. Once a
//! scope is closed, no object below it is written any more; its objects can only be deleted,
//! by whoever shows the proof of the closing. What records a closing is the scope's *marker*,
//! an object of its own that holds the proof.
//!
//! - [`scopes`] finds the scopes of a key, and [`listing`] those of several keys.
//! - [`marker`] says where a scope's marker is kept, and [`reading`] reads it.
//! - [`admission`] admits changes to objects none of whose scopes is closed.
//! - [`closing`] closes a scope, and [`deletion`] deletes objects below a closed one.
//! - [`admin`] answers the administrative calls that ask for the two, and registers them.
//! - [`store`] is where these operations begin.
//!
//! Reading, admitting, closing, deleting, answering and registering depend on locks, disks,
//! peers and routers. Each is a value that names the outside step that it waits for
//! (`action`) and that goes on when it is told what came of that step (`step`, `call`). The
//! modules `*_laws` state what holds of all such runs, and of all keys, texts and records.

pub mod admin;
pub mod admission;
pub mod admission_laws;
pub mod closing;
pub mod closing_laws;
pub mod deletion;
pub mod deletion_laws;
pub mod exclusion_laws;
pub mod ident;
pub mod ident_laws;
pub mod listing;
pub mod marker;
pub mod options;
pub mod reading;
pub mod reading_laws;
pub mod record_laws;
pub mod records;
pub mod scope_laws;
pub mod scopes;
pub mod shape_laws;
pub mod store;
pub mod text;
pub mod text_laws;
