//! A persisted CIDR allow-list that is kept in step with an authoritative
//! source: the file grammar, the in-memory set, the store that decides when
//! to write, and the reconciliation cycle that decides when to run the hook.

pub mod cidr;
pub mod grammar;
pub mod allow_set;
pub mod store;
pub mod cycle;

pub use allow_set::AllowSet;
pub use cidr::{cidr_char, cidr_parsed, cidr_text, well_rendered, Cidr};
pub use grammar::{parse_allow_file, render_allow_file, RejectedLine};
pub use cycle::{Action, Event, Reconciler, Report, Stage};
pub use store::AllowList;

