//! Finding and dismissing the alerts of a notification centre in a snapshot
//! of its accessibility tree.
//!
//! - `element`: the snapshot, a tree of elements with optional attributes.
//! - `vocabulary`, `text`: the role, subrole and action names, and how names
//!   are compared.
//! - `walker`: which elements of a forest are notification alerts;
//!   `positions` states where they stand in it.
//! - `locator`: the fixed path from an application's root element to the
//!   elements that hold its alerts.
//! - `closer`, `tally`: which action dismisses a group, in which order the
//!   groups are closed, and how the successes are counted.
//! - `platform`: the process directory and the attributes by name.

pub mod closer;
pub mod element;
pub mod locator;
pub mod platform;
pub mod positions;
pub mod tally;
pub mod text;
pub mod vocabulary;
pub mod walker;
