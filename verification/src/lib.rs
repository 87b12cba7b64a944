//! Make Your Choice: steering which game-server regions a client can reach.
//!
//! The library computes; it never touches the system. Given the content of
//! the hosts file and the user's choices it returns the content to write,
//! and it directs, step by step, the privileged write and the latency probe
//! that a caller performs.
//!
//! - `region`: the catalog of regions and the group of each region name.
//! - `document`: the hosts text and its managed block; `document_laws`: what
//!   holds of a text after its block was replaced.
//! - `policy`: the entries that Gatekeep and Universal Redirect write;
//!   `policy_laws`: what holds after Gatekeep was applied.
//! - `hosts`: the manager that puts policy and document together, and the
//!   errors it reports.
//! - `conflicts`: entries outside the managed block that name a managed
//!   hostname; `conflict_laws`: what holds of a text after such entries were
//!   cleared.
//! - `writer` and `platform`: the steps of the privileged write, and what
//!   differs between the platforms.
//! - `probe`: the ports of a latency probe, its result and its rating.
//! - `listing`: the rows of the server list.
//! - `settings`, `update`, `notes`, `theme`: the values that the front end
//!   keeps and shows.
//! - `text` and `lines`: searching in texts, and their lines and words.

pub mod conflict_laws;
pub mod conflicts;
pub mod document;
pub mod document_laws;
pub mod hosts;
pub mod lines;
pub mod listing;
pub mod notes;
pub mod platform;
pub mod policy;
pub mod policy_laws;
pub mod probe;
pub mod region;
pub mod settings;
pub mod text;
pub mod theme;
pub mod update;
pub mod writer;
