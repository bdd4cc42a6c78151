//! A build orchestrator: takes a repository from its staged changes to a pushed
//! tag, and on to published artifacts and a GitHub release.
//!
//! Each command is a state machine (`pipeline`, `android`, `commit`): from the
//! phase that it is in and the event that comes in, it says which action is
//! next. The program around the library carries the actions out and hands the
//! events back. What the machines decide by is in the other modules: the next
//! tag (`tags`), the commit message and what it means (`message`, `staging`),
//! the language of a repository (`detect`), the README (`readme`), the version
//! markers of generated code (`versions`, `wrapper`), the patterns of the
//! configuration (`config`, `globs`), the model (`lm`) and the commands that
//! are run (`publish`).

pub mod android;
pub mod commit;
pub mod config;
pub mod detect;
pub mod flow;
pub mod globs;
pub mod lm;
pub mod message;
pub mod pipeline;
pub mod publish;
pub mod readme;
pub mod staging;
pub mod tags;
pub mod text;
pub mod utf8;
pub mod versions;
pub mod wrapper;

pub use config::{BuildConfig, Entry, EntryData, GlobList, SPEC};
pub use detect::{detect_kind, RepoKind, RepoSnapshot};
pub use globs::is_ignored;
pub use message::bump_kind;
pub use staging::{commit_msg_for_diff, diff_files, print_staged, MessagePlan};
pub use tags::{compute_new_tag, last_tag, DEFAULT_VERSION};
