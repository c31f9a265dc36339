//! Verified core of a two-party file synchronization service.
//!
//! A client and a server reconcile the contents of a storage directory over
//! a length-framed protocol: each side scans its tree against a persisted
//! snapshot, the server computes a bidirectional reconciliation plan, the
//! two sides exchange the required file bytes, and both commit a fresh
//! snapshot.

pub mod codec;
pub mod diff;
pub mod file;
pub mod files;
pub mod hashing;
pub mod json;
pub mod packet;
pub mod paths;
pub mod scan;
pub mod session;
pub mod state;
pub mod user;
pub mod wire;

pub use diff::DiffError;
pub use diff::both_edits;
pub use diff::client_todo_spec;
pub use diff::client_wants;
pub use diff::delete_conflict;
pub use diff::diff_defined;
pub use diff::lemma_reconcile_converged;
pub use diff::lemma_reconcile_deterministic;
pub use diff::lemma_reconcile_exclusive;
pub use diff::server_todo_spec;
pub use diff::server_wants;
pub use file::File;
pub use file::FileV;
pub use file::hash_eq;
pub use files::Files;
pub use files::bytes_eq;
pub use files::kv_of;
pub use files::map_of;
pub use files::stored_form;
pub use files::unique_keys;
pub use packet::FrameError;
pub use packet::MAX_DATA_LENGTH;
pub use packet::PacketV;
pub use packet::SMDpacket;
pub use packet::SMDtype;
pub use packet::frame_encode;
pub use packet::frame_parse;
pub use packet::lemma_frame_round_trip;
pub use packet::lemma_type_round_trip;
pub use packet::type_of_value;
pub use packet::type_value;
pub use packet::u32_be_bytes;
pub use packet::u32_from_be;
pub use scan::get_current_state;
pub use scan::lemma_scan_classification;
pub use scan::lemma_scan_total;
pub use scan::lemma_session_convergence;
pub use scan::scan_spec;
pub use hashing::hash;
pub use hashing::sha1_of;
pub use paths::to_absolute_path;
pub use paths::to_relative_paths;
pub use paths::to_valid_syncing_directory;
pub use session::ClientSession;
pub use session::ServerSession;
pub use session::accept_smd_connect;
pub use session::delete;
pub use user::User;
pub use user::UserError;
pub use user::valid_username;
pub use wire::DataTransfer;
pub use wire::UpdateAnswer;
pub use codec::JsonError;
pub use codec::lemma_snapshot_round_trip;
pub use state::State;
