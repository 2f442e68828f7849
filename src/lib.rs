//! Discovery and removal engine for an installed application bundle: identity
//! extraction, matching rules, process matching, scanning and removal accounting.

pub mod app_data;
pub mod app_info;
pub mod app_state;
pub mod app_process;
pub mod cleaner;
pub mod helpers;
pub mod locations_scan;
pub mod log_receipt;
pub mod modal;
pub mod paths;
pub mod removal;
pub mod text;

pub use app_data::AppData;
pub use app_info::{AppInfo, ManifestError, MatchRules};
pub use app_state::AppState;
pub use app_process::{AppProcess, RunningProcess};
pub use cleaner::Cleaner;
pub use helpers::{normalize_lowercase, path_contains_ignore_case, path_equals_ignore_case};
pub use locations_scan::LocationsScan;
pub use log_receipt::LogReceipt;
pub use modal::{ModalAsk, ModalAskMessage};
pub use removal::RemovalFailure;
