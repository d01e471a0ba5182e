//! Move inline `#[cfg(test)] mod tests { ... }` blocks of Rust source text
//! into the content of a sibling `_tests.rs` file.

pub mod classify;
pub mod eject;
pub mod error;
pub mod escaping;
pub mod filelist;
pub mod indentation;
pub mod render;
pub mod report;
pub mod scan_state;
pub mod properties;
pub mod scanner;
pub mod text;

pub use error::EjectError;
pub use classify::{classify_source, Classification};
pub use eject::{dedent, eject_tests, eject_tests_unvalidated, EjectResult};
pub use scanner::{find_test_module_region, TestModuleRegion};
pub use scan_state::{BraceAction, ScanState, StateAction};
pub use report::{apply_file, apply_source, count, FileResult, OutputFormat, Report};
pub use render::{json_escape, render_apply, render_check};
pub use filelist::{file_list_entries, FileFilter, FilterError, ListedPath};
