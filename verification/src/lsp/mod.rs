//! A language server for LogQL: positions, diagnostics and completion.

pub mod backend;
pub mod completion;
pub mod diagnostics;
pub mod position;

pub use backend::{LabelValuesUpdateParams, LabelsUpdateParams, LogQLBackend};
pub use position::{byte_to_lsp_position, lsp_position_to_byte, Position, Range};
