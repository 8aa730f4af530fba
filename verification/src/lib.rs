//! Verified core of a OneNote notebook editor: the editable project model,
//! Markdown export, native edit planning, Microsoft Graph payload helpers,
//! sync-state transitions and undo/redo history.

pub mod text;
pub mod model;
pub mod native;
pub mod plan;
pub mod markdown;
pub mod paths;
pub mod html;
pub mod graph;
pub mod sync;
pub mod history;
pub mod import;
pub mod workflow;
