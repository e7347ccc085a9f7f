//! Emacs-specific integration built on the reader: file-local variables,
//! `.dir-locals.el` interpretation, and the bundled standard indent table.
//!
//! The reader itself stays dialect-neutral; everything here is tied to one
//! editor and is kept apart from the core. Values are read and interpreted,
//! never evaluated.

pub mod local_vars;
pub mod dir_locals;
pub mod indent;
