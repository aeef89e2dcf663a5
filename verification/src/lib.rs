//! Verified core of a terminal console for configuring price-alert zones.
//!
//! The heart of the crate is the line-editing input engine in [`input`]: a
//! single-line, cursor-addressable text buffer that stays correct under
//! multi-byte UTF-8 characters. The engine keeps its text as raw UTF-8 bytes
//! and proves, against the UTF-8 theory in `vstd`, that every edit keeps the
//! bytes a valid encoding of the character sequence the editor is supposed to
//! hold.

pub mod console;
pub mod encoding;
pub mod input;
