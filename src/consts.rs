//! The markers of the sidecar format.

use vstd::prelude::*;

verus! {

/// Opens a record header.
pub const MOD_COMMENT: &'static str = "<!-- ";

/// Opens the header of a file or module doc comment record.
pub const FILE_COMMENT: &'static str = "<!-- file_comment";

/// Opens the header of a file section.
pub const FILE: &'static str = "<!-- file ";

/// Closes a header.
pub const END_INFO: &'static str = " -->";

/// The sidecar's default name.
pub const OUTPUT_COMMENT_FILE: &'static str = "comments.md";

} // verus!
