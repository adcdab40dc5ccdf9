//! CSS Modules support: scoped class identifiers, the exports module, and
//! normalization of `url()` payloads.
use vstd::prelude::*;

pub mod exports;
pub mod ident;
mod text;
pub mod url;

verus! {

/// Stands in generated CSS where the public path is only known at run time.
pub const AUTO_PUBLIC_PATH_PLACEHOLDER: &'static str = "__RSPACK_PLUGIN_CSS_AUTO_PUBLIC_PATH__";

} // verus!
