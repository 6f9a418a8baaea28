//! Resource delivery and view lifecycle for a desktop shell that hosts
//! several web projects in one window.
//!
//! - `locator`: from a `myapp://` locator to a document path that stays
//!   below the asset root, or a rejection.
//! - `media`: the media type of a path, by its extension.
//! - `overlay`: the navigation overlay put into markup.
//! - `serve`: one resource request, from locator to response; the disk read
//!   is left to the caller.
//! - `wire`: the request line and response bytes of the per-project listener.
//! - `registry`: the project views, their lifecycle and the one-visible rule;
//!   each operation returns the changes that the host carries out.
//! - `naming`: labels and locators derived from a project identifier.
//! - `text`: searching sequences.

use vstd::prelude::*;

pub mod locator;
pub mod media;
pub mod naming;
pub mod overlay;
pub mod registry;
pub mod serve;
pub mod text;
pub mod wire;

verus! {

} // verus!
