//! Records of the marketplace search API that the library keeps as plain
//! values.

use vstd::prelude::*;

verus! {

/// Extra data that a seller attached to a listing.
#[derive(Clone, Debug, PartialEq)]
pub struct CustomData {
    pub images: Vec<String>,
    pub title: Option<String>,
    pub description: Option<String>,
    pub link_id: Option<String>,
}

impl Default for CustomData {
    /// No images and no text.
    fn default() -> (d: Self)
        ensures
            d.images@.len() == 0,
            d.title is None,
            d.description is None,
            d.link_id is None,
    {
        CustomData { images: Vec::new(), title: None, description: None, link_id: None }
    }
}

} // verus!
