use vstd::prelude::*;

verus! {

/// Prepares the text overlay; the overlay needs no preparation, so nothing happens.
pub fn initialize_text_renderer() {
}

} // verus!
