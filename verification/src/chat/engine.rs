//! The chat engine: the questions it asks of its texts hang on this type.
use vstd::prelude::*;

verus! {

/// The chat engine. It keeps nothing between two questions.
pub struct ChatEngine;

} // verus!
