use vstd::prelude::*;

verus! {

/// Closes the library's traits: only types of this crate implement them.
pub trait Sealed {

}

} // verus!
