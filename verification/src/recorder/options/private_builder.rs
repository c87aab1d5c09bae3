use vstd::prelude::*;

verus! {

/// Keeps [`super::Builder`] closed to the two handles this module implements it for.
pub trait Sealed: Sized {

}

impl Sealed for &mut super::Options {

}

impl Sealed for super::Options {

}

} // verus!
