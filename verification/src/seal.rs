//! A trait that only the views of this library have.

use crate::col_mut::ColMut;
use crate::col_ref::ColRef;
use crate::mat_mut::MatMut;
use crate::mat_ref::MatRef;
use crate::row_mut::RowMut;
use crate::row_ref::RowRef;
use vstd::prelude::*;

verus! {

/// Seals a trait that has it as a supertrait.
pub trait Seal {

}

impl<'a, T> Seal for MatRef<'a, T> {

}

impl<'a, T> Seal for MatMut<'a, T> {

}

impl<'a, T> Seal for ColRef<'a, T> {

}

impl<'a, T> Seal for ColMut<'a, T> {

}

impl<'a, T> Seal for RowRef<'a, T> {

}

impl<'a, T> Seal for RowMut<'a, T> {

}

}
