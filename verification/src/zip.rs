//! Views that are walked together, element by element.

use vstd::prelude::*;

verus! {

/// Matrices that are walked together.
pub struct ZipMat<Tuple> {
    pub tuple: Tuple,
}

/// Row vectors that are walked together.
pub struct ZipRow<Tuple> {
    pub tuple: Tuple,
}

/// Column vectors that are walked together.
pub struct ZipCol<Tuple> {
    pub tuple: Tuple,
}

}
