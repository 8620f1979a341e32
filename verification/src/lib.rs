//! Strided matrix and vector views, and owning matrices in column major format.
//!
//! A view is a position in memory together with dimensions and strides. The models that contracts
//! speak of are in [`model`], and the laws that relate the operations are in [`laws`].

pub mod col_mut;
pub mod col_ref;
pub mod complex;
pub mod debug;
pub mod field;
pub mod iter;
pub mod join;
pub mod laws;
pub mod mat;
pub mod mat_mut;
pub mod mat_ref;
pub mod memory;
pub mod model;
pub mod row_mut;
pub mod row_ref;
pub mod seal;
pub mod slices;
pub mod stack;
pub mod word;
pub mod zip;

pub use col_mut::ColMut;
pub use col_ref::ColRef;
pub use field::{ComplexField, RealField};
pub use join::{join, join_raw, join_req, try_join, Parallelism};
pub use mat::{mat, Mat};
pub use mat_mut::MatMut;
pub use mat_ref::MatRef;
pub use memory::{Ptr, PtrMut};
pub use row_mut::RowMut;
pub use row_ref::RowRef;
pub use slices::{as_uninit, from_mut_slice, from_uninit_mut_slice};
pub use stack::{
    align_for, is_vectorizable, round_up_to, temp_mat_req, Either, SizeOverflow, StackReq,
};
