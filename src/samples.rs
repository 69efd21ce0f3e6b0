//! Small APIs with well-understood layouts, used as inputs when exercising the
//! generator, and the destination-side types it produces for a few C++ headers.

pub mod abi_classification;
pub mod default_repr;
pub mod elided_lifetimes;
pub mod fwd_decls;
pub mod private_method;
pub mod reordering_m1;
pub mod reordering_m2;
pub mod repr_c;
pub mod trivial_type;
pub mod types;
