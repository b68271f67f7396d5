pub mod a_normalization;
pub mod beta_reduction;
pub mod aliasing;
pub mod beta_contraction;
pub mod census_collection;
pub mod const_propagation;
pub mod copy_propagation;
pub mod dce;
pub mod eta_reduction;
pub mod expand;
pub mod lower;
