//! Read-to-haplotype consistency for haplotype phasing: splitting reads by
//! haplotype of origin, encoding fragments for the phasing solver, and
//! minimum-error-correction statistics of a phasing.
pub mod classify;
pub mod encode;
pub mod fragment;
pub mod mec;
pub mod quality;
pub mod solver;

pub use classify::separate_reads_by_haplotype;
pub use encode::generate_flist_buffer;
pub use mec::calculate_mec;
