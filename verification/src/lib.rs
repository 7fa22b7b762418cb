//! Global sequence alignment (Needleman-Wunsch) over byte symbol sequences.
//!
//! The crate builds a dynamic-programming matrix over a subject and a
//! reference sequence, fills it under a configurable integer scoring scheme,
//! and reconstructs the optimal global alignment by walking the stored
//! operation tags back from the terminal cell.

pub mod alignment;
pub mod alignment_mtx;
pub mod element;
pub mod iterators;
pub mod matrix;
pub mod nt_aligner;
pub mod seq_iterator;
