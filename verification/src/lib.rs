//! A real-time audio synthesis engine driven by a small S-expression
//! language.  A synthesis patch is a directed acyclic graph of unit
//! generators (oscillators, filters, a delay, mixers) held in an arena;
//! the engine evaluates the graph once per audio sample with memoization,
//! so nodes shared by several parents are computed once per tick.
//!
//! All sample values are IEEE-754 double-precision numbers carried as raw
//! bit patterns (`u64`).  The arithmetic on those bit patterns is supplied
//! by the host through the [`fp::Fp`] trait; the library itself only
//! decides *which* operations run, in which order, and on which state.
//! Everything structural — graph construction, the per-tick memoization
//! protocol, the traversal that discovers shared nodes, parameter
//! reflection, pattern parsing and the canonical text dump — is verified.

pub mod event;
pub mod fp;
pub mod ugen;
pub mod time;
pub mod walk;
pub mod eval;
pub mod operate;
pub mod strings;
pub mod pattern;
pub mod dump;
