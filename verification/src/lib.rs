//! Core of a dynamic library-call tracer.
//!
//! Given the ELF images of a running executable and of a shared library it
//! links against, this crate resolves which functions of the library the
//! executable actually references through its dynamic relocations, generates
//! the source of entry probes for exactly those functions, and decodes the
//! fixed-layout event records the probes emit when they fire.
//!
//! File and process I/O, probe attachment and the poll loop live outside this
//! crate; it works on byte buffers and plain values only.

use vstd::prelude::*;

pub mod codec;
pub mod elf;
pub mod ldd;
pub mod orchestrate;
pub mod probes;
pub mod text;

verus! {

/// The error taxonomy of the tracer.
///
/// `Io` and `Attach` are produced by the unverified edges (file reading,
/// probe attachment); the functions of this crate only ever return `Parse`
/// (malformed ELF metadata) and `MalformedRecord` (an event buffer shorter
/// than the fixed record layout).
#[derive(Debug, Clone, Copy, PartialEq, Eq, Structural)]
pub enum TraceError {
    Io,
    Parse,
    MalformedRecord,
    Attach,
}

} // verus!
