//! In-process loader support for Beacon Object Files (x86_64 COFF objects):
//! a packer for the length-prefixed argument stream a BOF entrypoint consumes,
//! the matching reader, a bounds-checked COFF decoder, import-name classification,
//! and the relocation arithmetic the loader applies to section bytes.

pub mod bytes;
pub mod coff;
pub mod format;
pub mod hexargs;
pub mod output;
pub mod pack;
pub mod reloc;
pub mod resolver;
pub mod unpack;

use vstd::prelude::*;

verus! {

/// Everything that can go wrong while packing arguments, parsing a COFF
/// image, classifying imports, or patching relocations.
#[derive(Debug, Clone, PartialEq, Eq)]
pub enum LoaderError {
    /// The input ended before a fixed-size structure could be read.
    Truncated,
    /// A header field pointed outside the input.
    BadOffset,
    /// The file header's machine field is not x86_64.
    UnsupportedArchitecture,
    /// A relocation named a symbol index past the symbol table.
    BadSymbolIndex,
    /// A relocation type this loader does not know how to apply.
    UnsupportedRelocationType,
    /// A rel32 fix-up whose displacement does not fit in a signed 32-bit field.
    RelocationOverflow,
    /// An external symbol matched neither the beacon API nor a `lib$fn` import.
    UnresolvedSymbol(Vec<u8>),
    /// No symbol matched the requested entrypoint name (nor its `_` variant).
    EntrypointNotFound,
    /// An argument token was malformed or its value out of range.
    ArgumentFormat,
    /// Appending a record would push the packed size past its 32-bit prefix.
    CapacityExceeded,
}

} // verus!
