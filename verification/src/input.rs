//! How the input is compressed, and what each mode accepts.

use vstd::prelude::*;
use crate::error::DumpError;
use crate::text::{chars_of, ends_with};
use crate::token::Mode;

verus! {

/// The ways in which a dump may be compressed.
#[derive(Debug, Clone, Copy, PartialEq, Eq, Structural)]
pub enum Compression {
    Plain,
    Bzip2,
    Gzip,
}

/// The compression that the name of a file stands for: `.bz2` for bzip2,
/// `.gz` for gzip, anything else for none.
pub open spec fn compression_of(path: Seq<char>) -> Compression {
    if ".bz2"@.is_suffix_of(path) {
        Compression::Bzip2
    } else if ".gz"@.is_suffix_of(path) {
        Compression::Gzip
    } else {
        Compression::Plain
    }
}

/// Whether `mode` reads input that is compressed as `kind`. Revision dumps
/// are read from gzip alone; article dumps in any form.
pub open spec fn accepts(mode: Mode, kind: Compression) -> bool {
    mode == Mode::Articles || kind == Compression::Gzip
}

/// The compression that the name of a file stands for.
pub fn detect_compression(path: &str) -> (kind: Compression)
    ensures
        kind == compression_of(path@),
{
    let chars = chars_of(path);
    if ends_with(&chars, &chars_of(".bz2")) {
        Compression::Bzip2
    } else if ends_with(&chars, &chars_of(".gz")) {
        Compression::Gzip
    } else {
        Compression::Plain
    }
}

/// The compression of the file `path`, if `mode` reads it.
pub fn choose_input(mode: Mode, path: &str) -> (r: Result<Compression, DumpError>)
    ensures
        match r {
            Ok(kind) => kind == compression_of(path@) && accepts(mode, kind),
            Err(e) => e == DumpError::UnsupportedCompression && !accepts(
                mode,
                compression_of(path@),
            ),
        },
{
    let kind = detect_compression(path);
    match (mode, kind) {
        (Mode::Articles, _) => Ok(kind),
        (Mode::Revisions, Compression::Gzip) => Ok(kind),
        _ => Err(DumpError::UnsupportedCompression),
    }
}

} // verus!
