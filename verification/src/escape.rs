//! Entity references in XML text.

use vstd::prelude::*;
use crate::error::DumpError;

verus! {

/// The error of `quick_xml::escape::unescape`, carried through unread.
#[verifier::external_type_specification]
#[verifier::external_body]
pub struct ExEscapeError(quick_xml::escape::EscapeError);

/// `raw` with every entity reference (`&lt;`, `&amp;`, `&#38;`, ...) replaced
/// by the character that it stands for; `None` where `raw` holds a reference
/// that is unknown, not closed or not a character.
pub uninterp spec fn unescaped(raw: Seq<char>) -> Option<Seq<char>>;

/// Resolves the entity references of `raw`.
///
/// Trusted: calls `quick_xml::escape::unescape`, which computes its result
/// from `raw` alone. `unescaped` is the name of that result: the text on
/// success, nothing on an error.
#[verifier::external_body]
fn unescape(raw: &str) -> (r: Result<String, quick_xml::escape::EscapeError>)
    ensures
        match r {
            Ok(text) => unescaped(raw@) == Some(text@),
            Err(_) => unescaped(raw@) is None,
        },
{
    match quick_xml::escape::unescape(raw) {
        Ok(text) => Ok(text.into_owned()),
        Err(e) => Err(e),
    }
}

/// The text that `raw` stands for, or a parse error at `offset`.
pub fn decode(raw: &str, offset: u64) -> (r: Result<String, DumpError>)
    ensures
        match r {
            Ok(text) => unescaped(raw@) == Some(text@),
            Err(e) => unescaped(raw@) is None && e == (DumpError::Parse { offset }),
        },
{
    match unescape(raw) {
        Ok(text) => Ok(text),
        Err(_) => Err(DumpError::Parse { offset }),
    }
}

} // verus!
