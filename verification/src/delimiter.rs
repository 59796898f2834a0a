//! The delimiter of fields: one byte, named by a word or given as it is.

use crate::error::{fails_validation, HistError};
use crate::order::same_text;
use vstd::prelude::*;
use vstd::string::*;
use vstd::utf8::encode_utf8;

verus! {

/// The byte that `text` names. Tabulator, comma, space and semicolon have names; any
/// other text stands for its own first byte, and the empty text for none.
pub open spec fn delimiter_of(text: Seq<char>) -> Option<u8> {
    if text == "\\t"@ || text == "tab"@ || text == "TAB"@ {
        Some(9u8)
    } else if text == "comma"@ || text == ","@ {
        Some(44u8)
    } else if text == "space"@ || text == " "@ {
        Some(32u8)
    } else if text == "semicolon"@ || text == ";"@ {
        Some(59u8)
    } else if text.len() == 0 {
        None
    } else {
        Some(encode_utf8(text)[0])
    }
}

/// The delimiter that `text` names.
pub fn parse_delimiter(text: &str) -> (result: Result<u8, HistError>)
    ensures
        match delimiter_of(text@) {
            Some(byte) => result == Ok::<u8, HistError>(byte),
            None => fails_validation(result, "Delimiter cannot be empty"@),
        },
{
    if same_text(text, "\\t") || same_text(text, "tab") || same_text(text, "TAB") {
        Ok(9)
    } else if same_text(text, "comma") || same_text(text, ",") {
        Ok(44)
    } else if same_text(text, "space") || same_text(text, " ") {
        Ok(32)
    } else if same_text(text, "semicolon") || same_text(text, ";") {
        Ok(59)
    } else {
        let bytes = text.as_bytes();
        if bytes.len() == 0 {
            assert(text@.len() == 0) by {
                if text@.len() > 0 {
                    assert(encode_utf8(text@).len() > 0);
                }
            }
            Err(HistError::validation("Delimiter cannot be empty"))
        } else {
            assert(text@.len() > 0);
            Ok(bytes[0])
        }
    }
}

} // verus!
