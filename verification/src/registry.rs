//! The source registry: maps a normalized source identifier to its
//! crawler. Lookup of an unregistered identifier is an explicit absence,
//! for the boundary to turn into a not-found response.

use vstd::prelude::*;

use crate::text::{ascii_lower, ascii_lower_chars, chars_eq, chars_to_string, str_to_chars,
    trim_chars, trim_spec};
use crate::unicam::UnicamCrawler;

verus! {

/// The normalized form of a raw source identifier: ASCII-lowercased, then
/// stripped of surrounding whitespace.
pub open spec fn normalized_source_id(raw: Seq<char>) -> Seq<char> {
    trim_spec(ascii_lower(raw))
}

/// Normalizes a raw source identifier.
pub fn normalize_source_id(raw: &str) -> (r: String)
    ensures
        r@ == normalized_source_id(raw@),
{
    let cs = str_to_chars(raw);
    let lowered = ascii_lower_chars(&cs);
    let trimmed = trim_chars(&lowered);
    chars_to_string(&trimmed)
}

/// Resolves a normalized identifier to its crawler; exactly the `unicam`
/// identifier is registered.
pub fn get_university_crawler(name: &str) -> (r: Option<UnicamCrawler>)
    ensures
        r is Some <==> name@ == "unicam"@,
{
    let nc = str_to_chars(name);
    let target = str_to_chars("unicam");
    if chars_eq(&nc, &target) {
        Some(UnicamCrawler)
    } else {
        None
    }
}

} // verus!
