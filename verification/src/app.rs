//! Product identity and label normalisation.
use vstd::prelude::*;
use crate::text::{string_of, trim, trim_str};

verus! {

/// The product's name.
pub const PRODUCT_NAME: &'static str = "Medium";

/// The product's name.
pub fn title() -> (s: &'static str)
    ensures
        s@ == "Medium"@,
{
    PRODUCT_NAME
}

/// The one-line description the `info` command prints.
pub fn summary() -> (s: &'static str)
    ensures
        s@ == "Medium CLI"@,
{
    "Medium CLI"
}

/// A node or device label as stored: without leading or trailing whitespace.
pub fn normalize_label(raw: &str) -> (s: String)
    ensures
        s@ == trim(raw@),
{
    let t = trim_str(raw);
    string_of(&t)
}

/// A device label as stored (see `normalize_label`).
pub fn normalize_device_label(raw: &str) -> (s: String)
    ensures
        s@ == trim(raw@),
{
    normalize_label(raw)
}

/// The label normalisation offered to foreign-language bindings, taking an owned string.
pub fn normalized_label(raw: String) -> (s: String)
    ensures
        s@ == trim(raw@),
{
    normalize_label(raw.as_str())
}

/// Normalising twice is normalising once.
pub proof fn lemma_normalize_idempotent(s: Seq<char>)
    ensures
        trim(trim(s)) == trim(s),
{
    crate::text::lemma_trim_idempotent(s);
}

} // verus!
