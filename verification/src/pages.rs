//! How many listing pages the search shows, read from its pagination links.

use vstd::prelude::*;
use crate::decimal::{parse_i32, parse_i32_spec};

verus! {

/// Page count assumed when no pagination link holds a number.
pub const DEFAULT_PAGES: i32 = 10;

/// Some link text reads as a number.
pub open spec fn some_page_number(texts: Seq<String>) -> bool {
    exists|i: int| 0 <= i < texts.len() && (#[trigger] parse_i32_spec(texts[i]@)) is Some
}

/// The largest number among the pagination link texts that read as an
/// `i32`, or `DEFAULT_PAGES` when none does.
pub fn total_pages(texts: &Vec<String>) -> (r: i32)
    ensures
        !some_page_number(texts@) ==> r == DEFAULT_PAGES,
        some_page_number(texts@) ==> exists|i: int|
            0 <= i < texts@.len() && parse_i32_spec(texts@[i]@) == Some(r),
        forall|i: int|
            0 <= i < texts@.len() ==> (#[trigger] parse_i32_spec(texts@[i]@) matches Some(v) ==> v
                <= r),
{
    let n = texts.len();
    let mut best: Option<i32> = None;
    let mut i: usize = 0;
    while i < n
        invariant
            n == texts@.len(),
            i <= n,
            best is None ==> forall|k: int|
                0 <= k < i ==> (#[trigger] parse_i32_spec(texts@[k]@)) is None,
            best matches Some(b) ==> exists|k: int|
                0 <= k < i && parse_i32_spec(texts@[k]@) == Some(b),
            best matches Some(b) ==> forall|k: int|
                0 <= k < i ==> (#[trigger] parse_i32_spec(texts@[k]@) matches Some(v) ==> v <= b),
        decreases n - i,
    {
        let parsed = parse_i32(texts[i].as_str());
        match parsed {
            Some(v) => {
                match best {
                    Some(b) => {
                        if v > b {
                            best = Some(v);
                        }
                    },
                    None => {
                        best = Some(v);
                    },
                }
            },
            None => {},
        }
        i = i + 1;
    }
    match best {
        Some(b) => b,
        None => DEFAULT_PAGES,
    }
}

} // verus!
