//! The language a form speaks.
use vstd::prelude::*;

verus! {

/// `lang` names Portuguese: lower-cased, it starts with `pt`.
pub open spec fn is_portuguese(lang: Seq<char>) -> bool {
    &&& lang.len() >= 2
    &&& (lang[0] == 'p' || lang[0] == 'P')
    &&& (lang[1] == 't' || lang[1] == 'T')
}

/// Whether a form with language tag `lang` is worded in Portuguese (else
/// in English). Only `P` lower-cases to `p` and only `T` to `t`, so the
/// first two characters decide.
pub fn prefers_portuguese(lang: &str) -> (b: bool)
    ensures
        b == is_portuguese(lang@),
{
    let n = lang.unicode_len();
    if n < 2 {
        return false;
    }
    let a = lang.get_char(0);
    let c = lang.get_char(1);
    (a == 'p' || a == 'P') && (c == 't' || c == 'T')
}

} // verus!
