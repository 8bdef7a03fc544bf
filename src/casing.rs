//! Case normalization of tokens.
use vstd::prelude::*;

verus! {

/// The full Unicode lower-case mapping of a text.
pub uninterp spec fn lower_of(s: Seq<char>) -> Seq<char>;

/// Relies on `str::to_lowercase`: the Unicode lower-case mapping, which
/// depends on the characters alone.
#[verifier::external_body]
pub(crate) fn lowercase(s: &str) -> (r: String)
    ensures
        r@ == lower_of(s@),
{
    s.to_lowercase()
}

/// How a token is compared with the stop words and written out: as it
/// stands when case matters, lower-cased otherwise.
pub open spec fn normalize(w: Seq<char>, case_sensitive: bool) -> Seq<char> {
    if case_sensitive {
        w
    } else {
        lower_of(w)
    }
}

/// The tokens of a line, each normalized.
pub open spec fn normalize_all(ws: Seq<Seq<char>>, case_sensitive: bool) -> Seq<Seq<char>> {
    ws.map_values(|w: Seq<char>| normalize(w, case_sensitive))
}

/// The characters of a text, one by one.
pub fn chars_of(s: &str) -> (r: Vec<char>)
    ensures
        r@ == s@,
{
    let mut out: Vec<char> = Vec::new();
    for c in it: s.chars()
        invariant
            it.seq() == s@,
            out@ == it.seq().take(it.index() as int),
    {
        out.push(c);
    }
    out
}

} // verus!
