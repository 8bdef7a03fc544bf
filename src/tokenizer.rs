//! Splitting a line into word tokens.
//!
//! A line is first cut into extended grapheme clusters; a token is a maximal
//! run of clusters whose first character is a letter or a digit. Every other
//! cluster (white space, punctuation, symbols) separates tokens and belongs
//! to none.
use unicode_segmentation::UnicodeSegmentation;
use vstd::prelude::*;

verus! {

/// The extended grapheme clusters of a text, in order.
pub uninterp spec fn graphemes_of(s: Seq<char>) -> Seq<Seq<char>>;

/// Whether a character has the Unicode Alphabetic or Numeric property.
pub uninterp spec fn is_alnum(c: char) -> bool;

/// A cluster is part of a word when its first character is a letter or a digit.
pub open spec fn is_word_grapheme(g: Seq<char>) -> bool {
    g.len() > 0 && is_alnum(g[0])
}

/// The views of a sequence of strings.
pub open spec fn views(v: Seq<String>) -> Seq<Seq<char>> {
    v.map_values(|w: String| w@)
}

/// Reading clusters left to right: the tokens already closed, and the token
/// being built (empty between tokens).
pub open spec fn scan(gs: Seq<Seq<char>>) -> (Seq<Seq<char>>, Seq<char>)
    decreases gs.len(),
{
    if gs.len() == 0 {
        (Seq::empty(), Seq::empty())
    } else {
        let (done, cur) = scan(gs.drop_last());
        let g = gs.last();
        if is_word_grapheme(g) {
            (done, cur + g)
        } else if cur.len() > 0 {
            (done.push(cur), Seq::empty())
        } else {
            (done, cur)
        }
    }
}

/// The tokens formed by a sequence of clusters.
pub open spec fn words_in(gs: Seq<Seq<char>>) -> Seq<Seq<char>> {
    let (done, cur) = scan(gs);
    if cur.len() > 0 {
        done.push(cur)
    } else {
        done
    }
}

/// The tokens of a line.
pub open spec fn tokens_of(line: Seq<char>) -> Seq<Seq<char>> {
    words_in(graphemes_of(line))
}

/// Relies on `UnicodeSegmentation::graphemes` (extended clusters) of the
/// unicode-segmentation crate: the clusters of `s`, in order.
#[verifier::external_body]
fn graphemes(s: &str) -> (r: Vec<String>)
    ensures
        views(r@) == graphemes_of(s@),
{
    s.graphemes(true).map(|g| g.to_string()).collect()
}

/// Relies on `char::is_alphanumeric`: the Alphabetic or Numeric property.
#[verifier::external_body]
fn alphanumeric(c: char) -> (r: bool)
    ensures
        r == is_alnum(c),
{
    c.is_alphanumeric()
}

/// Splits a line into its word tokens, in order, each with its text and
/// casing as they stand in the line.
pub fn split_into_words(s: &str) -> (r: Vec<String>)
    ensures
        views(r@) == tokens_of(s@),
{
    let gs = graphemes(s);
    let ghost gv = views(gs@);
    let mut done: Vec<String> = Vec::new();
    let mut cur = String::new();
    let mut i: usize = 0;
    while i < gs.len()
        invariant
            i <= gs.len(),
            gv == views(gs@),
            gv == graphemes_of(s@),
            scan(gv.take(i as int)) == (views(done@), cur@),
        decreases gs.len() - i,
    {
        let g = gs[i].as_str();
        let word = !g.is_empty() && alphanumeric(g.get_char(0));
        proof {
            assert(gv.take(i as int + 1).drop_last() =~= gv.take(i as int));
            assert(gv[i as int] == g@);
        }
        if word {
            cur.append(g);
        } else if !cur.as_str().is_empty() {
            let ghost before = views(done@);
            let ghost closed = cur@;
            done.push(cur);
            cur = String::new();
            proof {
                assert(views(done@) =~= before.push(closed));
            }
        }
        i = i + 1;
    }
    proof {
        assert(gv.take(gs.len() as int) =~= gv);
    }
    if !cur.as_str().is_empty() {
        done.push(cur);
    }
    done
}

/// Tokenizing the same line twice gives the same tokens: what
/// `split_into_words` returns depends on the text of the line alone.
pub proof fn lemma_tokenize_twice(line: Seq<char>, first: Seq<Seq<char>>, second: Seq<Seq<char>>)
    requires
        first == tokens_of(line),
        second == tokens_of(line),
    ensures
        first == second,
{
}

} // verus!
