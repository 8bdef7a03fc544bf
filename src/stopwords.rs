//! The stop-word set: the words that are never indexed.
use std::collections::HashSet;
use vstd::prelude::*;

verus! {

/// The texts a stop-word set holds.
pub open spec fn stop_view(s: &HashSet<String>) -> Set<Seq<char>> {
    s@.map(|w: String| w@)
}

/// The built-in stop words: Portuguese articles and short function words.
pub open spec fn default_stop_set() -> Set<Seq<char>> {
    set![
        seq!['a'],
        seq!['o'],
        seq!['a', 's'],
        seq!['o', 's'],
        seq!['u', 'm'],
        seq!['u', 'm', 'a'],
        seq!['\u{e9}'],
        seq!['d', 'e'],
        seq!['d', 'o'],
        seq!['d', 'a'],
        seq!['n', 'o'],
        seq!['n', 'a'],
    ]
}

/// Relies on `HashSet::contains`: whether the set holds a string equal to
/// `w`. (vstd's own specification of it requires a key model that it does
/// not grant `String`.)
#[verifier::external_body]
pub(crate) fn set_contains(set: &HashSet<String>, w: &String) -> (r: bool)
    ensures
        r == stop_view(set).contains(w@),
{
    set.contains(w)
}

/// Relies on `HashSet::insert`: afterwards the set holds `w` besides what it
/// held before.
#[verifier::external_body]
fn set_insert(set: &mut HashSet<String>, w: String)
    ensures
        stop_view(final(set)) == stop_view(old(set)).insert(w@),
{
    set.insert(w);
}

/// An empty stop-word set.
fn empty_set() -> (r: HashSet<String>)
    ensures
        stop_view(&r) == Set::<Seq<char>>::empty(),
{
    let r: HashSet<String> = HashSet::new();
    assert(stop_view(&r) =~= Set::<Seq<char>>::empty());
    r
}

/// Adds a word given as a literal.
fn add_word(set: &mut HashSet<String>, w: &str)
    ensures
        stop_view(final(set)) == stop_view(old(set)).insert(w@),
{
    set_insert(set, String::from_str(w));
}

/// The built-in stop-word set.
pub fn default_stop_words() -> (r: HashSet<String>)
    ensures
        stop_view(&r) == default_stop_set(),
{
    let mut r = empty_set();
    add_word(&mut r, "a");
    add_word(&mut r, "o");
    add_word(&mut r, "as");
    add_word(&mut r, "os");
    add_word(&mut r, "um");
    add_word(&mut r, "uma");
    add_word(&mut r, "\u{e9}");
    add_word(&mut r, "de");
    add_word(&mut r, "do");
    add_word(&mut r, "da");
    add_word(&mut r, "no");
    add_word(&mut r, "na");
    proof {
        reveal_strlit("a");
        assert("a"@ =~= seq!['a']);
        reveal_strlit("o");
        assert("o"@ =~= seq!['o']);
        reveal_strlit("as");
        assert("as"@ =~= seq!['a', 's']);
        reveal_strlit("os");
        assert("os"@ =~= seq!['o', 's']);
        reveal_strlit("um");
        assert("um"@ =~= seq!['u', 'm']);
        reveal_strlit("uma");
        assert("uma"@ =~= seq!['u', 'm', 'a']);
        reveal_strlit("\u{e9}");
        assert("\u{e9}"@ =~= seq!['\u{e9}']);
        reveal_strlit("de");
        assert("de"@ =~= seq!['d', 'e']);
        reveal_strlit("do");
        assert("do"@ =~= seq!['d', 'o']);
        reveal_strlit("da");
        assert("da"@ =~= seq!['d', 'a']);
        reveal_strlit("no");
        assert("no"@ =~= seq!['n', 'o']);
        reveal_strlit("na");
        assert("na"@ =~= seq!['n', 'a']);
        assert(stop_view(&r) =~= default_stop_set());
    }
    r
}

/// A stop-word set holding exactly the given words, one entry per line of
/// a stop-word list, taken as they stand.
pub fn stop_words_from_lines(lines: &Vec<String>) -> (r: HashSet<String>)
    ensures
        stop_view(&r) == lines@.map_values(|w: String| w@).to_set(),
{
    let ghost lv = lines@.map_values(|w: String| w@);
    let mut r = empty_set();
    let mut i: usize = 0;
    while i < lines.len()
        invariant
            i <= lines.len(),
            lv == lines@.map_values(|w: String| w@),
            stop_view(&r) == lv.take(i as int).to_set(),
        decreases lines.len() - i,
    {
        set_insert(&mut r, lines[i].clone());
        proof {
            assert(lv.take(i as int + 1) =~= lv.take(i as int).push(lv[i as int]));
            lv.take(i as int).lemma_push_to_set_commute(lv[i as int]);
        }
        i = i + 1;
    }
    proof {
        assert(lv.take(lines.len() as int) =~= lv);
    }
    r
}

/// The stop words to use: those of a list when one is given, the built-in
/// set otherwise.
pub fn stop_words_or_default(listed: Option<&Vec<String>>) -> (r: HashSet<String>)
    ensures
        stop_view(&r) == match listed {
            Some(lines) => lines@.map_values(|w: String| w@).to_set(),
            None => default_stop_set(),
        },
{
    match listed {
        Some(lines) => stop_words_from_lines(lines),
        None => default_stop_words(),
    }
}

} // verus!
