//! The index itself: rotation of each line around its eligible tokens,
//! and the sorted collection of the records of all lines.
use std::collections::HashSet;
use crate::casing::{lowercase, normalize, normalize_all};
use crate::order::{record_views, sort_by_context, sort_records, Record};
use crate::stopwords::{set_contains, stop_view};
use crate::tokenizer::{split_into_words, tokens_of, views};
use vstd::prelude::*;

verus! {

/// The tokens of a line rotated left so that the token at `i` leads and
/// those before it follow the last one.
pub open spec fn rotate(ws: Seq<Seq<char>>, i: int) -> Seq<Seq<char>> {
    ws.skip(i) + ws.take(i)
}

/// Words joined by single spaces.
pub open spec fn join_words(ws: Seq<Seq<char>>) -> Seq<char>
    decreases ws.len(),
{
    if ws.len() == 0 {
        Seq::empty()
    } else if ws.len() == 1 {
        ws[0]
    } else {
        join_words(ws.drop_last()) + seq![' '] + ws.last()
    }
}

/// For each position of a line's (normalized) tokens, the record that
/// position would give: the token and the line rotated to start at it.
pub open spec fn rotations(ws: Seq<Seq<char>>) -> Seq<Record> {
    Seq::new(ws.len(), |i: int| (ws[i], join_words(rotate(ws, i))))
}

/// The records of a line's normalized tokens: one per token that is not a
/// stop word, in the order of the tokens.
pub open spec fn records_of_words(ws: Seq<Seq<char>>, stops: Set<Seq<char>>) -> Seq<Record> {
    keep_eligible(rotations(ws), stops)
}

/// The records whose keyword is not a stop word, in order.
pub open spec fn keep_eligible(rs: Seq<Record>, stops: Set<Seq<char>>) -> Seq<Record> {
    rs.filter(|r: Record| !stops.contains(r.0))
}

/// The records of one line.
pub open spec fn line_records(line: Seq<char>, stops: Set<Seq<char>>, case_sensitive: bool) -> Seq<
    Record,
> {
    records_of_words(normalize_all(tokens_of(line), case_sensitive), stops)
}

/// The records of all lines, line after line, before sorting.
pub open spec fn all_records(lines: Seq<Seq<char>>, stops: Set<Seq<char>>, case_sensitive: bool) -> Seq<
    Record,
>
    decreases lines.len(),
{
    if lines.len() == 0 {
        Seq::empty()
    } else {
        all_records(lines.drop_last(), stops, case_sensitive) + line_records(
            lines.last(),
            stops,
            case_sensitive,
        )
    }
}

/// The index of a collection of lines.
pub open spec fn kwic_index(lines: Seq<Seq<char>>, stops: Set<Seq<char>>, case_sensitive: bool) -> Seq<
    Record,
> {
    sort_records(all_records(lines, stops, case_sensitive))
}

/// Normalizes each token: a copy when case matters, its lower case otherwise.
pub fn normalize_words(words: &Vec<String>, case_sensitive: bool) -> (r: Vec<String>)
    ensures
        views(r@) == normalize_all(views(words@), case_sensitive),
{
    let ghost target = normalize_all(views(words@), case_sensitive);
    let mut out: Vec<String> = Vec::new();
    let mut i: usize = 0;
    while i < words.len()
        invariant
            i <= words.len(),
            target == normalize_all(views(words@), case_sensitive),
            target.len() == words.len(),
            out.len() == i,
            views(out@) == target.take(i as int),
        decreases words.len() - i,
    {
        let w = if case_sensitive {
            words[i].clone()
        } else {
            lowercase(words[i].as_str())
        };
        proof {
            assert(views(words@)[i as int] == words@[i as int]@);
            assert(views(out@.push(w)) =~= target.take(i as int + 1));
        }
        out.push(w);
        i = i + 1;
    }
    proof {
        assert(target.take(words.len() as int) =~= target);
    }
    out
}

/// Position `m` of the rotation starting at `i` holds the token at
/// `(i + m) mod L`.
pub proof fn lemma_rotation(ws: Seq<Seq<char>>, i: int)
    requires
        0 <= i < ws.len(),
    ensures
        rotate(ws, i).len() == ws.len(),
        rotate(ws, i)[0] == ws[i],
        forall|m: int| 0 <= m < ws.len() ==> #[trigger] rotate(ws, i)[m] == ws[(i + m) % (ws.len() as int)],
{
    let r = rotate(ws, i);
    let n = ws.len() as int;
    assert forall|m: int| 0 <= m < n implies #[trigger] r[m] == ws[(i + m) % n] by {
        if m < n - i {
            assert((i + m) % n == i + m) by (nonlinear_arith)
                requires
                    0 <= i + m < n,
            ;
        } else {
            assert((i + m) % n == i + m - n) by (nonlinear_arith)
                requires
                    n <= i + m < 2 * n,
            ;
        }
    }
}

/// The context of the token at `i`: the tokens from `i` to the end, then
/// those before `i`, joined by single spaces.
pub fn rotated_context(ws: &Vec<String>, i: usize) -> (r: String)
    requires
        i < ws.len(),
    ensures
        r@ == join_words(rotate(views(ws@), i as int)),
{
    let ghost wv = views(ws@);
    let ghost rot = rotate(wv, i as int);
    let n = ws.len();
    let mut out = String::new();
    let mut k: usize = 0;
    proof {
        assert(rot.take(0) =~= Seq::<Seq<char>>::empty());
    }
    while k < n
        invariant
            i < n,
            n == ws.len(),
            wv == views(ws@),
            rot == rotate(wv, i as int),
            rot.len() == n,
            k <= n,
            out@ == join_words(rot.take(k as int)),
        decreases n - k,
    {
        let j = if k < n - i {
            i + k
        } else {
            k - (n - i)
        };
        proof {
            assert(rot[k as int] == wv[j as int]);
            assert(rot.take(k as int + 1).drop_last() =~= rot.take(k as int));
        }
        if k > 0 {
            out.append(" ");
            proof {
                reveal_strlit(" ");
                assert(" "@ =~= seq![' ']);
            }
        }
        out.append(ws[j].as_str());
        proof {
            if k == 0 {
                assert(out@ =~= join_words(rot.take(1)));
            }
        }
        k = k + 1;
    }
    proof {
        assert(rot.take(n as int) =~= rot);
    }
    out
}

/// Appends the records of one line, given its normalized tokens.
fn push_line_records(
    ws: &Vec<String>,
    stop_words: &HashSet<String>,
    out: &mut Vec<(String, String)>,
)
    ensures
        record_views(final(out)@) == record_views(old(out)@) + records_of_words(
            views(ws@),
            stop_view(stop_words),
        ),
{
    let ghost wv = views(ws@);
    let ghost stops = stop_view(stop_words);
    let ghost base = record_views(out@);
    let ghost rots = rotations(wv);
    let mut i: usize = 0;
    proof {
        reveal(Seq::filter);
        assert(rots.take(0) =~= Seq::<Record>::empty());
        assert(base + keep_eligible(rots.take(0), stops) =~= base);
    }
    while i < ws.len()
        invariant
            i <= ws.len(),
            wv == views(ws@),
            stops == stop_view(stop_words),
            rots == rotations(wv),
            record_views(out@) == base + keep_eligible(rots.take(i as int), stops),
        decreases ws.len() - i,
    {
        let ghost before = record_views(out@);
        proof {
            reveal(Seq::filter);
            assert(rots.take(i as int + 1).drop_last() =~= rots.take(i as int));
            assert(rots.take(i as int + 1).last() == rots[i as int]);
            assert(wv[i as int] == ws@[i as int]@);
        }
        if !set_contains(stop_words, &ws[i]) {
            let ctx = rotated_context(ws, i);
            out.push((ws[i].clone(), ctx));
            proof {
                assert(record_views(out@) =~= before.push(rots[i as int]));
            }
        }
        i = i + 1;
    }
    proof {
        assert(rots.take(ws.len() as int) =~= rots);
    }
}

/// Builds the index of a collection of lines: one record per token that
/// is not a stop word (after normalization), holding the normalized token
/// and its line rotated to start at it, sorted stably by lower-cased
/// context.
pub fn process_kwic(lines: &[String], stop_words: &HashSet<String>, case_sensitive: bool) -> (r: Vec<
    (String, String),
>)
    ensures
        record_views(r@) == kwic_index(views(lines@), stop_view(stop_words), case_sensitive),
{
    let ghost lv = views(lines@);
    let ghost stops = stop_view(stop_words);
    let mut all: Vec<(String, String)> = Vec::new();
    let mut li: usize = 0;
    proof {
        assert(lv.take(0) =~= Seq::<Seq<char>>::empty());
        assert(record_views(all@) =~= Seq::<Record>::empty());
    }
    while li < lines.len()
        invariant
            li <= lines.len(),
            lv == views(lines@),
            stops == stop_view(stop_words),
            record_views(all@) == all_records(lv.take(li as int), stops, case_sensitive),
        decreases lines.len() - li,
    {
        let words = split_into_words(lines[li].as_str());
        let norm = normalize_words(&words, case_sensitive);
        push_line_records(&norm, stop_words, &mut all);
        proof {
            assert(lv.take(li as int + 1).drop_last() =~= lv.take(li as int));
            assert(lv.take(li as int + 1).last() == lines@[li as int]@);
        }
        li = li + 1;
    }
    proof {
        assert(lv.take(lines.len() as int) =~= lv);
    }
    sort_by_context(&all)
}

/// The tokens that are not stop words, in order.
pub open spec fn eligible_words(ws: Seq<Seq<char>>, stops: Set<Seq<char>>) -> Seq<Seq<char>> {
    ws.filter(|w: Seq<char>| !stops.contains(w))
}

/// Keeping the eligible records keeps as many as there are eligible keywords.
proof fn lemma_keep_eligible_len(rs: Seq<Record>, ws: Seq<Seq<char>>, stops: Set<Seq<char>>)
    requires
        rs.len() == ws.len(),
        forall|i: int| 0 <= i < rs.len() ==> (#[trigger] rs[i]).0 == ws[i],
    ensures
        keep_eligible(rs, stops).len() == eligible_words(ws, stops).len(),
    decreases rs.len(),
{
    reveal(Seq::filter);
    if rs.len() > 0 {
        let (rt, wt) = (rs.drop_last(), ws.drop_last());
        assert forall|i: int| 0 <= i < rt.len() implies (#[trigger] rt[i]).0 == wt[i] by {
            assert(rt[i] == rs[i]);
        }
        lemma_keep_eligible_len(rt, wt, stops);
        assert(rs.last().0 == ws.last());
    }
}

/// A line with `L` tokens that are not stop words (after normalization)
/// yields exactly `L` records, repeated tokens counted one by one.
pub proof fn lemma_line_record_count(line: Seq<char>, stops: Set<Seq<char>>, case_sensitive: bool)
    ensures
        line_records(line, stops, case_sensitive).len() == eligible_words(
            normalize_all(tokens_of(line), case_sensitive),
            stops,
        ).len(),
{
    let ws = normalize_all(tokens_of(line), case_sensitive);
    lemma_keep_eligible_len(rotations(ws), ws, stops);
}

/// Every record of a line is the rotation of the line's normalized tokens
/// around one of its tokens that is not a stop word: the token is the
/// keyword, and the rotated sequence has the line's length and holds at
/// position `m` the token at `(i + m) mod L`.
pub proof fn lemma_line_records_are_rotations(
    line: Seq<char>,
    stops: Set<Seq<char>>,
    case_sensitive: bool,
    k: int,
)
    requires
        0 <= k < line_records(line, stops, case_sensitive).len(),
    ensures
        ({
            let ws = normalize_all(tokens_of(line), case_sensitive);
            let r = line_records(line, stops, case_sensitive)[k];
            exists|i: int|
                0 <= i < ws.len() && !stops.contains(ws[i]) && r == (
                    ws[i],
                    join_words(rotate(ws, i)),
                ) && rotate(ws, i).len() == ws.len() && rotate(ws, i)[0] == ws[i] && (forall|m: int|
                    0 <= m < ws.len() ==> #[trigger] rotate(ws, i)[m] == ws[(i + m) % (
                    ws.len() as int)])
        }),
{
    let ws = normalize_all(tokens_of(line), case_sensitive);
    let rots = rotations(ws);
    let p = |r: Record| !stops.contains(r.0);
    let r = line_records(line, stops, case_sensitive)[k];
    broadcast use vstd::seq_lib::group_filter_ensures;

    assert(rots.filter(p).contains(r));
    rots.lemma_filter_contains_rev(p, r);
    assert(p(rots.filter(p)[k]));
    let i = choose|i: int| 0 <= i < rots.len() && rots[i] == r;
    lemma_rotation(ws, i);
}

} // verus!
