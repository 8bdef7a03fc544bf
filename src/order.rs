//! The order of the index: records sorted, stably, by their lower-cased
//! context, compared character by character on code points.
use crate::casing::{chars_of, lower_of, lowercase};
use vstd::prelude::*;

verus! {

/// A record of the index, as values: (keyword, context).
pub type Record = (Seq<char>, Seq<char>);

/// The key a record is sorted by: its context, lower-cased.
pub open spec fn sort_key(r: Record) -> Seq<char> {
    lower_of(r.1)
}

/// Lexicographic order on texts by code point: `a` comes no later than `b`.
pub open spec fn lex_le(a: Seq<char>, b: Seq<char>) -> bool
    decreases a.len(),
{
    if a.len() == 0 {
        true
    } else if b.len() == 0 {
        false
    } else if a[0] != b[0] {
        (a[0] as int) < (b[0] as int)
    } else {
        lex_le(a.drop_first(), b.drop_first())
    }
}

/// Every text comes no later than itself.
pub proof fn lemma_lex_le_reflexive(a: Seq<char>)
    ensures
        lex_le(a, a),
    decreases a.len(),
{
    if a.len() > 0 {
        lemma_lex_le_reflexive(a.drop_first());
    }
}

/// Any two texts are ordered one way or the other.
pub proof fn lemma_lex_le_total(a: Seq<char>, b: Seq<char>)
    ensures
        lex_le(a, b) || lex_le(b, a),
    decreases a.len(),
{
    if a.len() > 0 && b.len() > 0 && a[0] == b[0] {
        lemma_lex_le_total(a.drop_first(), b.drop_first());
    }
}

/// Texts ordered both ways are equal.
pub proof fn lemma_lex_le_antisymmetric(a: Seq<char>, b: Seq<char>)
    requires
        lex_le(a, b),
        lex_le(b, a),
    ensures
        a == b,
    decreases a.len(),
{
    if a.len() > 0 && b.len() > 0 {
        if a[0] == b[0] {
            lemma_lex_le_antisymmetric(a.drop_first(), b.drop_first());
            assert(a =~= seq![a[0]] + a.drop_first());
            assert(b =~= seq![b[0]] + b.drop_first());
        } else {
            assert((a[0] as int) != (b[0] as int));
        }
    } else {
        assert(a =~= b);
    }
}

/// Order is carried along a chain of texts.
pub proof fn lemma_lex_le_transitive(a: Seq<char>, b: Seq<char>, c: Seq<char>)
    requires
        lex_le(a, b),
        lex_le(b, c),
    ensures
        lex_le(a, c),
    decreases a.len(),
{
    if a.len() > 0 && b.len() > 0 && c.len() > 0 && a[0] == b[0] && b[0] == c[0] {
        lemma_lex_le_transitive(a.drop_first(), b.drop_first(), c.drop_first());
    }
}

/// Decides `lex_le` on two character vectors.
fn key_le(a: &Vec<char>, b: &Vec<char>) -> (r: bool)
    ensures
        r == lex_le(a@, b@),
{
    let mut i: usize = 0;
    assert(a@.skip(0) =~= a@ && b@.skip(0) =~= b@);
    while i < a.len() && i < b.len() && a[i] == b[i]
        invariant
            i <= a.len(),
            i <= b.len(),
            lex_le(a@, b@) == lex_le(a@.skip(i as int), b@.skip(i as int)),
        decreases a.len() - i,
    {
        proof {
            let (sa, sb) = (a@.skip(i as int), b@.skip(i as int));
            assert(sa.drop_first() =~= a@.skip(i as int + 1));
            assert(sb.drop_first() =~= b@.skip(i as int + 1));
        }
        i = i + 1;
    }
    if i == a.len() {
        true
    } else if i == b.len() {
        false
    } else {
        a[i] < b[i]
    }
}

/// Places `x` after every record of `s`, taken from the back, whose key
/// does not come after the key of `x`.
pub open spec fn insert_record(s: Seq<Record>, x: Record) -> Seq<Record>
    decreases s.len(),
{
    if s.len() == 0 {
        seq![x]
    } else if lex_le(sort_key(s.last()), sort_key(x)) {
        s.push(x)
    } else {
        insert_record(s.drop_last(), x).push(s.last())
    }
}

/// The records sorted stably by key: each is inserted, in order of arrival,
/// into the sorted records before it.
pub open spec fn sort_records(s: Seq<Record>) -> Seq<Record>
    decreases s.len(),
{
    if s.len() == 0 {
        s
    } else {
        insert_record(sort_records(s.drop_last()), s.last())
    }
}

/// The values of a vector of (keyword, context) records.
pub open spec fn record_views(v: Seq<(String, String)>) -> Seq<Record> {
    v.map_values(|p: (String, String)| (p.0@, p.1@))
}

/// Each key comes no later than the one after it.
pub open spec fn keys_ascending(s: Seq<Record>) -> bool {
    forall|k: int| 0 <= k < s.len() - 1 ==> lex_le(sort_key(#[trigger] s[k]), sort_key(s[k + 1]))
}

/// The records of `s` whose key is `key`, in their order in `s`.
pub open spec fn with_key(s: Seq<Record>, key: Seq<char>) -> Seq<Record> {
    s.filter(|r: Record| sort_key(r) == key)
}

/// Inserting at the first position from the back whose predecessor's key
/// does not come after the new key is `insert_record`.
proof fn lemma_insert_at(s: Seq<Record>, x: Record, j: int)
    requires
        0 <= j <= s.len(),
        j == 0 || lex_le(sort_key(s[j - 1]), sort_key(x)),
        forall|k: int| j <= k < s.len() ==> !lex_le(sort_key(#[trigger] s[k]), sort_key(x)),
    ensures
        insert_record(s, x) == s.insert(j, x),
    decreases s.len(),
{
    if s.len() == 0 {
        assert(s.insert(j, x) =~= seq![x]);
    } else if j == s.len() {
        assert(s.insert(j, x) =~= s.push(x));
    } else {
        let t = s.drop_last();
        assert(!lex_le(sort_key(s[s.len() - 1]), sort_key(x)));
        assert forall|k: int| j <= k < t.len() implies !lex_le(sort_key(#[trigger] t[k]), sort_key(x)) by {
            assert(t[k] == s[k]);
        }
        lemma_insert_at(t, x, j);
        assert(t.insert(j, x).push(s.last()) =~= s.insert(j, x));
    }
}

/// The last record after an insertion is the inserted one or the old last.
proof fn lemma_insert_last(s: Seq<Record>, x: Record)
    ensures
        insert_record(s, x).len() == s.len() + 1,
        insert_record(s, x).last() == x || (s.len() > 0 && insert_record(s, x).last() == s.last()),
    decreases s.len(),
{
    if s.len() > 0 && !lex_le(sort_key(s.last()), sort_key(x)) {
        lemma_insert_last(s.drop_last(), x);
    }
}

/// Inserting into ascending records keeps them ascending.
proof fn lemma_insert_ascending(s: Seq<Record>, x: Record)
    requires
        keys_ascending(s),
    ensures
        keys_ascending(insert_record(s, x)),
    decreases s.len(),
{
    if s.len() > 0 {
        let t = s.drop_last();
        if lex_le(sort_key(s.last()), sort_key(x)) {
            let r = s.push(x);
            assert forall|k: int| 0 <= k < r.len() - 1 implies lex_le(sort_key(#[trigger] r[k]), sort_key(r[k + 1])) by {
                if k < s.len() - 1 {
                    assert(r[k] == s[k] && r[k + 1] == s[k + 1]);
                }
            }
        } else {
            assert(keys_ascending(t)) by {
                assert forall|k: int| 0 <= k < t.len() - 1 implies lex_le(sort_key(#[trigger] t[k]), sort_key(t[k + 1])) by {
                    assert(t[k] == s[k] && t[k + 1] == s[k + 1]);
                }
            }
            lemma_insert_ascending(t, x);
            lemma_insert_last(t, x);
            lemma_lex_le_total(sort_key(s.last()), sort_key(x));
            let u = insert_record(t, x);
            let r = u.push(s.last());
            if t.len() > 0 {
                assert(lex_le(sort_key(s[t.len() - 1]), sort_key(s[t.len() as int])));
            }
            assert forall|k: int| 0 <= k < r.len() - 1 implies lex_le(sort_key(#[trigger] r[k]), sort_key(r[k + 1])) by {
                if k < u.len() - 1 {
                    assert(r[k] == u[k] && r[k + 1] == u[k + 1]);
                } else {
                    assert(r[k] == u.last());
                }
            }
        }
    }
}

/// Inserting `x` adds it after the records that share its key.
proof fn lemma_insert_with_key(s: Seq<Record>, x: Record, key: Seq<char>)
    ensures
        with_key(insert_record(s, x), key) == if sort_key(x) == key {
            with_key(s, key).push(x)
        } else {
            with_key(s, key)
        },
    decreases s.len(),
{
    reveal(Seq::filter);
    let p = |r: Record| sort_key(r) == key;
    if s.len() == 0 {
        assert(seq![x].drop_last() =~= s);
    } else if lex_le(sort_key(s.last()), sort_key(x)) {
        assert(s.push(x).drop_last() =~= s);
    } else {
        let t = s.drop_last();
        lemma_insert_with_key(t, x, key);
        let u = insert_record(t, x);
        assert(u.push(s.last()).drop_last() =~= u);
        if sort_key(x) == key && sort_key(s.last()) == key {
            lemma_lex_le_reflexive(key);
        }
        assert(s.drop_last().push(s.last()) =~= s);
    }
}

/// Sorting keeps the number of records.
proof fn lemma_sort_len(s: Seq<Record>)
    ensures
        sort_records(s).len() == s.len(),
    decreases s.len(),
{
    if s.len() > 0 {
        lemma_sort_len(s.drop_last());
        lemma_insert_last(sort_records(s.drop_last()), s.last());
    }
}

/// The sorted records are in ascending order of their lower-cased contexts,
/// and the records that share a key keep the order they arrived in (so the
/// sorted records are a rearrangement of the input).
pub proof fn lemma_sort_ascending_and_stable(s: Seq<Record>)
    ensures
        sort_records(s).len() == s.len(),
        keys_ascending(sort_records(s)),
        forall|key: Seq<char>| #[trigger] with_key(sort_records(s), key) == with_key(s, key),
    decreases s.len(),
{
    lemma_sort_len(s);
    if s.len() > 0 {
        let t = s.drop_last();
        lemma_sort_ascending_and_stable(t);
        lemma_insert_ascending(sort_records(t), s.last());
        assert forall|key: Seq<char>| #[trigger] with_key(sort_records(s), key) == with_key(s, key) by {
            lemma_insert_with_key(sort_records(t), s.last(), key);
            reveal(Seq::filter);
        }
    } else {
        assert forall|key: Seq<char>| #[trigger] with_key(sort_records(s), key) == with_key(s, key) by {}
    }
}

/// Sorts records stably by their lower-cased context: records with equal
/// keys keep their relative order.
pub fn sort_by_context(records: &Vec<(String, String)>) -> (r: Vec<(String, String)>)
    ensures
        record_views(r@) == sort_records(record_views(records@)),
{
    let ghost input = record_views(records@);
    let mut out: Vec<(String, String)> = Vec::new();
    let mut keys: Vec<Vec<char>> = Vec::new();
    let mut i: usize = 0;
    while i < records.len()
        invariant
            i <= records.len(),
            input == record_views(records@),
            keys.len() == out.len(),
            forall|k: int| 0 <= k < keys.len() ==> (#[trigger] keys@[k])@ == sort_key(record_views(out@)[k]),
            record_views(out@) == sort_records(input.take(i as int)),
        decreases records.len() - i,
    {
        let rec = (records[i].0.clone(), records[i].1.clone());
        let low = lowercase(rec.1.as_str());
        let key = chars_of(low.as_str());
        let ghost cur = record_views(out@);
        let ghost x: Record = (rec.0@, rec.1@);
        let mut j: usize = out.len();
        while j > 0 && !key_le(&keys[j - 1], &key)
            invariant
                j <= out.len(),
                keys.len() == out.len(),
                cur == record_views(out@),
                key@ == sort_key(x),
                forall|k: int| 0 <= k < keys.len() ==> (#[trigger] keys@[k])@ == sort_key(cur[k]),
                forall|k: int| j <= k < cur.len() ==> !lex_le(sort_key(#[trigger] cur[k]), sort_key(x)),
            decreases j,
        {
            j = j - 1;
        }
        proof {
            assert(input.take(i as int + 1).drop_last() =~= input.take(i as int));
            assert(input[i as int] == x);
            lemma_insert_at(cur, x, j as int);
        }
        let ghost old_keys = keys@;
        out.insert(j, rec);
        keys.insert(j, key);
        proof {
            assert(record_views(out@) =~= cur.insert(j as int, x));
            assert forall|k: int| 0 <= k < keys.len() implies (#[trigger] keys@[k])@ == sort_key(record_views(out@)[k]) by {
                if k < j {
                    assert(keys@[k] == old_keys[k]);
                } else if k > j {
                    assert(keys@[k] == old_keys[k - 1]);
                }
            }
        }
        i = i + 1;
    }
    assert(input.take(records.len() as int) =~= input);
    out
}

} // verus!
