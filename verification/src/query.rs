//! The query filter engine: translates a [`GetFilter`] into predicates over
//! entry columns, orders each per-verb result set by timestamp descending,
//! applies `limit` and `offset` per verb, and merges.
//!
//! Pagination is applied per verb table, not globally: in the `all` fan-out
//! mode each verb's result is independently limited and offset before the
//! merge, and the merged result is then re-sorted by timestamp descending.

use vstd::prelude::*;
use crate::errors::MeError;
use crate::json::{json_field_of, json_field_str};
use crate::model::{entries_view, Entry, EntryView, FilterView, GetFilter, Verb};
use crate::text::{
    contains_sub, find_char_from, has_prefix, str_contains, str_eq, str_find_char, str_le,
    str_leq, str_starts_with,
};
use vstd::multiset::Multiset;
use vstd::string::StrSliceExecFns;

verus! {

/// The marker that selects substring matching for a field.
pub open spec fn like_prefix() -> Seq<char> {
    seq!['l', 'i', 'k', 'e', ':']
}

/// The marker that selects JSON-field matching for the value column.
pub open spec fn json_prefix() -> Seq<char> {
    seq!['j', 's', 'o', 'n', ':']
}

/// The name that selects the fan-out mode over every verb.
pub open spec fn all_selector() -> Seq<char> {
    seq!['a', 'l', 'l']
}

/// The key column matches: exactly, or as a substring under the
/// `like:` prefix.
pub open spec fn key_matches(k: Seq<char>, fk: Option<Seq<char>>) -> bool {
    match fk {
        None => true,
        Some(q) => if has_prefix(q, like_prefix()) {
            contains_sub(k, q.skip(5))
        } else {
            k == q
        },
    }
}

/// The query string asks for JSON-field equality: it carries the `json:`
/// prefix and a `=` after it.
pub open spec fn is_json_query(q: Seq<char>) -> bool {
    has_prefix(q, json_prefix()) && find_char_from(q, '=', 5) >= 0
}

/// The value column matches: by JSON-field equality under the `json:`
/// prefix, as a substring under the `like:` prefix, or exactly. Exactly one
/// mode applies, selected by the prefix.
pub open spec fn value_matches(v: Seq<char>, fv: Option<Seq<char>>) -> bool {
    match fv {
        None => true,
        Some(q) => if is_json_query(q) {
            let eq = find_char_from(q, '=', 5);
            json_field_of(v, q.subrange(5, eq)) == Some(q.skip(eq + 1))
        } else if has_prefix(q, like_prefix()) {
            contains_sub(v, q.skip(5))
        } else {
            v == q
        },
    }
}

/// The entry satisfies every predicate of the filter: context equality,
/// key and value matching, and the closed timestamp range.
pub open spec fn entry_matches(e: EntryView, f: FilterView) -> bool {
    &&& match f.context_id {
        None => true,
        Some(c) => e.context_id == c,
    }
    &&& key_matches(e.key, f.key)
    &&& value_matches(e.value, f.value)
    &&& match f.since {
        None => true,
        Some(s) => str_le(s, e.timestamp),
    }
    &&& match f.until {
        None => true,
        Some(u) => str_le(e.timestamp, u),
    }
}

/// Decides whether the entry satisfies the filter's column predicates.
pub fn entry_matches_exec(e: &Entry, f: &GetFilter) -> (r: bool)
    ensures
        r == entry_matches(e@, f@),
{
    proof {
        reveal_strlit("like:");
        reveal_strlit("json:");
        assert("like:"@ =~= like_prefix());
        assert("json:"@ =~= json_prefix());
    }
    match &f.context_id {
        Some(c) => {
            if !str_eq(e.context_id.as_str(), c.as_str()) {
                return false;
            }
        },
        None => {},
    }
    match &f.key {
        Some(q) => {
            let qs = q.as_str();
            if str_starts_with(qs, "like:") {
                let n = qs.unicode_len();
                let sub = qs.substring_char(5, n);
                proof {
                    assert(sub@ =~= q@.skip(5));
                }
                if !str_contains(e.key.as_str(), sub) {
                    return false;
                }
            } else {
                if !str_eq(e.key.as_str(), qs) {
                    return false;
                }
            }
        },
        None => {},
    }
    match &f.value {
        Some(q) => {
            let qs = q.as_str();
            let n = qs.unicode_len();
            let mut json_done = false;
            if str_starts_with(qs, "json:") {
                match str_find_char(qs, '=', 5) {
                    Some(eq) => {
                        let field = qs.substring_char(5, eq);
                        let want = qs.substring_char(eq + 1, n);
                        proof {
                            assert(field@ =~= q@.subrange(5, find_char_from(q@, '=', 5)));
                            assert(want@ =~= q@.skip(find_char_from(q@, '=', 5) + 1));
                        }
                        match json_field_str(e.value.as_str(), field) {
                            Some(got) => {
                                if !str_eq(got.as_str(), want) {
                                    return false;
                                }
                            },
                            None => {
                                return false;
                            },
                        }
                        json_done = true;
                    },
                    None => {},
                }
            }
            if !json_done {
                if str_starts_with(qs, "like:") {
                    let sub = qs.substring_char(5, n);
                    proof {
                        assert(sub@ =~= q@.skip(5));
                    }
                    if !str_contains(e.value.as_str(), sub) {
                        return false;
                    }
                } else {
                    if !str_eq(e.value.as_str(), qs) {
                        return false;
                    }
                }
            }
        },
        None => {},
    }
    match &f.since {
        Some(s) => {
            if !str_leq(s.as_str(), e.timestamp.as_str()) {
                return false;
            }
        },
        None => {},
    }
    match &f.until {
        Some(u) => {
            if !str_leq(e.timestamp.as_str(), u.as_str()) {
                return false;
            }
        },
        None => {},
    }
    true
}

/// `a`'s timestamp is at least `b`'s.
pub open spec fn ts_ge(a: EntryView, b: EntryView) -> bool {
    str_le(b.timestamp, a.timestamp)
}

/// The entries whose verb is `vb` and which satisfy the filter, in ledger
/// order.
pub open spec fn filter_entries(s: Seq<EntryView>, f: FilterView, vb: Verb) -> Seq<EntryView>
    decreases s.len(),
{
    if s.len() == 0 {
        Seq::empty()
    } else {
        let rest = filter_entries(s.drop_last(), f, vb);
        if s.last().verb == vb && entry_matches(s.last(), f) {
            rest.push(s.last())
        } else {
            rest
        }
    }
}

/// `e` placed into `s` after every entry whose timestamp is at least `e`'s.
pub open spec fn insert_desc(e: EntryView, s: Seq<EntryView>) -> Seq<EntryView>
    decreases s.len(),
{
    if s.len() == 0 {
        seq![e]
    } else if ts_ge(s[0], e) {
        seq![s[0]] + insert_desc(e, s.drop_first())
    } else {
        seq![e] + s
    }
}

/// Stable sort by timestamp descending: entries with equal timestamps keep
/// their relative order.
pub open spec fn sort_desc(s: Seq<EntryView>) -> Seq<EntryView>
    decreases s.len(),
{
    if s.len() == 0 {
        Seq::empty()
    } else {
        insert_desc(s.last(), sort_desc(s.drop_last()))
    }
}

/// Timestamps never increase along the sequence.
pub open spec fn sorted_desc(s: Seq<EntryView>) -> bool {
    forall|i: int, j: int| 0 <= i < j < s.len() ==> #[trigger] ts_ge(s[i], s[j])
}

/// How many entries of `s` satisfy `pred`.
pub open spec fn count_matching(s: Seq<EntryView>, pred: spec_fn(EntryView) -> bool) -> int
    decreases s.len(),
{
    if s.len() == 0 {
        0
    } else {
        count_matching(s.drop_last(), pred) + if pred(s.last()) {
            1int
        } else {
            0
        }
    }
}

pub proof fn lemma_insert_desc_len(e: EntryView, s: Seq<EntryView>)
    ensures
        insert_desc(e, s).len() == s.len() + 1,
    decreases s.len(),
{
    if s.len() > 0 && ts_ge(s[0], e) {
        lemma_insert_desc_len(e, s.drop_first());
    }
}

pub proof fn lemma_insert_desc_multiset(e: EntryView, s: Seq<EntryView>)
    ensures
        insert_desc(e, s).to_multiset() == s.to_multiset().insert(e),
    decreases s.len(),
{
    broadcast use vstd::seq_lib::group_to_multiset_ensures;

    if s.len() == 0 {
        assert(seq![e] =~= Seq::empty().push(e));
        assert(s.to_multiset() =~= Multiset::empty());
    } else if ts_ge(s[0], e) {
        lemma_insert_desc_multiset(e, s.drop_first());
        vstd::seq_lib::lemma_multiset_commutative(seq![s[0]], insert_desc(e, s.drop_first()));
        vstd::seq_lib::lemma_multiset_commutative(seq![s[0]], s.drop_first());
        assert(seq![s[0]] + s.drop_first() =~= s);
        assert(seq![s[0]].to_multiset() =~= Multiset::empty().insert(s[0]));
        assert(insert_desc(e, s).to_multiset() =~= s.to_multiset().insert(e));
    } else {
        vstd::seq_lib::lemma_multiset_commutative(seq![e], s);
        assert(seq![e].to_multiset() =~= Multiset::empty().insert(e));
        assert(insert_desc(e, s).to_multiset() =~= s.to_multiset().insert(e));
    }
}

pub proof fn lemma_insert_desc_sorted(e: EntryView, s: Seq<EntryView>)
    requires
        sorted_desc(s),
    ensures
        sorted_desc(insert_desc(e, s)),
    decreases s.len(),
{
    if s.len() == 0 {
    } else if ts_ge(s[0], e) {
        let rest = s.drop_first();
        assert(sorted_desc(rest)) by {
            assert forall|i: int, j: int| 0 <= i < j < rest.len() implies #[trigger] ts_ge(
                rest[i],
                rest[j],
            ) by {
                assert(ts_ge(s[i + 1], s[j + 1]));
            }
        }
        lemma_insert_desc_sorted(e, rest);
        let tail = insert_desc(e, rest);
        let r = seq![s[0]] + tail;
        lemma_insert_desc_len(e, rest);
        lemma_insert_desc_multiset(e, rest);
        broadcast use vstd::seq_lib::group_to_multiset_ensures;

        assert forall|i: int, j: int| 0 <= i < j < r.len() implies #[trigger] ts_ge(
            r[i],
            r[j],
        ) by {
            if i == 0 {
                let x = tail[j - 1];
                assert(tail.to_multiset().count(x) > 0);
                if x == e {
                    assert(ts_ge(s[0], e));
                } else {
                    assert(rest.to_multiset().count(x) > 0);
                    let k = choose|k: int| 0 <= k < rest.len() && rest[k] == x;
                    assert(ts_ge(s[0], s[k + 1]));
                }
            } else {
                assert(ts_ge(tail[i - 1], tail[j - 1]));
            }
        }
    } else {
        let r = seq![e] + s;
        crate::text::lemma_str_le_total(s[0].timestamp, e.timestamp);
        assert forall|i: int, j: int| 0 <= i < j < r.len() implies #[trigger] ts_ge(
            r[i],
            r[j],
        ) by {
            if i == 0 {
                if j == 1 {
                    assert(ts_ge(e, s[0]));
                } else {
                    assert(ts_ge(s[0], s[j - 1]));
                    crate::text::lemma_str_le_trans(
                        s[j - 1].timestamp,
                        s[0].timestamp,
                        e.timestamp,
                    );
                }
            } else {
                assert(ts_ge(s[i - 1], s[j - 1]));
            }
        }
    }
}

pub proof fn lemma_sort_desc_ensures(s: Seq<EntryView>)
    ensures
        sorted_desc(sort_desc(s)),
        sort_desc(s).to_multiset() == s.to_multiset(),
        sort_desc(s).len() == s.len(),
    decreases s.len(),
{
    broadcast use vstd::seq_lib::group_to_multiset_ensures;

    if s.len() > 0 {
        lemma_sort_desc_ensures(s.drop_last());
        lemma_insert_desc_sorted(s.last(), sort_desc(s.drop_last()));
        lemma_insert_desc_multiset(s.last(), sort_desc(s.drop_last()));
        lemma_insert_desc_len(s.last(), sort_desc(s.drop_last()));
        assert(s.drop_last().push(s.last()) =~= s);
    }
}

pub proof fn lemma_insert_desc_count(
    e: EntryView,
    s: Seq<EntryView>,
    pred: spec_fn(EntryView) -> bool,
)
    ensures
        count_matching(insert_desc(e, s), pred) == count_matching(s, pred) + if pred(e) {
            1int
        } else {
            0
        },
    decreases s.len(),
{
    if s.len() == 0 {
        assert(seq![e].drop_last() =~= Seq::<EntryView>::empty());
        assert(count_matching(seq![e].drop_last(), pred) == 0);
        assert(count_matching(seq![e], pred) == count_matching(seq![e].drop_last(), pred) + if pred(
            seq![e].last(),
        ) {
            1int
        } else {
            0
        });
    } else if ts_ge(s[0], e) {
        let rest = s.drop_first();
        lemma_insert_desc_count(e, rest, pred);
        lemma_count_push_front(s[0], insert_desc(e, rest), pred);
        lemma_count_push_front(s[0], rest, pred);
        assert(seq![s[0]] + rest =~= s);
    } else {
        lemma_count_push_front(e, s, pred);
    }
}

/// Counting over a sequence with one element put in front.
proof fn lemma_count_push_front(x: EntryView, s: Seq<EntryView>, pred: spec_fn(EntryView) -> bool)
    ensures
        count_matching(seq![x] + s, pred) == count_matching(s, pred) + if pred(x) {
            1int
        } else {
            0
        },
    decreases s.len(),
{
    let r = seq![x] + s;
    if s.len() == 0 {
        assert(r =~= seq![x]);
        assert(r.drop_last() =~= Seq::<EntryView>::empty());
        assert(count_matching(r.drop_last(), pred) == 0);
        assert(r.last() == x);
        assert(count_matching(r, pred) == count_matching(r.drop_last(), pred) + if pred(
            r.last(),
        ) {
            1int
        } else {
            0
        });
    } else {
        assert(r.drop_last() =~= seq![x] + s.drop_last());
        assert(r.last() == s.last());
        lemma_count_push_front(x, s.drop_last(), pred);
        assert(count_matching(r, pred) == count_matching(r.drop_last(), pred) + if pred(
            r.last(),
        ) {
            1int
        } else {
            0
        });
        assert(count_matching(s, pred) == count_matching(s.drop_last(), pred) + if pred(
            s.last(),
        ) {
            1int
        } else {
            0
        });
    }
}

pub proof fn lemma_sort_desc_count(s: Seq<EntryView>, pred: spec_fn(EntryView) -> bool)
    ensures
        count_matching(sort_desc(s), pred) == count_matching(s, pred),
    decreases s.len(),
{
    if s.len() > 0 {
        lemma_sort_desc_count(s.drop_last(), pred);
        lemma_insert_desc_count(s.last(), sort_desc(s.drop_last()), pred);
    }
}

/// The per-verb page limit: the filter's, or 100 when none is given.
pub open spec fn spec_limit(f: FilterView) -> int {
    match f.limit {
        Some(l) => l as int,
        None => 100,
    }
}

/// The per-verb page offset: the filter's, or 0 when none is given.
pub open spec fn spec_offset(f: FilterView) -> int {
    match f.offset {
        Some(o) => o as int,
        None => 0,
    }
}

/// The page of a sorted result: skip `off` entries, keep at most `lim`.
pub open spec fn page(s: Seq<EntryView>, off: int, lim: int) -> Seq<EntryView> {
    let a = if off > s.len() {
        s.len() as int
    } else {
        off
    };
    let b = if a + lim > s.len() {
        s.len() as int
    } else {
        a + lim
    };
    s.subrange(a, b)
}

/// One verb's result: its matching entries, newest first, paged.
pub open spec fn spec_get_verb(ledger: Seq<EntryView>, f: FilterView, vb: Verb) -> Seq<EntryView> {
    page(sort_desc(filter_entries(ledger, f, vb)), spec_offset(f), spec_limit(f))
}

/// The per-verb results of every verb in `vbs`, concatenated in order.
pub open spec fn gather(ledger: Seq<EntryView>, f: FilterView, vbs: Seq<Verb>) -> Seq<EntryView>
    decreases vbs.len(),
{
    if vbs.len() == 0 {
        Seq::empty()
    } else {
        spec_get_verb(ledger, f, vbs[0]) + gather(ledger, f, vbs.drop_first())
    }
}

/// The verbs a filter's verb name selects: every verb under the `all`
/// sentinel, one verb for its name, nothing for an unknown name.
pub open spec fn verb_selection(v: Seq<char>) -> Option<Seq<Verb>> {
    if v == all_selector() {
        Some(Verb::spec_all())
    } else {
        match Verb::spec_parse(v) {
            Some(vb) => Some(seq![vb]),
            None => None,
        }
    }
}

/// What a query returns: the merged per-verb pages, re-sorted newest first;
/// `None` for an unknown verb name.
pub open spec fn spec_get(ledger: Seq<EntryView>, f: FilterView) -> Option<Seq<EntryView>> {
    match verb_selection(f.verb) {
        None => None,
        Some(vbs) => Some(sort_desc(gather(ledger, f, vbs))),
    }
}

/// Entries kept by the per-verb filter carry that verb, satisfy the
/// filter, and come from the ledger.
pub proof fn lemma_filter_entries_sub(s: Seq<EntryView>, f: FilterView, vb: Verb)
    ensures
        forall|x: EntryView|
            #[trigger] filter_entries(s, f, vb).contains(x) ==> s.contains(x) && x.verb == vb
                && entry_matches(x, f),
    decreases s.len(),
{
    if s.len() > 0 {
        lemma_filter_entries_sub(s.drop_last(), f, vb);
        assert forall|x: EntryView| #[trigger]
            filter_entries(s, f, vb).contains(x) implies s.contains(x) && x.verb == vb
            && entry_matches(x, f) by {
            let kept = filter_entries(s, f, vb);
            let rest = filter_entries(s.drop_last(), f, vb);
            if s.last().verb == vb && entry_matches(s.last(), f) {
                let i = choose|i: int| 0 <= i < kept.len() && kept[i] == x;
                if i < kept.len() - 1 {
                    assert(rest.contains(x));
                    let j = choose|j: int| 0 <= j < rest.len() && rest[j] == x;
                    assert(s.drop_last()[choose|k: int|
                        0 <= k < s.drop_last().len() && s.drop_last()[k] == x] == x);
                    assert(s.contains(x)) by {
                        let k = choose|k: int|
                            0 <= k < s.drop_last().len() && s.drop_last()[k] == x;
                        assert(s[k] == x);
                    }
                } else {
                    assert(x == s.last());
                    assert(s[s.len() - 1] == x);
                }
            } else {
                assert(rest.contains(x));
                let k = choose|k: int| 0 <= k < s.drop_last().len() && s.drop_last()[k] == x;
                assert(s[k] == x);
            }
        }
    }
}

/// Every entry a query returns satisfies the filter's predicates and is an
/// entry of the ledger: the engine invents nothing and filters correctly.
pub proof fn lemma_get_entries_match(ledger: Seq<EntryView>, f: FilterView, i: int)
    requires
        spec_get(ledger, f) is Some,
        0 <= i < spec_get(ledger, f)->Some_0.len(),
    ensures
        entry_matches(spec_get(ledger, f)->Some_0[i], f),
        ledger.contains(spec_get(ledger, f)->Some_0[i]),
{
    broadcast use vstd::seq_lib::group_to_multiset_ensures;

    let vbs = verb_selection(f.verb)->Some_0;
    let out = spec_get(ledger, f)->Some_0;
    let x = out[i];
    lemma_sort_desc_ensures(gather(ledger, f, vbs));
    assert(out.contains(x));
    assert(gather(ledger, f, vbs).contains(x)) by {
        assert(out.to_multiset().count(x) > 0);
    }
    lemma_gather_sub(ledger, f, vbs);
}

/// Entries gathered across verbs satisfy the filter and come from the
/// ledger.
proof fn lemma_gather_sub(ledger: Seq<EntryView>, f: FilterView, vbs: Seq<Verb>)
    ensures
        forall|x: EntryView|
            #[trigger] gather(ledger, f, vbs).contains(x) ==> ledger.contains(x) && entry_matches(
                x,
                f,
            ),
    decreases vbs.len(),
{
    broadcast use vstd::seq_lib::group_to_multiset_ensures;

    if vbs.len() > 0 {
        lemma_gather_sub(ledger, f, vbs.drop_first());
        let vb = vbs[0];
        let filtered = filter_entries(ledger, f, vb);
        let sorted = sort_desc(filtered);
        let pg = spec_get_verb(ledger, f, vb);
        lemma_sort_desc_ensures(filtered);
        lemma_filter_entries_sub(ledger, f, vb);
        assert forall|x: EntryView| #[trigger]
            gather(ledger, f, vbs).contains(x) implies ledger.contains(x) && entry_matches(
            x,
            f,
        ) by {
            let whole = gather(ledger, f, vbs);
            let k = choose|k: int| 0 <= k < whole.len() && whole[k] == x;
            if k < pg.len() {
                assert(pg[k] == x);
                assert(sorted.contains(x)) by {
                    let a = if spec_offset(f) > sorted.len() {
                        sorted.len() as int
                    } else {
                        spec_offset(f)
                    };
                    assert(sorted[a + k] == x);
                }
                assert(filtered.contains(x)) by {
                    assert(sorted.to_multiset().count(x) > 0);
                }
            } else {
                assert(gather(ledger, f, vbs.drop_first())[k - pg.len()] == x);
                assert(gather(ledger, f, vbs.drop_first()).contains(x));
            }
        }
    }
}

/// The ledger is append-only under queries: after one entry is appended,
/// a query for its verb and context returns exactly what it returned
/// before, plus that one entry — no prior entry is altered or lost — and
/// the count of entries carrying the new entry's key and value grows by
/// exactly one. Stated below the page limit, where no truncation occurs.
pub proof fn lemma_ledger_append_only(ledger: Seq<EntryView>, e: EntryView, f: FilterView)
    requires
        verb_selection(f.verb) == Some(seq![e.verb]),
        f.context_id == Some(e.context_id),
        f.key is None,
        f.value is None,
        f.since is None,
        f.until is None,
        f.offset is None,
        filter_entries(ledger, f, e.verb).len() + 1 <= spec_limit(f),
    ensures
        spec_get(ledger, f) is Some,
        spec_get(ledger.push(e), f) is Some,
        spec_get(ledger.push(e), f)->Some_0.to_multiset() == spec_get(
            ledger,
            f,
        )->Some_0.to_multiset().insert(e),
        count_matching(
            spec_get(ledger.push(e), f)->Some_0,
            |x: EntryView| x.key == e.key && x.value == e.value,
        ) == count_matching(
            spec_get(ledger, f)->Some_0,
            |x: EntryView| x.key == e.key && x.value == e.value,
        ) + 1,
{
    broadcast use vstd::seq_lib::group_to_multiset_ensures;

    let vb = e.verb;
    let pred = |x: EntryView| x.key == e.key && x.value == e.value;
    let old_filtered = filter_entries(ledger, f, vb);
    let new_filtered = filter_entries(ledger.push(e), f, vb);
    assert(entry_matches(e, f));
    assert(new_filtered == old_filtered.push(e)) by {
        assert(ledger.push(e).drop_last() =~= ledger);
        assert(ledger.push(e).last() == e);
    }
    lemma_sort_desc_ensures(old_filtered);
    lemma_sort_desc_ensures(new_filtered);
    lemma_sort_desc_count(old_filtered, pred);
    lemma_sort_desc_count(new_filtered, pred);
    assert(count_matching(new_filtered, pred) == count_matching(old_filtered, pred) + 1) by {
        assert(new_filtered.drop_last() =~= old_filtered);
        assert(pred(e));
    }
    let old_page = spec_get_verb(ledger, f, vb);
    let new_page = spec_get_verb(ledger.push(e), f, vb);
    assert(old_page =~= sort_desc(old_filtered));
    assert(new_page =~= sort_desc(new_filtered));
    assert(gather(ledger, f, seq![vb]) =~= old_page) by {
        assert(seq![vb].drop_first() =~= Seq::<Verb>::empty());
        assert(gather(ledger, f, Seq::<Verb>::empty()) =~= Seq::<EntryView>::empty());
        assert(seq![vb][0] == vb);
        assert(gather(ledger, f, seq![vb]) =~= spec_get_verb(ledger, f, vb) + gather(
            ledger,
            f,
            Seq::<Verb>::empty(),
        ));
    }
    assert(gather(ledger.push(e), f, seq![vb]) =~= new_page) by {
        assert(seq![vb].drop_first() =~= Seq::<Verb>::empty());
        assert(gather(ledger.push(e), f, Seq::<Verb>::empty()) =~= Seq::<EntryView>::empty());
        assert(seq![vb][0] == vb);
        assert(gather(ledger.push(e), f, seq![vb]) =~= spec_get_verb(ledger.push(e), f, vb)
            + gather(ledger.push(e), f, Seq::<Verb>::empty()));
    }
    let old_out = spec_get(ledger, f)->Some_0;
    let new_out = spec_get(ledger.push(e), f)->Some_0;
    lemma_sort_desc_ensures(old_page);
    lemma_sort_desc_ensures(new_page);
    lemma_sort_desc_count(old_page, pred);
    lemma_sort_desc_count(new_page, pred);
    assert(new_out.to_multiset() =~= old_out.to_multiset().insert(e)) by {
        assert(new_page.to_multiset() =~= sort_desc(new_filtered).to_multiset());
        assert(new_filtered.to_multiset() =~= old_filtered.to_multiset().insert(e));
    }
    assert(count_matching(sort_desc(old_page), pred) == count_matching(old_filtered, pred));
    assert(count_matching(sort_desc(new_page), pred) == count_matching(new_filtered, pred));
}

/// Filters that agree on every predicate keep the same entries; only the
/// page they cut differs.
proof fn lemma_filter_entries_same(s: Seq<EntryView>, f1: FilterView, f2: FilterView, vb: Verb)
    requires
        f1.context_id == f2.context_id,
        f1.key == f2.key,
        f1.value == f2.value,
        f1.since == f2.since,
        f1.until == f2.until,
    ensures
        filter_entries(s, f1, vb) == filter_entries(s, f2, vb),
    decreases s.len(),
{
    if s.len() > 0 {
        lemma_filter_entries_same(s.drop_last(), f1, f2, vb);
        assert(entry_matches(s.last(), f1) == entry_matches(s.last(), f2));
    }
}

/// A ledger without duplicate entries filters to a result without
/// duplicate entries.
proof fn lemma_filter_entries_nodup(s: Seq<EntryView>, f: FilterView, vb: Verb)
    requires
        s.no_duplicates(),
    ensures
        filter_entries(s, f, vb).no_duplicates(),
    decreases s.len(),
{
    if s.len() > 0 {
        let prefix = s.drop_last();
        assert(prefix.no_duplicates());
        lemma_filter_entries_nodup(prefix, f, vb);
        let rest = filter_entries(prefix, f, vb);
        if s.last().verb == vb && entry_matches(s.last(), f) {
            assert(!rest.contains(s.last())) by {
                if rest.contains(s.last()) {
                    lemma_filter_entries_sub(prefix, f, vb);
                    let k = choose|k: int| 0 <= k < prefix.len() && prefix[k] == s.last();
                    assert(s[k] == s[s.len() - 1]);
                }
            }
            assert(rest.push(s.last()).no_duplicates());
        }
    }
}

/// Two pages of one query never overlap: with the same predicates, a page
/// that begins at or after another one's end shares no entry with it, as
/// long as the ledger holds no two wholly identical entries.
pub proof fn lemma_pagination_disjoint(
    ledger: Seq<EntryView>,
    f1: FilterView,
    f2: FilterView,
    vb: Verb,
)
    requires
        verb_selection(f1.verb) == Some(seq![vb]),
        f1.verb == f2.verb,
        f1.context_id == f2.context_id,
        f1.key == f2.key,
        f1.value == f2.value,
        f1.since == f2.since,
        f1.until == f2.until,
        spec_offset(f1) + spec_limit(f1) <= spec_offset(f2),
        ledger.no_duplicates(),
    ensures
        spec_get(ledger, f1) is Some,
        spec_get(ledger, f2) is Some,
        forall|x: EntryView|
            #[trigger] spec_get(ledger, f1)->Some_0.contains(x) ==> !spec_get(
                ledger,
                f2,
            )->Some_0.contains(x),
{
    broadcast use vstd::seq_lib::group_to_multiset_ensures;

    lemma_filter_entries_same(ledger, f1, f2, vb);
    let filtered = filter_entries(ledger, f1, vb);
    lemma_filter_entries_nodup(ledger, f1, vb);
    let sorted = sort_desc(filtered);
    lemma_sort_desc_ensures(filtered);
    filtered.lemma_multiset_has_no_duplicates();
    sorted.lemma_multiset_has_no_duplicates_conv();
    let pg1 = spec_get_verb(ledger, f1, vb);
    let pg2 = spec_get_verb(ledger, f2, vb);
    let a1 = if spec_offset(f1) > sorted.len() {
        sorted.len() as int
    } else {
        spec_offset(f1)
    };
    let b1 = if a1 + spec_limit(f1) > sorted.len() {
        sorted.len() as int
    } else {
        a1 + spec_limit(f1)
    };
    let a2 = if spec_offset(f2) > sorted.len() {
        sorted.len() as int
    } else {
        spec_offset(f2)
    };
    assert(b1 <= a2);
    assert(gather(ledger, f1, seq![vb]) =~= pg1) by {
        assert(seq![vb].drop_first() =~= Seq::<Verb>::empty());
        assert(gather(ledger, f1, Seq::<Verb>::empty()) =~= Seq::<EntryView>::empty());
        assert(seq![vb][0] == vb);
        assert(gather(ledger, f1, seq![vb]) =~= spec_get_verb(ledger, f1, vb) + gather(
            ledger,
            f1,
            Seq::<Verb>::empty(),
        ));
    }
    assert(gather(ledger, f2, seq![vb]) =~= pg2) by {
        assert(seq![vb].drop_first() =~= Seq::<Verb>::empty());
        assert(gather(ledger, f2, Seq::<Verb>::empty()) =~= Seq::<EntryView>::empty());
        assert(seq![vb][0] == vb);
        assert(gather(ledger, f2, seq![vb]) =~= spec_get_verb(ledger, f2, vb) + gather(
            ledger,
            f2,
            Seq::<Verb>::empty(),
        ));
    }
    let out1 = spec_get(ledger, f1)->Some_0;
    let out2 = spec_get(ledger, f2)->Some_0;
    lemma_sort_desc_ensures(pg1);
    lemma_sort_desc_ensures(pg2);
    assert forall|x: EntryView| #[trigger] out1.contains(x) implies !out2.contains(x) by {
        if out2.contains(x) {
            assert(pg1.contains(x)) by {
                assert(out1.to_multiset().count(x) > 0);
            }
            assert(pg2.contains(x)) by {
                assert(out2.to_multiset().count(x) > 0);
            }
            let i1 = choose|i: int| 0 <= i < pg1.len() && pg1[i] == x;
            let i2 = choose|i: int| 0 <= i < pg2.len() && pg2[i] == x;
            assert(sorted[a1 + i1] == x);
            assert(sorted[a2 + i2] == x);
            assert(a1 + i1 < b1);
            assert(a2 + i2 >= a2);
            assert(sorted[a1 + i1] != sorted[a2 + i2]);
        }
    }
}

/// Every query result is ordered by timestamp descending.
pub proof fn lemma_get_sorted(ledger: Seq<EntryView>, f: FilterView)
    requires
        spec_get(ledger, f) is Some,
    ensures
        sorted_desc(spec_get(ledger, f)->Some_0),
{
    let vbs = verb_selection(f.verb)->Some_0;
    lemma_sort_desc_ensures(gather(ledger, f, vbs));
}

/// `insert_desc` places the new entry exactly at the first position whose
/// timestamp is below the new entry's.
pub proof fn lemma_insert_desc_at(e: EntryView, s: Seq<EntryView>, j: int)
    requires
        0 <= j <= s.len(),
        forall|k: int| 0 <= k < j ==> ts_ge(#[trigger] s[k], e),
        j < s.len() ==> !ts_ge(s[j], e),
    ensures
        insert_desc(e, s) == s.insert(j, e),
    decreases s.len(),
{
    if s.len() == 0 {
        assert(s.insert(0, e) =~= seq![e]);
    } else if j == 0 {
        assert(s.insert(0, e) =~= seq![e] + s);
    } else {
        let rest = s.drop_first();
        assert(ts_ge(s[0], e));
        assert forall|k: int| 0 <= k < j - 1 implies ts_ge(#[trigger] rest[k], e) by {
            assert(ts_ge(s[k + 1], e));
        }
        lemma_insert_desc_at(e, rest, j - 1);
        assert(seq![s[0]] + rest.insert(j - 1, e) =~= s.insert(j, e));
    }
}

/// Appending one more verb appends its page to the gathered result.
pub proof fn lemma_gather_snoc(ledger: Seq<EntryView>, f: FilterView, vbs: Seq<Verb>, vb: Verb)
    ensures
        gather(ledger, f, vbs.push(vb)) == gather(ledger, f, vbs) + spec_get_verb(ledger, f, vb),
    decreases vbs.len(),
{
    let ext = vbs.push(vb);
    if vbs.len() == 0 {
        assert(ext.drop_first() =~= Seq::<Verb>::empty());
        assert(gather(ledger, f, ext.drop_first()) =~= Seq::<EntryView>::empty());
        assert(gather(ledger, f, ext) =~= spec_get_verb(ledger, f, vb));
        assert(gather(ledger, f, vbs) =~= Seq::<EntryView>::empty());
        assert(gather(ledger, f, vbs) + spec_get_verb(ledger, f, vb) =~= spec_get_verb(
            ledger,
            f,
            vb,
        ));
    } else {
        assert(ext.drop_first() =~= vbs.drop_first().push(vb));
        lemma_gather_snoc(ledger, f, vbs.drop_first(), vb);
        assert(gather(ledger, f, ext) =~= gather(ledger, f, vbs) + spec_get_verb(ledger, f, vb));
    }
}

/// The entries of one verb that satisfy the filter, in ledger order.
fn collect_verb(entries: &Vec<Entry>, f: &GetFilter, vb: Verb) -> (r: Vec<Entry>)
    ensures
        entries_view(r@) == filter_entries(entries_view(entries@), f@, vb),
{
    let mut r: Vec<Entry> = Vec::new();
    let n = entries.len();
    let mut i: usize = 0;
    while i < n
        invariant
            0 <= i <= n,
            n == entries@.len(),
            entries_view(r@) == filter_entries(entries_view(entries@.take(i as int)), f@, vb),
        decreases n - i,
    {
        let ghost pre = entries_view(entries@.take(i as int));
        let ghost post = entries_view(entries@.take(i + 1));
        proof {
            assert(post.drop_last() =~= pre);
            assert(post.last() == entries@[i as int]@);
        }
        let e = &entries[i];
        if e.verb == vb && entry_matches_exec(e, f) {
            let ghost old_r = entries_view(r@);
            r.push(e.duplicate());
            proof {
                assert(entries_view(r@) =~= old_r.push(entries@[i as int]@));
            }
        }
        i = i + 1;
    }
    proof {
        assert(entries@.take(n as int) =~= entries@);
    }
    r
}

/// Sorts entries by timestamp descending; entries with equal timestamps
/// keep their relative order.
pub fn sort_entries_desc(entries: &Vec<Entry>) -> (r: Vec<Entry>)
    ensures
        entries_view(r@) == sort_desc(entries_view(entries@)),
{
    let mut out: Vec<Entry> = Vec::new();
    let n = entries.len();
    let mut i: usize = 0;
    while i < n
        invariant
            0 <= i <= n,
            n == entries@.len(),
            entries_view(out@) == sort_desc(entries_view(entries@.take(i as int))),
        decreases n - i,
    {
        let e = &entries[i];
        let mut j: usize = 0;
        while j < out.len() && str_leq(e.timestamp.as_str(), out[j].timestamp.as_str())
            invariant
                0 <= j <= out@.len(),
                e == &entries[i as int],
                forall|k: int| 0 <= k < j ==> ts_ge(#[trigger] entries_view(out@)[k], e@),
            decreases out@.len() - j,
        {
            j = j + 1;
        }
        let ghost sorted_pre = entries_view(out@);
        proof {
            lemma_insert_desc_at(e@, sorted_pre, j as int);
        }
        out.insert(j, e.duplicate());
        proof {
            assert(entries_view(out@) =~= sorted_pre.insert(j as int, entries@[i as int]@));
            let pre = entries_view(entries@.take(i as int));
            let post = entries_view(entries@.take(i + 1));
            assert(post.drop_last() =~= pre);
            assert(post.last() == entries@[i as int]@);
        }
        i = i + 1;
    }
    proof {
        assert(entries@.take(n as int) =~= entries@);
    }
    out
}

/// Keeps the page `off..off+lim` of a result, clipped to its length.
fn page_entries(entries: &Vec<Entry>, off: usize, lim: usize) -> (r: Vec<Entry>)
    ensures
        entries_view(r@) == page(entries_view(entries@), off as int, lim as int),
{
    let n = entries.len();
    let a = if off > n {
        n
    } else {
        off
    };
    let b = if lim > n - a {
        n
    } else {
        a + lim
    };
    let mut r: Vec<Entry> = Vec::new();
    let mut i: usize = a;
    while i < b
        invariant
            a <= i <= b,
            b <= n,
            n == entries@.len(),
            entries_view(r@) == entries_view(entries@).subrange(a as int, i as int),
        decreases b - i,
    {
        let ghost old_r = entries_view(r@);
        r.push(entries[i].duplicate());
        proof {
            assert(entries_view(entries@).subrange(a as int, i + 1) =~= entries_view(
                entries@,
            ).subrange(a as int, i as int).push(entries_view(entries@)[i as int]));
            assert(entries_view(r@) =~= old_r.push(entries@[i as int]@));
        }
        i = i + 1;
    }
    r
}

/// Runs a query over an in-memory ledger: resolves the verb set, filters,
/// orders each per-verb set newest first, pages it, merges, and re-sorts.
/// Fails with a validation error exactly on an unknown verb name.
pub fn apply_filter(entries: &Vec<Entry>, f: &GetFilter) -> (r: Result<Vec<Entry>, MeError>)
    ensures
        match r {
            Ok(out) => spec_get(entries_view(entries@), f@) == Some(entries_view(out@)),
            Err(e) => spec_get(entries_view(entries@), f@) is None && e == MeError::Validation,
        },
{
    proof {
        reveal_strlit("all");
        assert("all"@ =~= all_selector());
    }
    let vbs: Vec<Verb>;
    if str_eq(f.verb.as_str(), "all") {
        vbs = Verb::all();
    } else {
        match Verb::parse(f.verb.as_str()) {
            Some(vb) => {
                let mut one: Vec<Verb> = Vec::new();
                one.push(vb);
                proof {
                    assert(one@ =~= seq![vb]);
                }
                vbs = one;
            },
            None => {
                return Err(MeError::Validation);
            },
        }
    }
    assert(verb_selection(f@.verb) == Some(vbs@));
    let lim: usize = match f.limit {
        Some(l) => l,
        None => 100,
    };
    let off: usize = match f.offset {
        Some(o) => o,
        None => 0,
    };
    let ghost ledger = entries_view(entries@);
    let mut acc: Vec<Entry> = Vec::new();
    let nv = vbs.len();
    let mut i: usize = 0;
    while i < nv
        invariant
            0 <= i <= nv,
            nv == vbs@.len(),
            lim as int == spec_limit(f@),
            off as int == spec_offset(f@),
            ledger == entries_view(entries@),
            entries_view(acc@) == gather(ledger, f@, vbs@.take(i as int)),
        decreases nv - i,
    {
        let c = collect_verb(entries, f, vbs[i]);
        let s = sort_entries_desc(&c);
        let mut p = page_entries(&s, off, lim);
        let ghost acc_pre = entries_view(acc@);
        let ghost page_i = entries_view(p@);
        acc.append(&mut p);
        proof {
            assert(page_i == spec_get_verb(ledger, f@, vbs@[i as int]));
            assert(entries_view(acc@) =~= acc_pre + page_i);
            lemma_gather_snoc(ledger, f@, vbs@.take(i as int), vbs@[i as int]);
            assert(vbs@.take(i + 1) =~= vbs@.take(i as int).push(vbs@[i as int]));
        }
        i = i + 1;
    }
    proof {
        assert(vbs@.take(nv as int) =~= vbs@);
    }
    let out = sort_entries_desc(&acc);
    Ok(out)
}

} // verus!

