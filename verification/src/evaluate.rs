//! The predicate evaluator: which entries pass a list of predicates, and
//! the order in which they come out.

use crate::database::{Entry, Identifier};
use crate::date::{date_lt, date_of_timestamp, timestamp_day, Date};
use crate::search::{pair_views, SearchToken, Token, TokenView};
use crate::text::{
    chars_of, contains_chars, contains_run, lowercase, lowercase_of, matches_at, number_of,
    occurs_at, parse_number, same_chars,
};
use vstd::prelude::*;

verus! {

/// Whether a day passes a date keyword: strictly earlier for `before:`, the
/// same day for `during:`, strictly later for `after:`. A day that the
/// calendar cannot represent passes none.
pub open spec fn day_satisfies(op: TokenView, day: Option<Date>, operand: Date) -> bool {
    match day {
        Some(d) => match op {
            TokenView::Before => date_lt(d, operand),
            TokenView::During => d == operand,
            TokenView::After => date_lt(operand, d),
            _ => false,
        },
        None => false,
    }
}

/// Whether the entry passes the predicate `(op, operand)`.
///
/// Text is compared in lower case. Dates look at the day the entry was
/// created. An operand of the wrong variant passes nothing.
pub open spec fn satisfies(e: Entry, op: TokenView, operand: TokenView) -> bool {
    match (op, operand) {
        (TokenView::Favorite, TokenView::Boolean(b)) => e.favorite == b,
        (TokenView::Contains, TokenView::String(s)) => contains_run(
            lowercase(e.content@),
            lowercase(s),
        ),
        (TokenView::InTitle, TokenView::String(s)) => contains_run(
            lowercase(e.title@),
            lowercase(s),
        ),
        (TokenView::StartsWith, TokenView::String(s)) => occurs_at(
            lowercase(e.title@),
            lowercase(s),
            0,
        ),
        (TokenView::Before, TokenView::Date(d)) => day_satisfies(
            op,
            timestamp_day(e.created_at),
            d,
        ),
        (TokenView::During, TokenView::Date(d)) => day_satisfies(
            op,
            timestamp_day(e.created_at),
            d,
        ),
        (TokenView::After, TokenView::Date(d)) => day_satisfies(
            op,
            timestamp_day(e.created_at),
            d,
        ),
        (TokenView::ID, TokenView::String(s)) => match e.identifier {
            Identifier::Row(n) => number_of(s) == Some(n as int),
            Identifier::File(p) => p@ == s,
        },
        _ => false,
    }
}

/// Whether the entry passes every predicate of the list.
pub open spec fn satisfies_all(e: Entry, predicates: Seq<(TokenView, TokenView)>) -> bool {
    forall|i: int| 0 <= i < predicates.len() ==> satisfies(e, predicates[i].0, predicates[i].1)
}

/// Applies a date keyword to the day of an entry.
pub fn day_passes(op: &SearchToken, day: Option<Date>, operand: &Date) -> (r: bool)
    ensures
        r == day_satisfies(op@, day, *operand),
{
    match day {
        Some(d) => match op {
            SearchToken::Before => d.is_before(operand),
            SearchToken::During => d.is_same_day(operand),
            SearchToken::After => operand.is_before(&d),
            _ => false,
        },
        None => false,
    }
}

/// Whether the text given for `id:` names the identifier.
pub fn identifier_is(identifier: &Identifier, text: &str) -> (r: bool)
    ensures
        r == match *identifier {
            Identifier::Row(n) => number_of(text@) == Some(n as int),
            Identifier::File(p) => p@ == text@,
        },
{
    let chars = chars_of(text);
    proof {
        assert(chars@.subrange(0, chars@.len() as int) =~= text@);
    }
    match identifier {
        Identifier::Row(n) => match parse_number(&chars, 0, chars.len()) {
            Some(m) => m == *n,
            None => false,
        },
        Identifier::File(p) => {
            let path = chars_of(p.as_str());
            same_chars(&path, &chars)
        },
    }
}

/// Whether the entry passes one predicate.
pub fn entry_satisfies(e: &Entry, op: &SearchToken, operand: &SearchToken) -> (r: bool)
    ensures
        r == satisfies(*e, op@, operand@),
{
    match (op, operand) {
        (SearchToken::Favorite, SearchToken::Boolean(b)) => e.favorite == *b,
        (SearchToken::Contains, SearchToken::String(s)) => {
            let hay = chars_of(lowercase_of(e.content.as_str()).as_str());
            let needle = chars_of(lowercase_of(s.as_str()).as_str());
            contains_chars(&hay, &needle)
        },
        (SearchToken::InTitle, SearchToken::String(s)) => {
            let hay = chars_of(lowercase_of(e.title.as_str()).as_str());
            let needle = chars_of(lowercase_of(s.as_str()).as_str());
            contains_chars(&hay, &needle)
        },
        (SearchToken::StartsWith, SearchToken::String(s)) => {
            let hay = chars_of(lowercase_of(e.title.as_str()).as_str());
            let needle = chars_of(lowercase_of(s.as_str()).as_str());
            matches_at(&hay, &needle, 0)
        },
        (SearchToken::Before, SearchToken::Date(d)) => day_passes(
            op,
            date_of_timestamp(e.created_at),
            d,
        ),
        (SearchToken::During, SearchToken::Date(d)) => day_passes(
            op,
            date_of_timestamp(e.created_at),
            d,
        ),
        (SearchToken::After, SearchToken::Date(d)) => day_passes(
            op,
            date_of_timestamp(e.created_at),
            d,
        ),
        (SearchToken::ID, SearchToken::String(s)) => identifier_is(&e.identifier, s.as_str()),
        _ => false,
    }
}

/// Whether the entry passes every predicate of the list.
pub fn entry_satisfies_all(e: &Entry, predicates: &Vec<(Token, Token)>) -> (r: bool)
    ensures
        r == satisfies_all(*e, pair_views(predicates@)),
{
    let mut i: usize = 0;
    while i < predicates.len()
        invariant
            0 <= i <= predicates@.len(),
            forall|k: int|
                0 <= k < i ==> satisfies(
                    *e,
                    #[trigger] pair_views(predicates@)[k].0,
                    pair_views(predicates@)[k].1,
                ),
        decreases predicates@.len() - i,
    {
        if !entry_satisfies(e, &predicates[i].0.content, &predicates[i].1.content) {
            proof {
                let pv = pair_views(predicates@);
                assert(!satisfies(*e, pv[i as int].0, pv[i as int].1));
            }
            return false;
        }
        i += 1;
    }
    true
}

/// The test "was created at second `t`".
pub open spec fn created_on(t: u64) -> spec_fn(Entry) -> bool {
    |e: Entry| e.created_at == t
}

/// The test "passes every predicate of the list".
pub open spec fn passing(predicates: Seq<(TokenView, TokenView)>) -> spec_fn(Entry) -> bool {
    |e: Entry| satisfies_all(e, predicates)
}

/// Creation times never go down along the sequence.
pub open spec fn in_time_order(s: Seq<Entry>) -> bool {
    forall|i: int, j: int| 0 <= i < j < s.len() ==> s[i].created_at <= s[j].created_at
}

/// `sorted` is `source` put in ascending order of creation time, entries of
/// one and the same time keeping the order they have in `source`.
pub open spec fn is_stable_sort_of(sorted: Seq<Entry>, source: Seq<Entry>) -> bool {
    &&& in_time_order(sorted)
    &&& sorted.len() == source.len()
    &&& forall|t: u64| #[trigger] sorted.filter(created_on(t)) == source.filter(created_on(t))
}

/// A test that no entry passes filters everything out.
proof fn lemma_filter_none(s: Seq<Entry>, f: spec_fn(Entry) -> bool)
    requires
        forall|i: int| 0 <= i < s.len() ==> !f(#[trigger] s[i]),
    ensures
        s.filter(f) == Seq::<Entry>::empty(),
    decreases s.len(),
{
    reveal(Seq::filter);
    if s.len() > 0 {
        assert forall|i: int| 0 <= i < s.drop_last().len() implies !f(
            #[trigger] s.drop_last()[i],
        ) by {
            assert(s.drop_last()[i] == s[i]);
        }
        lemma_filter_none(s.drop_last(), f);
    }
}

/// Putting an entry in after the earlier ones and in front of the rest keeps
/// the time order.
proof fn lemma_insert_keeps_order(before: Seq<Entry>, p: int, e: Entry)
    requires
        in_time_order(before),
        0 <= p <= before.len(),
        forall|k: int| 0 <= k < p ==> (#[trigger] before[k]).created_at < e.created_at,
        p < before.len() ==> before[p].created_at >= e.created_at,
    ensures
        in_time_order(before.insert(p, e)),
{
    let after = before.insert(p, e);
    assert forall|i: int, j: int| 0 <= i < j < after.len() implies after[i].created_at
        <= after[j].created_at by {
        if j < p {
            assert(after[i] == before[i] && after[j] == before[j]);
        } else if j == p {
            assert(after[i] == before[i]);
        } else if i < p {
            assert(after[i] == before[i] && after[j] == before[j - 1]);
        } else if i == p {
            assert(after[j] == before[j - 1]);
            if p < j - 1 {
                assert(before[p].created_at <= before[j - 1].created_at);
            }
        } else {
            assert(after[i] == before[i - 1] && after[j] == before[j - 1]);
        }
    }
}

/// Among the entries of any one time, an entry put in after the earlier
/// entries stands in front of those that were there.
proof fn lemma_insert_filter(before: Seq<Entry>, p: int, e: Entry, t: u64)
    requires
        0 <= p <= before.len(),
        forall|k: int| 0 <= k < p ==> (#[trigger] before[k]).created_at < e.created_at,
    ensures
        before.insert(p, e).filter(created_on(t)) == (seq![e] + before).filter(created_on(t)),
{
    let f = created_on(t);
    let head = before.subrange(0, p);
    let tail = before.subrange(p, before.len() as int);
    assert(before.insert(p, e) =~= head.push(e) + tail);
    assert(before =~= head + tail);
    Seq::filter_distributes_over_add(head.push(e), tail, f);
    Seq::filter_distributes_over_add(head, tail, f);
    head.lemma_filter_push(e, f);
    before.lemma_filter_prepend(e, f);
    if f(e) {
        assert forall|i: int| 0 <= i < head.len() implies !f(#[trigger] head[i]) by {
            assert(head[i] == before[i]);
        }
        lemma_filter_none(head, f);
        assert(head.filter(f).push(e) + tail.filter(f) =~= seq![e] + (head.filter(f)
            + tail.filter(f)));
    } else {
        assert(Seq::<Entry>::empty() + before.filter(f) =~= before.filter(f));
    }
}

/// Puts `e` into a time-ordered list, in front of the entries of its own time.
pub fn insert_in_order(sorted: &mut Vec<Entry>, e: Entry)
    requires
        in_time_order(old(sorted)@),
    ensures
        in_time_order(final(sorted)@),
        final(sorted)@.len() == old(sorted)@.len() + 1,
        forall|t: u64| #[trigger]
            final(sorted)@.filter(created_on(t)) == (seq![e] + old(sorted)@).filter(created_on(t)),
{
    let mut p: usize = 0;
    while p < sorted.len() && sorted[p].created_at < e.created_at
        invariant
            0 <= p <= sorted@.len(),
            sorted@ == old(sorted)@,
            forall|k: int| 0 <= k < p ==> (#[trigger] sorted@[k]).created_at < e.created_at,
        decreases sorted@.len() - p,
    {
        p += 1;
    }
    let ghost before = sorted@;
    sorted.insert(p, e);
    proof {
        lemma_insert_keeps_order(before, p as int, e);
        assert forall|t: u64| #[trigger]
            sorted@.filter(created_on(t)) == (seq![e] + before).filter(created_on(t)) by {
            lemma_insert_filter(before, p as int, e, t);
        }
    }
}

/// Keeps the entries that pass every predicate and puts them in ascending
/// order of creation time, entries of one and the same time in the order in
/// which they were given. With no predicate every entry is kept.
pub fn evaluate(entries: Vec<Entry>, predicates: &Vec<(Token, Token)>) -> (r: Vec<Entry>)
    ensures
        is_stable_sort_of(r@, entries@.filter(passing(pair_views(predicates@)))),
{
    let ghost keep = passing(pair_views(predicates@));
    let ghost all = entries@;
    let mut rest = entries;
    let mut out: Vec<Entry> = Vec::new();
    proof {
        assert(all.skip(all.len() as int) =~= Seq::<Entry>::empty());
        lemma_filter_none(Seq::<Entry>::empty(), keep);
        assert forall|t: u64| #[trigger]
            out@.filter(created_on(t)) == all.skip(all.len() as int).filter(keep).filter(
                created_on(t),
            ) by {
            lemma_filter_none(Seq::<Entry>::empty(), created_on(t));
            assert(out@ =~= Seq::<Entry>::empty());
        }
    }
    while rest.len() > 0
        invariant
            keep == passing(pair_views(predicates@)),
            rest@.len() <= all.len(),
            rest@ == all.take(rest@.len() as int),
            in_time_order(out@),
            out@.len() == all.skip(rest@.len() as int).filter(keep).len(),
            forall|t: u64| #[trigger]
                out@.filter(created_on(t)) == all.skip(rest@.len() as int).filter(keep).filter(
                    created_on(t),
                ),
        decreases rest@.len(),
    {
        let ghost k = rest@.len() - 1;
        let ghost kept = all.skip(k + 1).filter(keep);
        let ghost previous = out@;
        let e = rest.pop().unwrap();
        proof {
            assert(e == all[k]);
            assert(rest@ =~= all.take(k));
            assert(all.skip(k) =~= seq![e] + all.skip(k + 1));
            all.skip(k + 1).lemma_filter_prepend(e, keep);
        }
        if entry_satisfies_all(&e, predicates) {
            insert_in_order(&mut out, e);
            proof {
                assert(all.skip(k).filter(keep) =~= seq![e] + kept);
                assert forall|t: u64| #[trigger]
                    out@.filter(created_on(t)) == all.skip(k).filter(keep).filter(
                        created_on(t),
                    ) by {
                    previous.lemma_filter_prepend(e, created_on(t));
                    kept.lemma_filter_prepend(e, created_on(t));
                    assert(previous.filter(created_on(t)) == kept.filter(created_on(t)));
                }
            }
        } else {
            proof {
                assert(all.skip(k).filter(keep) =~= kept);
            }
        }
    }
    proof {
        assert(all.skip(0) =~= all);
    }
    out
}

/// Predicates are a conjunction: an entry passes two lists put together
/// exactly when it passes each of them.
pub proof fn law_predicates_conjoin(
    e: Entry,
    first: Seq<(TokenView, TokenView)>,
    second: Seq<(TokenView, TokenView)>,
)
    ensures
        satisfies_all(e, first + second) == (satisfies_all(e, first) && satisfies_all(e, second)),
{
    let both = first + second;
    if satisfies_all(e, first) && satisfies_all(e, second) {
        assert forall|i: int| 0 <= i < both.len() implies satisfies(e, both[i].0, both[i].1) by {
            if i < first.len() {
                assert(both[i] == first[i]);
            } else {
                assert(both[i] == second[i - first.len()]);
            }
        }
    }
    if satisfies_all(e, both) {
        assert forall|i: int| 0 <= i < first.len() implies satisfies(
            e,
            first[i].0,
            first[i].1,
        ) by {
            assert(both[i] == first[i]);
        }
        assert forall|i: int| 0 <= i < second.len() implies satisfies(
            e,
            second[i].0,
            second[i].1,
        ) by {
            assert(both[i + first.len()] == second[i]);
        }
    }
}

/// With no predicate every entry passes: nothing is filtered out.
pub proof fn law_empty_query_keeps_all(entries: Seq<Entry>)
    ensures
        entries.filter(passing(Seq::empty())) == entries,
    decreases entries.len(),
{
    reveal(Seq::filter);
    if entries.len() > 0 {
        law_empty_query_keeps_all(entries.drop_last());
        assert(satisfies_all(entries.last(), Seq::empty()));
        assert(entries.drop_last().push(entries.last()) =~= entries);
    }
}

/// Sorting neither loses nor invents an entry.
pub proof fn law_sort_keeps_members(sorted: Seq<Entry>, source: Seq<Entry>, e: Entry)
    requires
        is_stable_sort_of(sorted, source),
    ensures
        sorted.contains(e) == source.contains(e),
{
    let f = created_on(e.created_at);
    assert(sorted.filter(f) == source.filter(f));
    if sorted.contains(e) {
        let i = choose|i: int| 0 <= i < sorted.len() && sorted[i] == e;
        sorted.lemma_filter_contains(f, i);
        source.lemma_filter_contains_rev(f, e);
    }
    if source.contains(e) {
        let i = choose|i: int| 0 <= i < source.len() && source[i] == e;
        source.lemma_filter_contains(f, i);
        sorted.lemma_filter_contains_rev(f, e);
    }
}

/// What a search returns: exactly the entries that pass every predicate of
/// the query, in ascending order of creation time. Under the predicate
/// `favorite: true` every entry returned is a favorite.
pub proof fn law_search_result(
    entries: Seq<Entry>,
    predicates: Seq<(TokenView, TokenView)>,
    found: Seq<Entry>,
    e: Entry,
)
    requires
        is_stable_sort_of(found, entries.filter(passing(predicates))),
    ensures
        found.contains(e) == (entries.contains(e) && satisfies_all(e, predicates)),
        in_time_order(found),
        found.contains(e) && predicates.contains(
            (TokenView::Favorite, TokenView::Boolean(true)),
        ) ==> e.favorite,
{
    let keep = passing(predicates);
    let kept = entries.filter(keep);
    law_sort_keeps_members(found, kept, e);
    if kept.contains(e) {
        let i = choose|i: int| 0 <= i < kept.len() && kept[i] == e;
        entries.lemma_filter_pred(keep, i);
        entries.lemma_filter_contains_rev(keep, e);
    }
    if entries.contains(e) && satisfies_all(e, predicates) {
        let i = choose|i: int| 0 <= i < entries.len() && entries[i] == e;
        entries.lemma_filter_contains(keep, i);
    }
    if found.contains(e) && predicates.contains((TokenView::Favorite, TokenView::Boolean(true))) {
        let k = choose|k: int|
            0 <= k < predicates.len() && predicates[k] == (
                TokenView::Favorite,
                TokenView::Boolean(true),
            );
        assert(satisfies(e, predicates[k].0, predicates[k].1));
    }
}

/// The last entry of a sequence occurs in any sequence with the same entries
/// of its time, so it is no later than the last entry of a time-ordered one.
proof fn lemma_last_key_is_greatest(a: Seq<Entry>, b: Seq<Entry>)
    requires
        in_time_order(b),
        a.len() > 0,
        b.len() > 0,
        a.filter(created_on(a.last().created_at)) == b.filter(created_on(a.last().created_at)),
    ensures
        a.last().created_at <= b.last().created_at,
{
    let x = a.last();
    let f = created_on(x.created_at);
    assert(a.drop_last().push(x) =~= a);
    a.drop_last().lemma_filter_push(x, f);
    let picked = a.filter(f);
    assert(picked[picked.len() - 1] == x);
    assert(b.filter(f).contains(x));
    b.lemma_filter_contains_rev(f, x);
    let j = choose|j: int| 0 <= j < b.len() && b[j] == x;
    if j < b.len() - 1 {
        assert(b[j].created_at <= b[b.len() - 1].created_at);
    }
}

/// Two time-ordered sequences of one length that agree on the entries of
/// each time are equal.
proof fn lemma_same_order(a: Seq<Entry>, b: Seq<Entry>)
    requires
        in_time_order(a),
        in_time_order(b),
        a.len() == b.len(),
        forall|t: u64| #[trigger] a.filter(created_on(t)) == b.filter(created_on(t)),
    ensures
        a == b,
    decreases a.len(),
{
    if a.len() == 0 {
        assert(a =~= b);
    } else {
        let x = a.last();
        let y = b.last();
        let a0 = a.drop_last();
        let b0 = b.drop_last();
        assert(a0.push(x) =~= a);
        assert(b0.push(y) =~= b);
        assert(a.filter(created_on(x.created_at)) == b.filter(created_on(x.created_at)));
        assert(a.filter(created_on(y.created_at)) == b.filter(created_on(y.created_at)));
        lemma_last_key_is_greatest(a, b);
        lemma_last_key_is_greatest(b, a);
        let key = x.created_at;
        assert(y.created_at == key);
        a0.lemma_filter_push(x, created_on(key));
        b0.lemma_filter_push(y, created_on(key));
        let fa = a0.filter(created_on(key)).push(x);
        let fb = b0.filter(created_on(key)).push(y);
        assert(fa == fb);
        assert(fa[fa.len() - 1] == fb[fb.len() - 1]);
        assert(x == y);
        assert(fa.drop_last() =~= a0.filter(created_on(key)));
        assert(fb.drop_last() =~= b0.filter(created_on(key)));
        assert forall|t: u64| #[trigger]
            a0.filter(created_on(t)) == b0.filter(created_on(t)) by {
            a0.lemma_filter_push(x, created_on(t));
            b0.lemma_filter_push(y, created_on(t));
            assert(a.filter(created_on(t)) == b.filter(created_on(t)));
        }
        assert forall|i: int, j: int| 0 <= i < j < a0.len() implies a0[i].created_at
            <= a0[j].created_at by {
            assert(a0[i] == a[i] && a0[j] == a[j]);
        }
        assert forall|i: int, j: int| 0 <= i < j < b0.len() implies b0[i].created_at
            <= b0[j].created_at by {
            assert(b0[i] == b[i] && b0[j] == b[j]);
        }
        lemma_same_order(a0, b0);
    }
}

/// The order of a result is fully determined: two sequences that are both a
/// stable sort of the same entries are the same sequence.
pub proof fn law_sort_is_determined(first: Seq<Entry>, second: Seq<Entry>, source: Seq<Entry>)
    requires
        is_stable_sort_of(first, source),
        is_stable_sort_of(second, source),
    ensures
        first == second,
{
    assert forall|t: u64| #[trigger]
        first.filter(created_on(t)) == second.filter(created_on(t)) by {
        assert(first.filter(created_on(t)) == source.filter(created_on(t)));
        assert(second.filter(created_on(t)) == source.filter(created_on(t)));
    }
    lemma_same_order(first, second);
}

} // verus!
