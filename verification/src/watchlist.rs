//! Building the watch list: combining ticker sources, dropping duplicates,
//! classifying, and the plain-value rules of the asset-screening loop (price
//! ranges, request chunking, rate-limit pauses, which links carry articles).
use vstd::prelude::*;
use vstd::string::StrSliceExecFns;
use itertools::Itertools;
use crate::symbol::Symbol;
use crate::text::{spec_contains, str_contains, str_views};

verus! {

/// First occurrences only: every string keeps its first appearance, later
/// repeats are dropped, order is otherwise preserved.
pub open spec fn spec_dedup(s: Seq<Seq<char>>) -> Seq<Seq<char>>
    decreases s.len(),
{
    if s.len() == 0 {
        Seq::empty()
    } else {
        let rest = spec_dedup(s.drop_last());
        if s.drop_last().contains(s.last()) {
            rest
        } else {
            rest.push(s.last())
        }
    }
}

/// Relies on itertools' `unique`: keeps the first occurrence of each element
/// in order, detecting duplicates by equality (content equality for strings).
#[verifier::external_body]
fn unique_strings(v: Vec<String>) -> (r: Vec<String>)
    ensures
        str_views(r@) == spec_dedup(str_views(v@)),
{
    v.into_iter().unique().collect()
}

/// Each ticker classified, in order.
pub open spec fn classify_all(ts: Seq<Seq<char>>) -> Seq<(bool, Seq<char>)> {
    ts.map_values(|t: Seq<char>| Symbol::spec_classified(t))
}

/// The combined watch list: the first source's tickers, then the second's,
/// first occurrences only, each classified into a symbol.
pub fn to_watchlist(primary: Vec<String>, secondary: Vec<String>) -> (r: Vec<Symbol>)
    ensures
        r@.map_values(|s: Symbol| s@) == classify_all(
            spec_dedup(str_views(primary@) + str_views(secondary@)),
        ),
{
    let ghost primary_views = str_views(primary@);
    let ghost secondary_views = str_views(secondary@);
    let mut combined = primary;
    let mut tail = secondary;
    combined.append(&mut tail);
    proof {
        assert(str_views(combined@) =~= primary_views + secondary_views);
    }
    let uniq = unique_strings(combined);
    let ghost deduped = spec_dedup(primary_views + secondary_views);
    let mut r: Vec<Symbol> = Vec::new();
    let n = uniq.len();
    let mut i: usize = 0;
    proof {
        assert(r@.map_values(|s: Symbol| s@) =~= classify_all(deduped.subrange(0, 0)));
    }
    while i < n
        invariant
            n == uniq@.len(),
            i <= n,
            str_views(uniq@) == deduped,
            r@.map_values(|s: Symbol| s@) == classify_all(deduped.subrange(0, i as int)),
        decreases n - i,
    {
        let sym = Symbol::from(uniq[i].as_str());
        let ghost pre = r@;
        r.push(sym);
        proof {
            assert(str_views(uniq@)[i as int] == uniq@[i as int]@);
            assert(uniq@[i as int]@ == deduped[i as int]);
            pre.lemma_push_map_commute(|s: Symbol| s@, sym);
            assert(deduped.subrange(0, i + 1 as int) =~= deduped.subrange(0, i as int).push(
                deduped[i as int],
            ));
            deduped.subrange(0, i as int).lemma_push_map_commute(
                |t: Seq<char>| Symbol::spec_classified(t),
                deduped[i as int],
            );
            assert(r@.map_values(|s: Symbol| s@) == classify_all(
                deduped.subrange(0, i + 1 as int),
            ));
        }
        i = i + 1;
    }
    proof {
        assert(deduped.subrange(0, n as int) =~= deduped);
    }
    r
}

/// The first `max` symbols of the list (all of them if it is shorter).
pub fn take_prefix(v: Vec<Symbol>, max: usize) -> (r: Vec<Symbol>)
    ensures
        r@ == v@.subrange(
            0,
            if v@.len() <= max {
                v@.len() as int
            } else {
                max as int
            },
        ),
{
    let ghost orig = v@;
    let mut kept = v;
    proof {
        assert(orig.subrange(0, orig.len() as int) =~= orig);
    }
    while kept.len() > max
        invariant
            kept@.len() <= orig.len(),
            kept@.len() >= max || kept@.len() == orig.len(),
            kept@ == orig.subrange(0, kept@.len() as int),
        decreases kept@.len(),
    {
        let ghost before = kept@;
        let _ = kept.pop();
        proof {
            assert forall|x: int| 0 <= x < kept@.len() implies kept@[x] == orig[x] by {
                assert(kept@[x] == before[x]);
                assert(before[x] == orig.subrange(0, before.len() as int)[x]);
            }
            assert(kept@ =~= orig.subrange(0, kept@.len() as int));
        }
    }
    proof {
        assert(orig.subrange(0, orig.len() as int) =~= orig);
    }
    kept
}

/// The views of symbol-price pairs.
pub open spec fn pair_models(s: Seq<(Symbol, u64)>) -> Seq<((bool, Seq<char>), u64)> {
    s.map_values(|p: (Symbol, u64)| (p.0@, p.1))
}

/// Keep the symbols whose latest price lies inside `[low, high)`.
pub fn prices_in_range(prices: &Vec<(Symbol, u64)>, low: u64, high: u64) -> (r: Vec<(Symbol, u64)>)
    ensures
        pair_models(r@) == pair_models(prices@).filter(
            |p: ((bool, Seq<char>), u64)| low <= p.1 < high,
        ),
{
    let ghost pred = |p: ((bool, Seq<char>), u64)| low <= p.1 < high;
    let mut r: Vec<(Symbol, u64)> = Vec::new();
    let n = prices.len();
    let mut i: usize = 0;
    proof {
        assert(pair_models(prices@.subrange(0, 0)) =~= Seq::<((bool, Seq<char>), u64)>::empty());
        assert(pair_models(r@) =~= pair_models(prices@.subrange(0, 0)).filter(pred));
    }
    while i < n
        invariant
            n == prices@.len(),
            i <= n,
            pred == (|p: ((bool, Seq<char>), u64)| low <= p.1 < high),
            pair_models(r@) == pair_models(prices@.subrange(0, i as int)).filter(pred),
        decreases n - i,
    {
        let price = prices[i].1;
        proof {
            crate::text::lemma_filter_push(
                pair_models(prices@.subrange(0, i as int)),
                pred,
                (prices@[i as int].0@, prices@[i as int].1),
            );
            assert(pair_models(prices@.subrange(0, i + 1 as int)) =~= pair_models(
                prices@.subrange(0, i as int),
            ).push((prices@[i as int].0@, prices@[i as int].1)));
        }
        if low <= price && price < high {
            r.push((prices[i].0.clone(), price));
            proof {
                assert(pair_models(r@) =~= pair_models(r@.drop_last()).push(
                    (r@.last().0@, r@.last().1),
                ));
            }
        }
        i = i + 1;
    }
    proof {
        assert(prices@.subrange(0, n as int) =~= prices@);
    }
    r
}

/// The chunks of `s`, `size` at a time from the front; every chunk but the
/// last holds exactly `size` items, the last holds the remainder.
pub open spec fn spec_chunks(s: Seq<Symbol>, size: int) -> Seq<Seq<Symbol>>
    decreases s.len(),
{
    if s.len() == 0 {
        Seq::empty()
    } else if size <= 0 || s.len() <= size {
        seq![s]
    } else {
        seq![s.subrange(0, size)] + spec_chunks(s.subrange(size, s.len() as int), size)
    }
}

/// Split the symbols into request-sized chunks (a request URL can only carry
/// so many symbols).
pub fn chunked(v: &Vec<Symbol>, size: usize) -> (r: Vec<Vec<Symbol>>)
    requires
        size > 0,
    ensures
        r@.map_values(|c: Vec<Symbol>| c@) == spec_chunks(v@, size as int),
{
    let mut r: Vec<Vec<Symbol>> = Vec::new();
    let n = v.len();
    let mut i: usize = 0;
    proof {
        assert(v@.subrange(0, n as int) =~= v@);
        assert(r@.map_values(|c: Vec<Symbol>| c@) + spec_chunks(
            v@.subrange(0, n as int),
            size as int,
        ) =~= spec_chunks(v@, size as int));
    }
    while i < n
        invariant
            n == v@.len(),
            i <= n,
            size > 0,
            r@.map_values(|c: Vec<Symbol>| c@) + spec_chunks(
                v@.subrange(i as int, n as int),
                size as int,
            ) == spec_chunks(v@, size as int),
        decreases n - i,
    {
        let end = if n - i < size {
            n
        } else {
            i + size
        };
        let mut chunk: Vec<Symbol> = Vec::new();
        let mut j: usize = i;
        while j < end
            invariant
                i <= j <= end <= n,
                n == v@.len(),
                chunk@ == v@.subrange(i as int, j as int),
            decreases end - j,
        {
            chunk.push(v[j].clone());
            proof {
                assert(v@.subrange(i as int, j + 1 as int) =~= v@.subrange(i as int, j as int).push(
                    v@[j as int],
                ));
            }
            j = j + 1;
        }
        let ghost rest = v@.subrange(i as int, n as int);
        r.push(chunk);
        proof {
            if rest.len() <= size as int {
                assert(rest =~= v@.subrange(i as int, end as int));
                assert(spec_chunks(rest, size as int) == seq![rest]);
                assert(v@.subrange(end as int, n as int).len() == 0);
                assert(spec_chunks(v@.subrange(end as int, n as int), size as int)
                    =~= Seq::<Seq<Symbol>>::empty());
            } else {
                assert(rest.subrange(0, size as int) =~= v@.subrange(i as int, end as int));
                assert(rest.subrange(size as int, rest.len() as int) =~= v@.subrange(
                    end as int,
                    n as int,
                ));
            }
            assert(r@.map_values(|c: Vec<Symbol>| c@) =~= r@.drop_last().map_values(
                |c: Vec<Symbol>| c@,
            ).push(r@.last()@));
            assert(r@.map_values(|c: Vec<Symbol>| c@) + spec_chunks(
                v@.subrange(end as int, n as int),
                size as int,
            ) =~= spec_chunks(v@, size as int));
        }
        i = end;
    }
    proof {
        assert(spec_chunks(v@.subrange(i as int, n as int), size as int)
            =~= Seq::<Seq<Symbol>>::empty());
        assert(r@.map_values(|c: Vec<Symbol>| c@) =~= spec_chunks(v@, size as int));
    }
    r
}

/// The screening loop pauses after every 150th request when the last pause
/// lies less than a minute back.
pub fn should_pause_for_rate_limit(request_index: usize, seconds_since_pause: u64) -> (r: bool)
    ensures
        r == (request_index % 150 == 149 && seconds_since_pause < 60),
{
    request_index % 150 == 149 && seconds_since_pause < 60
}

/// The index right after the last slash of `s`, or zero when it has none.
pub open spec fn after_last_slash(s: Seq<char>) -> int
    decreases s.len(),
{
    if s.len() == 0 {
        0
    } else if s.last() == '/' {
        s.len() as int
    } else {
        after_last_slash(s.drop_last())
    }
}

/// The index of the first question mark at or after `from`, or the length
/// when none follows.
pub open spec fn first_question_from(s: Seq<char>, from: int) -> int
    decreases s.len() - from,
{
    if from < 0 || from >= s.len() {
        s.len() as int
    } else if s[from] == '?' {
        from
    } else {
        first_question_from(s, from + 1)
    }
}

/// The file stem a saved article gets: what follows the link's last slash,
/// up to but not including its query string.
pub open spec fn spec_article_stem(s: Seq<char>) -> Seq<char> {
    s.subrange(after_last_slash(s), first_question_from(s, after_last_slash(s)))
}

proof fn lemma_after_last_slash_bounds(s: Seq<char>)
    ensures
        0 <= after_last_slash(s) <= s.len(),
    decreases s.len(),
{
    if s.len() > 0 && !(s.last() == '/') {
        lemma_after_last_slash_bounds(s.drop_last());
    }
}

proof fn lemma_first_question_bounds(s: Seq<char>, from: int)
    requires
        0 <= from <= s.len(),
    ensures
        from <= first_question_from(s, from) <= s.len(),
    decreases s.len() - from,
{
    if from < s.len() && !(s[from] == '?') {
        lemma_first_question_bounds(s, from + 1);
    }
}

/// The stem under which a scraped article is saved.
pub fn article_file_stem(link: &str) -> (r: String)
    ensures
        r@ == spec_article_stem(link@),
{
    let n = link.unicode_len();
    let mut start: usize = n;
    proof {
        assert(link@.subrange(0, n as int) =~= link@);
    }
    loop
        invariant
            start <= n,
            n == link@.len(),
            after_last_slash(link@) == after_last_slash(link@.subrange(0, start as int)),
        ensures
            start <= n,
            n == link@.len(),
            after_last_slash(link@) == start,
        decreases start,
    {
        if start == 0 {
            break ;
        }
        let c = link.get_char(start - 1);
        proof {
            let prefix = link@.subrange(0, start as int);
            assert(prefix.last() == link@[start - 1]);
            assert(prefix.drop_last() =~= link@.subrange(0, start - 1 as int));
        }
        if c == '/' {
            break ;
        }
        start = start - 1;
    }
    let mut stop: usize = start;
    proof {
        lemma_first_question_bounds(link@, start as int);
    }
    loop
        invariant
            start <= stop <= n,
            n == link@.len(),
            first_question_from(link@, start as int) == first_question_from(link@, stop as int),
        ensures
            start <= stop <= n,
            first_question_from(link@, start as int) == stop,
        decreases n - stop,
    {
        if stop == n {
            break ;
        }
        let c = link.get_char(stop);
        if c == '?' {
            break ;
        }
        stop = stop + 1;
    }
    let stem = link.substring_char(start, stop);
    stem.to_owned()
}

/// A link worth following for tickers: non-empty and naming an article or a
/// story page.
pub fn is_article_link(link: &str) -> (r: bool)
    ensures
        r == (link@.len() > 0 && (spec_contains(link@, "/articles/"@) || spec_contains(
            link@,
            "/story/"@,
        ))),
{
    link.unicode_len() > 0 && (str_contains(link, "/articles/") || str_contains(link, "/story/"))
}

} // verus!
