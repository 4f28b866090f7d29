//! Numbering and filtering the lines of each source, and folding the
//! per-source sequences into one by repeated pairwise merges.
use crate::lines::{Line, LineItem};
use crate::merge::{answers_by, is_predicate, merge, merge_by, VecSource};
use vstd::prelude::*;

verus! {

/// `keep` answers every record `rec` as `krel(rec)` says.
pub open spec fn filters_by<P: Fn(&Line) -> bool>(keep: P, krel: spec_fn(Line) -> bool) -> bool {
    forall|rec: Line, x: bool| #[trigger] call_ensures(keep, (&rec,), x) ==> x == krel(rec)
}

/// `keep` can be called on any record.
pub open spec fn is_filter<P: Fn(&Line) -> bool>(keep: P) -> bool {
    forall|rec: Line| #[trigger] call_requires(keep, (&rec,))
}

/// The lines of a source as records, numbered from 1 in source order.
pub open spec fn numbered(lines: Seq<String>) -> Seq<Line> {
    Seq::new(lines.len(), |i: int| LineItem::record((i + 1) as usize, lines[i]))
}

/// The numbered records of a source that `krel` accepts, in source order.
pub open spec fn filtered(lines: Seq<String>, krel: spec_fn(Line) -> bool) -> Seq<Line> {
    numbered(lines).filter(krel)
}

/// Numbers the lines of one source from 1 and keeps the records that `keep`
/// accepts. A record that is dropped leaves a gap: the others keep their
/// positions.
pub fn number_and_filter<P: Fn(&Line) -> bool>(lines: &Vec<String>, keep: &P) -> (r: Vec<Line>)
    requires
        is_filter(*keep),
    ensures
        forall|krel: spec_fn(Line) -> bool|
            #![trigger filters_by(*keep, krel)]
            filters_by(*keep, krel) ==> r@ == filtered(lines@, krel),
{
    let mut out: Vec<Line> = Vec::new();
    let mut i: usize = 0;
    while i < lines.len()
        invariant
            is_filter(*keep),
            i <= lines.len(),
            forall|krel: spec_fn(Line) -> bool|
                #![trigger filters_by(*keep, krel)]
                filters_by(*keep, krel) ==> out@ == filtered(lines@.take(i as int), krel),
        decreases lines.len() - i,
    {
        let rec = LineItem::new(i + 1, lines[i].clone());
        let accepted = keep(&rec);
        let ghost prev = out@;
        let ghost s0 = numbered(lines@.take(i as int));
        let ghost s1 = numbered(lines@.take(i + 1));
        proof {
            assert(s1 =~= s0.push(rec));
            assert(s1.drop_last() =~= s0);
        }
        if accepted {
            out.push(rec);
        }
        proof {
            assert forall|krel: spec_fn(Line) -> bool|
                #![trigger filters_by(*keep, krel)]
                filters_by(*keep, krel) implies out@ == filtered(lines@.take(i + 1), krel) by {
                reveal(Seq::filter);
                assert(krel(rec) == accepted);
                assert(s1.last() == rec);
            };
        }
        i = i + 1;
    }
    assert(lines@.take(lines.len() as int) =~= lines@);
    out
}

/// The views of a list of vectors.
pub open spec fn views<T>(sources: Seq<Vec<T>>) -> Seq<Seq<T>> {
    sources.map_values(|v: Vec<T>| v@)
}

/// The pairwise fold of several sequences: the last one is the base, and each
/// earlier one, from the second-to-last back to the first, is merged in as the
/// left side over what has been folded so far.
pub open spec fn fold_by<T>(sources: Seq<Seq<T>>, rel: spec_fn(T, T) -> bool) -> Seq<T>
    decreases sources.len(),
{
    if sources.len() <= 1 {
        if sources.len() == 0 {
            Seq::empty()
        } else {
            sources[0]
        }
    } else {
        merge_by(sources[0], fold_by(sources.drop_first(), rel), rel)
    }
}

/// Folds the sources into one sequence: pops the last as the accumulator,
/// then pops each one before it and merges it, as the left side, with the
/// accumulator.
///
/// The rule is `Copy` because each pairwise merge holds a copy of its own.
/// Each pairwise merge is drained into a vector that becomes the right side
/// of the next merge, so every merge has two vector-backed sides. The order
/// that comes out is the one a chain of nested merges would give.
pub fn fold_merge<T, F: Fn(&T, &T) -> bool + Copy>(sources: Vec<Vec<T>>, before: F) -> (r: Vec<T>)
    requires
        sources.len() >= 1,
        is_predicate(before),
    ensures
        forall|rel: spec_fn(T, T) -> bool|
            #![trigger answers_by(before, rel)]
            answers_by(before, rel) ==> r@ == fold_by(views(sources@), rel),
{
    let ghost all = views(sources@);
    let mut sources = sources;
    let mut acc = sources.pop().unwrap();
    assert(all.subrange(all.len() - 1, all.len() as int) =~= seq![acc@]);
    while sources.len() > 0
        invariant
            is_predicate(before),
            views(sources@) == all.take(sources.len() as int),
            sources.len() < all.len(),
            forall|rel: spec_fn(T, T) -> bool|
                #![trigger answers_by(before, rel)]
                answers_by(before, rel) ==> acc@ == fold_by(
                    all.subrange(sources.len() as int, all.len() as int),
                    rel,
                ),
        decreases sources.len(),
    {
        let ghost k = sources.len() as int;
        let ghost prev = sources@;
        let popped = sources.pop().unwrap();
        assert(all[k - 1] == popped@) by {
            assert(views(prev)[k - 1] == all.take(k)[k - 1]);
        };
        assert(views(sources@) =~= all.take(k - 1));
        let ghost rest = all.subrange(k - 1, all.len() as int);
        assert(rest.drop_first() =~= all.subrange(k, all.len() as int));
        let ghost prev_acc = acc@;
        let merged = merge(VecSource::new(popped), VecSource::new(acc), before);
        acc = merged.collect();
        proof {
            assert forall|rel: spec_fn(T, T) -> bool|
                #![trigger answers_by(before, rel)]
                answers_by(before, rel) implies acc@ == fold_by(rest, rel) by {
                assert(merge_by(popped@, prev_acc, rel) == acc@);
            };
        }
    }
    assert(all.subrange(0, all.len() as int) =~= all);
    acc
}

/// The contents of records, in order.
pub open spec fn contents_of(recs: Seq<Line>) -> Seq<String> {
    recs.map_values(|rec: Line| rec.contents())
}

/// Hands back the contents of the records, in order.
pub fn into_contents(recs: Vec<Line>) -> (r: Vec<String>)
    ensures
        r@ == contents_of(recs@),
{
    let ghost all = recs@;
    let mut recs = recs;
    let mut rev: Vec<String> = Vec::new();
    while recs.len() > 0
        invariant
            recs@ == all.take(recs.len() as int),
            rev.len() + recs.len() == all.len(),
            forall|j: int| 0 <= j < rev.len() ==> #[trigger] rev@[j] == all[all.len() - 1 - j].contents(),
        decreases recs.len(),
    {
        let rec = recs.pop().unwrap();
        assert(recs@ =~= all.take(recs.len() as int));
        rev.push(rec.into_contents());
    }
    let mut out: Vec<String> = Vec::new();
    while rev.len() > 0
        invariant
            out.len() + rev.len() == all.len(),
            forall|j: int| 0 <= j < rev.len() ==> #[trigger] rev@[j] == all[all.len() - 1 - j].contents(),
            forall|j: int| 0 <= j < out.len() ==> #[trigger] out@[j] == all[j].contents(),
        decreases rev.len(),
    {
        let c = rev.pop().unwrap();
        out.push(c);
    }
    assert(out@ =~= contents_of(all));
    out
}

/// The contents of the records of one source that `keep` accepts.
pub fn filter_lines<P: Fn(&Line) -> bool>(lines: &Vec<String>, keep: &P) -> (r: Vec<String>)
    requires
        is_filter(*keep),
    ensures
        forall|krel: spec_fn(Line) -> bool|
            #![trigger filters_by(*keep, krel)]
            filters_by(*keep, krel) ==> r@ == contents_of(filtered(lines@, krel)),
{
    into_contents(number_and_filter(lines, keep))
}

/// Each source numbered and filtered on its own.
pub open spec fn filtered_all(sources: Seq<Vec<String>>, krel: spec_fn(Line) -> bool) -> Seq<
    Seq<Line>,
> {
    sources.map_values(|lines: Vec<String>| filtered(lines@, krel))
}

/// The contents that the whole pipeline writes: each source numbered and
/// filtered by `krel`, the results folded pairwise under `rel`, then the
/// contents of the records in merged order.
pub open spec fn merged_contents(
    sources: Seq<Vec<String>>,
    krel: spec_fn(Line) -> bool,
    rel: spec_fn(Line, Line) -> bool,
) -> Seq<String> {
    contents_of(fold_by(filtered_all(sources, krel), rel))
}

/// Numbers and filters each source, folds the results into one sequence by
/// pairwise merges, and returns the contents in merged order.
pub fn filter_and_merge<P: Fn(&Line) -> bool, F: Fn(&Line, &Line) -> bool + Copy>(
    sources: &Vec<Vec<String>>,
    keep: &P,
    before: F,
) -> (r: Vec<String>)
    requires
        sources.len() >= 1,
        is_filter(*keep),
        is_predicate(before),
    ensures
        forall|krel: spec_fn(Line) -> bool, rel: spec_fn(Line, Line) -> bool|
            #![trigger filters_by(*keep, krel), answers_by(before, rel)]
            filters_by(*keep, krel) && answers_by(before, rel) ==> r@ == merged_contents(
                sources@,
                krel,
                rel,
            ),
{
    let mut per_source: Vec<Vec<Line>> = Vec::new();
    let mut i: usize = 0;
    while i < sources.len()
        invariant
            is_filter(*keep),
            i <= sources.len(),
            per_source.len() == i,
            forall|krel: spec_fn(Line) -> bool|
                #![trigger filters_by(*keep, krel)]
                filters_by(*keep, krel) ==> views(per_source@) == filtered_all(sources@, krel).take(
                    i as int,
                ),
        decreases sources.len() - i,
    {
        let recs = number_and_filter(&sources[i], keep);
        let ghost prev = per_source@;
        per_source.push(recs);
        proof {
            assert(views(per_source@) =~= views(prev).push(recs@));
            assert forall|krel: spec_fn(Line) -> bool|
                #![trigger filters_by(*keep, krel)]
                filters_by(*keep, krel) implies views(per_source@) == filtered_all(
                    sources@,
                    krel,
                ).take(i + 1) by {
                assert(filtered_all(sources@, krel)[i as int] == filtered(sources@[i as int]@, krel));
                assert(views(per_source@) =~= filtered_all(sources@, krel).take(i + 1));
            };
        }
        i = i + 1;
    }
    let merged = fold_merge(per_source, before);
    let r = into_contents(merged);
    proof {
        assert forall|krel: spec_fn(Line) -> bool, rel: spec_fn(Line, Line) -> bool|
            #![trigger filters_by(*keep, krel), answers_by(before, rel)]
            filters_by(*keep, krel) && answers_by(before, rel) implies r@ == merged_contents(
            sources@,
            krel,
            rel,
        ) by {
            assert(filtered_all(sources@, krel).take(sources.len() as int) =~= filtered_all(
                sources@,
                krel,
            ));
        };
    }
    r
}

} // verus!
