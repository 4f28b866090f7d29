//! The lazy two-way merge and the pull interface it is built on.
use vstd::multiset::Multiset;
use vstd::prelude::*;

verus! {

/// A producer of items, pulled one at a time.
///
/// `remaining` is what the source will still produce, in order: each pull
/// hands out its first item and leaves the rest, and an exhausted source keeps
/// answering `None`.
pub trait Source<T>: Sized {
    spec fn remaining(&self) -> Seq<T>;

    spec fn well_formed(&self) -> bool;

    fn next(&mut self) -> (r: Option<T>)
        requires
            old(self).well_formed(),
        ensures
            final(self).well_formed(),
            old(self).remaining().len() == 0 ==> r is None && final(self).remaining()
                == old(self).remaining(),
            old(self).remaining().len() > 0 ==> r == Some(old(self).remaining()[0])
                && final(self).remaining() == old(self).remaining().drop_first(),
    ;
}

/// `before` answers every pair `(a, b)` as `rel(a, b)` says: whatever it
/// returns on `a` and `b` is `rel(a, b)`.
pub open spec fn answers_by<T, F: Fn(&T, &T) -> bool>(before: F, rel: spec_fn(T, T) -> bool) -> bool {
    forall|a: T, b: T, x: bool| #[trigger] call_ensures(before, (&a, &b), x) ==> x == rel(a, b)
}

/// `before` can be called on any two items, and some relation describes its
/// answers.
pub open spec fn is_predicate<T, F: Fn(&T, &T) -> bool>(before: F) -> bool {
    &&& forall|a: T, b: T| #[trigger] call_requires(before, (&a, &b))
    &&& exists|rel: spec_fn(T, T) -> bool| #[trigger] answers_by(before, rel)
}

/// A relation that describes the answers of `before`.
pub open spec fn rel_of<T, F: Fn(&T, &T) -> bool>(before: F) -> spec_fn(T, T) -> bool {
    choose|rel: spec_fn(T, T) -> bool| answers_by(before, rel)
}

/// The stable merge of `l` and `r` under `rel`: while both have items, the
/// first of `l` comes out if `rel` puts it before the first of `r`, and
/// otherwise the first of `r` does; once one side is empty, the rest of the
/// other follows.
pub open spec fn merge_by<T>(l: Seq<T>, r: Seq<T>, rel: spec_fn(T, T) -> bool) -> Seq<T>
    decreases l.len() + r.len(),
{
    if l.len() == 0 {
        r
    } else if r.len() == 0 {
        l
    } else if rel(l[0], r[0]) {
        seq![l[0]] + merge_by(l.drop_first(), r, rel)
    } else {
        seq![r[0]] + merge_by(l, r.drop_first(), rel)
    }
}

/// One pull on the merge of `l` and `r` under `rel`, where at least one side
/// has an item: the item emitted, and what is left on each side.
pub open spec fn pull_by<T>(l: Seq<T>, r: Seq<T>, rel: spec_fn(T, T) -> bool) -> (T, Seq<T>, Seq<T>) {
    if l.len() > 0 && (r.len() == 0 || rel(l[0], r[0])) {
        (l[0], l.drop_first(), r)
    } else {
        (r[0], l, r.drop_first())
    }
}

/// The items held in a one-slot buffer.
pub open spec fn slot<T>(o: Option<T>) -> Seq<T> {
    match o {
        Some(x) => seq![x],
        None => Seq::empty(),
    }
}

/// Which of a merge's two one-slot buffers hold an item.
#[derive(Debug, Clone, Copy, PartialEq, Eq, Structural)]
pub enum Buffers {
    Empty,
    LeftOnly,
    RightOnly,
    Both,
}

/// The buffer state for a left and a right buffer that are full or not.
pub open spec fn buffers_of(left_full: bool, right_full: bool) -> Buffers {
    if left_full && right_full {
        Buffers::Both
    } else if left_full {
        Buffers::LeftOnly
    } else if right_full {
        Buffers::RightOnly
    } else {
        Buffers::Empty
    }
}

/// The lazy merge of two sources under an ordering rule.
///
/// Each side has a one-slot buffer for an item pulled but not yet emitted.
/// A pull first fills each empty buffer from its side; then, with both
/// buffers full, the left item comes out if the rule puts it before the right
/// one and the right item otherwise; with one full, that one comes out; with
/// none, the merge is exhausted.
pub struct MergedStream<T, I, F> {
    this_iter: I,
    other_iter: I,
    f: F,
    this_item: Option<T>,
    other_item: Option<T>,
}

impl<T, I: Source<T>, F: Fn(&T, &T) -> bool> MergedStream<T, I, F> {
    /// Everything the left side still has, its buffered item first.
    pub closed spec fn left(&self) -> Seq<T> {
        slot(self.this_item) + self.this_iter.remaining()
    }

    /// Everything the right side still has, its buffered item first.
    pub closed spec fn right(&self) -> Seq<T> {
        slot(self.other_item) + self.other_iter.remaining()
    }

    /// The ordering rule.
    pub closed spec fn rule(&self) -> F {
        self.f
    }

    /// The left buffer holds an item pulled but not yet emitted.
    pub closed spec fn left_full(&self) -> bool {
        self.this_item is Some
    }

    /// The right buffer holds an item pulled but not yet emitted.
    pub closed spec fn right_full(&self) -> bool {
        self.other_item is Some
    }

    /// Both sides are well formed and the ordering rule is a predicate.
    pub closed spec fn wf(&self) -> bool {
        &&& self.this_iter.well_formed()
        &&& self.other_iter.well_formed()
        &&& is_predicate(self.f)
    }

    /// Which buffers hold an item.
    pub fn buffers(&self) -> (r: Buffers)
        ensures
            r == buffers_of(self.left_full(), self.right_full()),
    {
        match (&self.this_item, &self.other_item) {
            (Some(_), Some(_)) => Buffers::Both,
            (Some(_), None) => Buffers::LeftOnly,
            (None, Some(_)) => Buffers::RightOnly,
            (None, None) => Buffers::Empty,
        }
    }

    /// One pull: fills each empty buffer from its side, then emits as the
    /// rule decides. Afterwards a buffer is full exactly when its side did not
    /// emit and still has an item.
    pub fn pull(&mut self) -> (r: Option<T>)
        requires
            old(self).wf(),
        ensures
            final(self).wf(),
            final(self).rule() == old(self).rule(),
            old(self).left().len() + old(self).right().len() == 0 ==> r is None
                && final(self).left() == old(self).left() && final(self).right() == old(
                self,
            ).right(),
            old(self).left().len() + old(self).right().len() > 0 ==> forall|
                rel: spec_fn(T, T) -> bool,
            |
                #![trigger answers_by(old(self).rule(), rel)]
                answers_by(old(self).rule(), rel) ==> {
                    let (x, l1, r1) = pull_by(old(self).left(), old(self).right(), rel);
                    &&& r == Some(x)
                    &&& final(self).left() == l1
                    &&& final(self).right() == r1
                },
            final(self).left_full() <==> final(self).left().len() > 0 && final(self).left().len()
                == old(self).left().len(),
            final(self).right_full() <==> final(self).right().len() > 0
                && final(self).right().len() == old(self).right().len(),
    {
        if self.this_item.is_none() {
            self.this_item = self.this_iter.next();
        }
        assert(self.left() =~= old(self).left());
        if self.other_item.is_none() {
            self.other_item = self.other_iter.next();
        }
        assert(self.right() =~= old(self).right());
        let ghost (l, rr) = (self.left(), self.right());
        let pick_left = match self.buffers() {
            Buffers::Both => match (&self.this_item, &self.other_item) {
                (Some(a), Some(b)) => (self.f)(a, b),
                _ => false,
            },
            Buffers::LeftOnly => true,
            Buffers::RightOnly | Buffers::Empty => false,
        };
        let r = if pick_left {
            self.this_item.take()
        } else {
            self.other_item.take()
        };
        proof {
            if pick_left {
                assert(self.left() =~= l.drop_first());
                assert(self.right() =~= rr);
            } else if r is Some {
                assert(self.left() =~= l);
                assert(self.right() =~= rr.drop_first());
            }
        }
        r
    }

    /// Drains the merge, pulling until it is exhausted: the merge, under the
    /// rule, of what each side still had.
    pub fn collect(self) -> (r: Vec<T>)
        requires
            self.wf(),
        ensures
            forall|rel: spec_fn(T, T) -> bool|
                #![trigger answers_by(self.rule(), rel)]
                answers_by(self.rule(), rel) ==> r@ == merge_by(self.left(), self.right(), rel),
    {
        let mut s = self;
        let mut out: Vec<T> = Vec::new();
        loop
            invariant
                s.wf(),
                s.rule() == self.rule(),
                forall|rel: spec_fn(T, T) -> bool|
                    #![trigger answers_by(self.rule(), rel)]
                    answers_by(self.rule(), rel) ==> out@ + merge_by(s.left(), s.right(), rel)
                        == merge_by(self.left(), self.right(), rel),
            decreases s.left().len() + s.right().len(),
        {
            let ghost (l0, r0) = (s.left(), s.right());
            match s.pull() {
                Some(x) => {
                    proof {
                        lemma_rel_of(self.rule());
                        assert forall|rel: spec_fn(T, T) -> bool|
                            #![trigger answers_by(self.rule(), rel)]
                            answers_by(self.rule(), rel) implies out@.push(x) + merge_by(
                            s.left(),
                            s.right(),
                            rel,
                        ) == merge_by(self.left(), self.right(), rel) by {
                            lemma_pull_by_pull(l0, r0, rel);
                            assert(out@.push(x) + merge_by(s.left(), s.right(), rel) =~= out@
                                + merge_by(l0, r0, rel));
                        };
                    }
                    out.push(x);
                },
                None => {
                    proof {
                        lemma_rel_of(self.rule());
                        assert(out@ + merge_by(s.left(), s.right(), rel_of(self.rule())) =~= out@);
                    }
                    return out;
                },
            }
        }
    }
}

impl<T, I: Source<T>, F: Fn(&T, &T) -> bool> Source<T> for MergedStream<T, I, F> {
    /// The merge under a relation that describes the rule's answers.
    open spec fn remaining(&self) -> Seq<T> {
        merge_by(self.left(), self.right(), rel_of(self.rule()))
    }

    open spec fn well_formed(&self) -> bool {
        self.wf()
    }

    fn next(&mut self) -> (r: Option<T>) {
        let r = self.pull();
        proof {
            let (l, rr) = (old(self).left(), old(self).right());
            let rel = rel_of(old(self).rule());
            lemma_rel_of(old(self).rule());
            if l.len() + rr.len() > 0 {
                lemma_pull_by_pull(l, rr, rel);
                assert(merge_by(l, rr, rel).drop_first() =~= merge_by(
                    self.left(),
                    self.right(),
                    rel,
                ));
            }
        }
        r
    }
}

/// A relation chosen to describe a predicate's answers does describe them.
pub proof fn lemma_rel_of<T, F: Fn(&T, &T) -> bool>(before: F)
    requires
        is_predicate(before),
    ensures
        answers_by(before, rel_of(before)),
{
}

/// Drains a source: the items it still had, in order.
pub fn drain<T, I: Source<T>>(source: &mut I) -> (r: Vec<T>)
    requires
        old(source).well_formed(),
    ensures
        final(source).well_formed(),
        r@ == old(source).remaining(),
        final(source).remaining().len() == 0,
{
    let mut out: Vec<T> = Vec::new();
    loop
        invariant
            source.well_formed(),
            out@ + source.remaining() == old(source).remaining(),
        decreases source.remaining().len(),
    {
        match source.next() {
            Some(x) => {
                out.push(x);
                assert(out@ + source.remaining() =~= old(source).remaining());
            },
            None => {
                assert(out@ =~= old(source).remaining());
                return out;
            },
        }
    }
}

/// Merges two sources under `f`: the left is `this_iter`, the right
/// `other_iter`. Nothing is pulled from either until the merge is pulled.
pub fn merge<T, I: Source<T>, F: Fn(&T, &T) -> bool>(this_iter: I, other_iter: I, f: F) -> (r:
    MergedStream<T, I, F>)
    requires
        this_iter.well_formed(),
        other_iter.well_formed(),
        is_predicate(f),
    ensures
        r.wf(),
        r.left() == this_iter.remaining(),
        r.right() == other_iter.remaining(),
        r.rule() == f,
        !r.left_full() && !r.right_full(),
        forall|rel: spec_fn(T, T) -> bool|
            #![trigger answers_by(f, rel)]
            answers_by(f, rel) ==> merge_by(r.left(), r.right(), rel) == merge_by(
                this_iter.remaining(),
                other_iter.remaining(),
                rel,
            ),
{
    let r = MergedStream { this_iter, other_iter, f, this_item: None, other_item: None };
    assert(r.left() =~= this_iter.remaining());
    assert(r.right() =~= other_iter.remaining());
    r
}

/// A source that hands out the items of a vector, first to last.
pub struct VecSource<T> {
    /// The items still to come, last first: a pull takes from the end.
    items: Vec<T>,
}

/// `s` back to front.
pub open spec fn backwards<T>(s: Seq<T>) -> Seq<T> {
    Seq::new(s.len(), |i: int| s[s.len() - 1 - i])
}

impl<T> VecSource<T> {
    pub fn new(v: Vec<T>) -> (r: Self)
        ensures
            r.well_formed(),
            r.remaining() == v@,
    {
        let ghost orig = v@;
        let mut v = v;
        let mut items: Vec<T> = Vec::new();
        while v.len() > 0
            invariant
                v@ + backwards(items@) == orig,
            decreases v.len(),
        {
            let x = v.pop().unwrap();
            items.push(x);
            assert(v@ + backwards(items@) =~= orig);
        }
        assert(backwards(items@) =~= orig);
        VecSource { items }
    }
}

impl<T> Source<T> for VecSource<T> {
    closed spec fn remaining(&self) -> Seq<T> {
        backwards(self.items@)
    }

    open spec fn well_formed(&self) -> bool {
        true
    }

    fn next(&mut self) -> (r: Option<T>) {
        let r = self.items.pop();
        proof {
            if old(self).items.len() > 0 {
                assert(backwards(self.items@) =~= backwards(old(self).items@).drop_first());
            }
        }
        r
    }
}

/// A pass-through stage: each pull takes the next item upstream and hands it
/// on unchanged, so a caller can act on every item as it flows by.
pub struct Printer<I> {
    iter: I,
}

impl<I> Printer<I> {
    /// The wrapped source.
    pub closed spec fn inner(&self) -> I {
        self.iter
    }

    pub fn new(iter: I) -> (r: Self)
        ensures
            r.inner() == iter,
    {
        Printer { iter }
    }
}

impl<T, I: Source<T>> Source<T> for Printer<I> {
    open spec fn remaining(&self) -> Seq<T> {
        self.inner().remaining()
    }

    open spec fn well_formed(&self) -> bool {
        self.inner().well_formed()
    }

    fn next(&mut self) -> (r: Option<T>) {
        self.iter.next()
    }
}

/// Merging with an empty right side gives the left side unchanged, and
/// merging two empty sequences gives the empty sequence.
pub proof fn lemma_merge_with_empty<T>(a: Seq<T>, rel: spec_fn(T, T) -> bool)
    ensures
        merge_by(a, Seq::<T>::empty(), rel) == a,
        merge_by(Seq::<T>::empty(), Seq::<T>::empty(), rel) == Seq::<T>::empty(),
{
}

/// Pulling one item and then draining the rest gives what draining all at
/// once gives; so pulling item by item yields the whole merge in order.
pub proof fn lemma_pull_by_pull<T>(l: Seq<T>, r: Seq<T>, rel: spec_fn(T, T) -> bool)
    requires
        l.len() + r.len() > 0,
    ensures
        ({
            let (x, l1, r1) = pull_by(l, r, rel);
            merge_by(l, r, rel) == seq![x] + merge_by(l1, r1, rel)
        }),
{
    if l.len() == 0 {
        assert(r =~= seq![r[0]] + r.drop_first());
    } else if r.len() == 0 {
        assert(l =~= seq![l[0]] + l.drop_first());
    }
}

/// `s` is in ascending order.
pub open spec fn ascending(s: Seq<usize>) -> bool {
    forall|i: int, j: int| 0 <= i < j < s.len() ==> s[i] <= s[j]
}

/// The strict less-than on integers, as an ordering rule.
pub open spec fn less_than() -> spec_fn(usize, usize) -> bool {
    |x: usize, y: usize| x < y
}

/// Under less-than, the merge of two ascending sequences is their sorted
/// concatenation: it is ascending, holds exactly the items of both, and is
/// the same whichever of the two is the left side.
pub proof fn lemma_merge_ascending(a: Seq<usize>, b: Seq<usize>)
    requires
        ascending(a),
        ascending(b),
    ensures
        ascending(merge_by(a, b, less_than())),
        merge_by(a, b, less_than()).to_multiset() == a.to_multiset().add(b.to_multiset()),
        merge_by(a, b, less_than()) == merge_by(b, a, less_than()),
{
    lemma_merge_sorted_items(a, b);
    lemma_merge_sorted_items(b, a);
    assert(b.to_multiset().add(a.to_multiset()) =~= a.to_multiset().add(b.to_multiset()));
    lemma_ascending_unique(merge_by(a, b, less_than()), merge_by(b, a, less_than()));
}

proof fn lemma_merge_sorted_items(a: Seq<usize>, b: Seq<usize>)
    requires
        ascending(a),
        ascending(b),
    ensures
        ascending(merge_by(a, b, less_than())),
        merge_by(a, b, less_than()).to_multiset() == a.to_multiset().add(b.to_multiset()),
    decreases a.len() + b.len(),
{
    broadcast use vstd::seq_lib::group_to_multiset_ensures;

    let lt = less_than();
    if a.len() == 0 {
        assert(a.to_multiset() =~= Multiset::empty());
        assert(b.to_multiset() =~= a.to_multiset().add(b.to_multiset()));
    } else if b.len() == 0 {
        assert(b.to_multiset() =~= Multiset::empty());
        assert(a.to_multiset() =~= a.to_multiset().add(b.to_multiset()));
    } else {
        let m = merge_by(a, b, lt);
        assert(lt(a[0], b[0]) <==> a[0] < b[0]);
        let (h, rest) = if a[0] < b[0] {
            lemma_merge_sorted_items(a.drop_first(), b);
            assert(a =~= a.drop_first().insert(0, a[0]));
            (a[0], merge_by(a.drop_first(), b, lt))
        } else {
            lemma_merge_sorted_items(a, b.drop_first());
            assert(b =~= b.drop_first().insert(0, b[0]));
            (b[0], merge_by(a, b.drop_first(), lt))
        };
        assert(m =~= rest.insert(0, h));
        assert(m.to_multiset() =~= a.to_multiset().add(b.to_multiset()));
        assert forall|k: int| 0 <= k < rest.len() implies h <= #[trigger] rest[k] by {
            assert(rest.to_multiset().count(rest[k]) > 0);
            let x = rest[k];
            if a.contains(x) {
                let j = choose|j: int| 0 <= j < a.len() && a[j] == x;
                assert(a[0] <= a[j]);
            } else {
                assert(b.to_multiset().count(x) > 0);
                let j = choose|j: int| 0 <= j < b.len() && b[j] == x;
                assert(b[0] <= b[j]);
            }
        };
        assert forall|i: int, j: int| 0 <= i < j < m.len() implies m[i] <= m[j] by {
            if i > 0 {
                assert(m[i] == rest[i - 1] && m[j] == rest[j - 1]);
            } else {
                assert(m[j] == rest[j - 1]);
            }
        };
    }
}

/// Two ascending sequences with the same items are equal.
proof fn lemma_ascending_unique(s: Seq<usize>, t: Seq<usize>)
    requires
        ascending(s),
        ascending(t),
        s.to_multiset() == t.to_multiset(),
    ensures
        s == t,
    decreases s.len(),
{
    broadcast use vstd::seq_lib::group_to_multiset_ensures;

    assert(s.len() == s.to_multiset().len());
    assert(t.len() == t.to_multiset().len());
    if s.len() > 0 {
        assert(s.to_multiset().count(s[0]) > 0);
        assert(t.contains(s[0]));
        let j = choose|j: int| 0 <= j < t.len() && t[j] == s[0];
        assert(t[0] <= t[j]);
        assert(t.to_multiset().count(t[0]) > 0);
        assert(s.contains(t[0]));
        let i = choose|i: int| 0 <= i < s.len() && s[i] == t[0];
        assert(s[0] <= s[i]);
        assert(s.remove(0) =~= s.drop_first());
        assert(t.remove(0) =~= t.drop_first());
        assert(s.remove(0).to_multiset() == s.to_multiset().remove(s[0]));
        assert(t.remove(0).to_multiset() == t.to_multiset().remove(t[0]));
        lemma_ascending_unique(s.drop_first(), t.drop_first());
        assert(s[0] == t[0]);
        assert forall|k: int| 0 < k < s.len() implies s[k] == t[k] by {
            assert(s[k] == s.drop_first()[k - 1] && t[k] == t.drop_first()[k - 1]);
        };
        assert(s =~= t);
    } else {
        assert(s =~= t);
    }
}

} // verus!
