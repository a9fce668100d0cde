//! An append-only run-length encoded sequence.
//!
//! The container stores `(value, run_length)` pairs and stands for the sequence
//! obtained by repeating each value `run_length` times. Pushing a value equal
//! to the one of the last run extends that run instead of starting a new one.

use vstd::prelude::*;
use vstd::std_specs::cmp::PartialEqSpec;

verus! {

/// One run: `run_length` consecutive copies of `value`.
pub struct RunLength<T> {
    pub value: T,
    pub run_length: usize,
}

/// A sequence stored as a list of runs.
pub struct RunLengthEncoded<T> {
    run_lengths: Vec<RunLength<T>>,
}

/// A cursor over the logical elements of a [`RunLengthEncoded`].
pub struct RunLengthIterator<'a, T: 'a> {
    run_length_encoded: &'a RunLengthEncoded<T>,
    index: usize,
    run_index: usize,
}

/// The sequence that a list of runs stands for.
pub open spec fn expand<T>(runs: Seq<RunLength<T>>) -> Seq<T>
    decreases runs.len(),
{
    if runs.len() == 0 {
        Seq::empty()
    } else {
        expand(runs.drop_last()) + Seq::new(
            runs.last().run_length as nat,
            |i: int| runs.last().value,
        )
    }
}

/// `count` copies of `value`.
pub open spec fn repeat<T>(value: T, count: nat) -> Seq<T> {
    Seq::new(count, |i: int| value)
}

/// Every run holds at least one element.
pub open spec fn runs_nonempty<T>(runs: Seq<RunLength<T>>) -> bool {
    forall|i: int| 0 <= i < runs.len() ==> (#[trigger] runs[i]).run_length >= 1
}

/// No two neighbouring runs hold values that compare equal.
pub open spec fn runs_coalesced<T: PartialEq>(runs: Seq<RunLength<T>>) -> bool {
    forall|i: int|
        0 <= i < runs.len() - 1 ==> !(#[trigger] runs[i]).value.eq_spec(&runs[i + 1].value)
}

/// Expanding a list of runs with one more run appended adds that run's copies.
pub proof fn lemma_expand_push<T>(runs: Seq<RunLength<T>>, run: RunLength<T>)
    ensures
        expand(runs.push(run)) == expand(runs) + repeat(run.value, run.run_length as nat),
{
    assert(runs.push(run).drop_last() == runs);
}

/// The elements of run `index` occupy a contiguous block of the expansion that
/// starts where the expansion of the earlier runs ends.
pub proof fn lemma_expand_run<T>(runs: Seq<RunLength<T>>, index: int)
    requires
        0 <= index < runs.len(),
    ensures
        expand(runs.take(index + 1)) == expand(runs.take(index)) + repeat(
            runs[index].value,
            runs[index].run_length as nat,
        ),
        expand(runs.take(index + 1)).len() <= expand(runs).len(),
        expand(runs.take(index + 1)) == expand(runs).take(
            expand(runs.take(index + 1)).len() as int,
        ),
    decreases runs.len(),
{
    assert(runs.take(index + 1).drop_last() == runs.take(index));
    if index == runs.len() - 1 {
        assert(runs.take(index + 1) == runs);
    } else {
        let shorter = runs.drop_last();
        lemma_expand_run(shorter, index);
        assert(shorter.take(index + 1) == runs.take(index + 1));
        assert(shorter.take(index) == runs.take(index));
        let whole = expand(runs);
        let part = expand(runs.take(index + 1));
        assert(part == whole.take(part.len() as int)) by {
            assert(expand(shorter).take(part.len() as int) == whole.take(part.len() as int));
        }
    }
}

impl<T> RunLength<T> {
    pub fn new(value: T, run_length: usize) -> (run: RunLength<T>)
        ensures
            run.value == value,
            run.run_length == run_length,
    {
        RunLength { value, run_length }
    }

    pub fn increment_by(&mut self, increment: usize)
        requires
            old(self).run_length + increment <= usize::MAX,
        ensures
            final(self).value == old(self).value,
            final(self).run_length == old(self).run_length + increment,
    {
        self.run_length = self.run_length + increment;
    }
}

impl<T> RunLengthEncoded<T> {
    /// The stored runs, oldest first.
    pub closed spec fn runs(&self) -> Seq<RunLength<T>> {
        self.run_lengths@
    }

    /// The logical sequence: every run written out in full.
    pub open spec fn view(&self) -> Seq<T> {
        expand(self.runs())
    }

    /// Every run is non-empty and the logical length fits in a `usize`.
    pub open spec fn wf(&self) -> bool {
        &&& runs_nonempty(self.runs())
        &&& self@.len() <= usize::MAX
    }

    /// Number of stored runs.
    pub fn run_count(&self) -> (count: usize)
        ensures
            count == self.runs().len(),
    {
        self.run_lengths.len()
    }

    /// The run stored at position `index`.
    pub fn run(&self, index: usize) -> (run: &RunLength<T>)
        requires
            index < self.runs().len(),
        ensures
            *run == self.runs()[index as int],
    {
        &self.run_lengths[index]
    }

    /// Tells whether the container is well-formed.
    pub fn is_valid(&self) -> (valid: bool)
        ensures
            valid == self.wf(),
    {
        let mut total: usize = 0;
        let mut i: usize = 0;
        while i < self.run_lengths.len()
            invariant
                i <= self.run_lengths.len(),
                total == expand(self.runs().take(i as int)).len(),
                forall|k: int| 0 <= k < i ==> (#[trigger] self.runs()[k]).run_length >= 1,
            decreases self.run_lengths.len() - i,
        {
            proof {
                lemma_expand_run(self.runs(), i as int);
            }
            let run_length = self.run_lengths[i].run_length;
            if run_length < 1 || run_length > usize::MAX - total {
                return false;
            }
            total = total + run_length;
            i = i + 1;
        }
        proof {
            assert(self.runs().take(i as int) == self.runs());
        }
        true
    }

    /// Number of logical elements.
    pub fn len(&self) -> (length: usize)
        requires
            self.wf(),
        ensures
            length == self@.len(),
    {
        let mut total: usize = 0;
        let mut i: usize = 0;
        while i < self.run_lengths.len()
            invariant
                self.wf(),
                i <= self.run_lengths.len(),
                total == expand(self.runs().take(i as int)).len(),
            decreases self.run_lengths.len() - i,
        {
            proof {
                lemma_expand_run(self.runs(), i as int);
            }
            total = total + self.run_lengths[i].run_length;
            i = i + 1;
        }
        proof {
            assert(self.runs().take(i as int) == self.runs());
        }
        total
    }

    /// The logical element at position `index`, found by walking the runs.
    pub fn get(&self, index: usize) -> (element: &T)
        requires
            self.wf(),
            index < self@.len(),
        ensures
            *element == self@[index as int],
    {
        let mut start: usize = 0;
        let mut i: usize = 0;
        loop
            invariant
                self.wf(),
                index < self@.len(),
                i < self.run_lengths.len(),
                start == expand(self.runs().take(i as int)).len(),
                start <= index,
            decreases self.run_lengths.len() - i,
        {
            proof {
                lemma_expand_run(self.runs(), i as int);
            }
            let run = &self.run_lengths[i];
            if index - start < run.run_length {
                proof {
                    let part = expand(self.runs().take(i + 1));
                    assert(part[index as int] == run.value);
                    assert(self@.take(part.len() as int)[index as int] == self@[index as int]);
                }
                return &run.value;
            }
            start = start + run.run_length;
            i = i + 1;
            proof {
                if i == self.run_lengths.len() {
                    assert(self.runs().take(i as int) == self.runs());
                }
            }
        }
    }

    /// Every logical element, in order, as the cursor hands them out.
    pub fn items(&self) -> (items: Vec<&T>)
        requires
            self.wf(),
        ensures
            items@.len() == self@.len(),
            forall|i: int| 0 <= i < items@.len() ==> *(#[trigger] items@[i]) == self@[i],
    {
        let mut items: Vec<&T> = Vec::new();
        let mut iterator = self.iter();
        loop
            invariant
                iterator.wf(),
                iterator.source() == self,
                iterator.position() == items@.len(),
                items@.len() <= self@.len(),
                forall|i: int| 0 <= i < items@.len() ==> *(#[trigger] items@[i]) == self@[i],
            ensures
                items@.len() == self@.len(),
                forall|i: int| 0 <= i < items@.len() ==> *(#[trigger] items@[i]) == self@[i],
            decreases self@.len() - items@.len(),
        {
            match iterator.next() {
                Some(item) => {
                    items.push(item);
                },
                None => {
                    break ;
                },
            }
        }
        items
    }

    /// A cursor placed before the first logical element.
    pub fn iter(&self) -> (iterator: RunLengthIterator<'_, T>)
        requires
            self.wf(),
        ensures
            iterator.wf(),
            iterator.source() == self,
            iterator.position() == 0,
    {
        proof {
            assert(self.runs().take(0) == Seq::<RunLength<T>>::empty());
        }
        RunLengthIterator { run_length_encoded: self, index: 0, run_index: 0 }
    }
}

impl<T: PartialEq + Clone> RunLengthEncoded<T> {
    /// No two neighbouring runs hold equal values.
    pub open spec fn coalesced(&self) -> bool {
        runs_coalesced(self.runs())
    }

    /// The value that a push of `value` stores: the one already held by the
    /// last run where the two compare equal, else `value` itself.
    pub open spec fn stored_value(&self, value: T) -> T {
        if self.continues_run(value) {
            self.runs().last().value
        } else {
            value
        }
    }

    /// The sequence `after` is this one with `count` more elements, all of
    /// them `value` or all of them the value of the last run.
    pub open spec fn appended(&self, after: Seq<T>, value: T, count: nat) -> bool {
        ||| after == self@ + repeat(value, count)
        ||| self.runs().len() > 0 && after == self@ + repeat(self.runs().last().value, count)
    }

    /// A push of `value` extends the last run instead of starting a new one.
    pub open spec fn continues_run(&self, value: T) -> bool {
        self.runs().len() > 0 && self.runs().last().value.eq_spec(&value)
    }

    /// Tells whether no two neighbouring runs hold equal values.
    pub fn is_coalesced(&self) -> (coalesced: bool)
        ensures
            T::obeys_eq_spec() ==> coalesced == self.coalesced(),
    {
        let mut i: usize = 1;
        while i < self.run_lengths.len()
            invariant
                1 <= i,
                T::obeys_eq_spec() ==> forall|k: int|
                    0 <= k < i - 1 && k < self.runs().len() - 1 ==> !(
                    #[trigger] self.runs()[k]).value.eq_spec(&self.runs()[k + 1].value),
            decreases self.run_lengths.len() - i,
        {
            if self.run_lengths[i - 1].value == self.run_lengths[i].value {
                return false;
            }
            i = i + 1;
        }
        true
    }

    pub fn new() -> (encoded: RunLengthEncoded<T>)
        ensures
            encoded.wf(),
            encoded.coalesced(),
            encoded.runs() == Seq::<RunLength<T>>::empty(),
            encoded@ == Seq::<T>::empty(),
    {
        RunLengthEncoded { run_lengths: Vec::new() }
    }

    /// Appends one element.
    pub fn push(&mut self, value: T)
        requires
            old(self).wf(),
            old(self)@.len() + 1 <= usize::MAX,
        ensures
            final(self).wf(),
            old(self).appended(final(self)@, value, 1),
            T::obeys_eq_spec() ==> final(self)@ == old(self)@.push(old(self).stored_value(value)),
            T::obeys_eq_spec() && old(self).coalesced() ==> final(self).coalesced(),
            final(self)@.len() == old(self)@.len() + 1,
    {
        self.push_run(value, 1);
        proof {
            assert(old(self)@ + repeat(old(self).stored_value(value), 1) == old(self)@.push(
                old(self).stored_value(value),
            ));
        }
    }

    /// Appends `count` copies of `value`, extending the last run where its
    /// value compares equal to `value`.
    pub fn push_run(&mut self, value: T, count: usize)
        requires
            old(self).wf(),
            count >= 1,
            old(self)@.len() + count <= usize::MAX,
        ensures
            final(self).wf(),
            final(self)@.len() == old(self)@.len() + count,
            old(self).appended(final(self)@, value, count as nat),
            T::obeys_eq_spec() ==> final(self)@ == old(self)@ + repeat(
                old(self).stored_value(value),
                count as nat,
            ),
            T::obeys_eq_spec() ==> final(self).runs() == (if old(self).continues_run(value) {
                old(self).runs().drop_last().push(
                    RunLength {
                        value: old(self).runs().last().value,
                        run_length: (old(self).runs().last().run_length + count) as usize,
                    },
                )
            } else {
                old(self).runs().push(RunLength { value, run_length: count })
            }),
            T::obeys_eq_spec() && old(self).coalesced() ==> final(self).coalesced(),
    {
        let run_count = self.run_lengths.len();
        let continue_run = run_count > 0 && self.run_lengths[run_count - 1].value == value;
        if continue_run {
            let mut last = self.run_lengths.pop().unwrap();
            proof {
                let before = old(self).runs();
                assert(self.runs() == before.drop_last());
                assert(before == before.drop_last().push(before.last()));
                lemma_expand_push(before.drop_last(), before.last());
            }
            last.increment_by(count);
            proof {
                lemma_expand_push(self.runs(), last);
                let earlier = expand(self.runs());
                let kept = old(self).runs().last().value;
                let held = old(self).runs().last().run_length as nat;
                assert(repeat(kept, held) + repeat(kept, count as nat) == repeat(
                    kept,
                    held + count as nat,
                ));
                assert(earlier + repeat(kept, held + count as nat) == (earlier + repeat(
                    kept,
                    held,
                )) + repeat(kept, count as nat));
            }
            self.run_lengths.push(last);
        } else {
            proof {
                lemma_expand_push(self.runs(), RunLength { value, run_length: count });
            }
            self.run_lengths.push(RunLength::new(value, count));
        }
    }

    /// A copy of the logical element at position `index`.
    pub fn nth(&self, index: usize) -> (element: T)
        requires
            self.wf(),
            index < self@.len(),
        ensures
            cloned(self@[index as int], element),
    {
        self.get(index).clone()
    }
}

impl<'a, T: 'a> RunLengthIterator<'a, T> {
    /// The container that the cursor walks.
    pub closed spec fn source(&self) -> &'a RunLengthEncoded<T> {
        self.run_length_encoded
    }

    /// Number of logical elements already handed out.
    pub closed spec fn position(&self) -> nat {
        expand(self.source().runs().take(self.index as int)).len() + self.run_index as nat
    }

    /// The cursor points inside a run of a well-formed container, or past the
    /// last run.
    pub closed spec fn wf(&self) -> bool {
        let runs = self.source().runs();
        &&& self.source().wf()
        &&& self.index <= runs.len()
        &&& self.index < runs.len() ==> self.run_index < runs[self.index as int].run_length
        &&& self.index == runs.len() ==> self.run_index == 0
    }

    /// Hands out the next logical element, or `None` once all were handed out.
    pub fn next(&mut self) -> (element: Option<&'a T>)
        requires
            old(self).wf(),
        ensures
            final(self).wf(),
            final(self).source() == old(self).source(),
            old(self).position() <= old(self).source()@.len(),
            old(self).position() < old(self).source()@.len() ==> element == Some(
                &old(self).source()@[old(self).position() as int],
            ) && final(self).position() == old(self).position() + 1,
            old(self).position() >= old(self).source()@.len() ==> element.is_none()
                && final(self).position() == old(self).position(),
    {
        let encoded: &'a RunLengthEncoded<T> = self.run_length_encoded;
        let num_run_lengths = encoded.run_lengths.len();
        if self.index >= num_run_lengths {
            proof {
                assert(encoded.runs().take(self.index as int) == encoded.runs());
            }
            return None;
        }
        proof {
            lemma_expand_run(encoded.runs(), self.index as int);
            let part = expand(encoded.runs().take(self.index + 1));
            let at = old(self).position() as int;
            assert(part[at] == encoded.runs()[self.index as int].value);
            assert(encoded@.take(part.len() as int)[at] == encoded@[at]);
        }
        let run_length = &encoded.run_lengths[self.index];
        if self.run_index == run_length.run_length - 1 {
            self.index = self.index + 1;
            self.run_index = 0;
        } else {
            self.run_index = self.run_index + 1;
        }
        Some(&run_length.value)
    }
}

} // verus!
