//! A bidirectional, auto-extending tape of cells with a single head.
//!
//! A tape never shrinks: moving left of the first cell prepends an `Empty`
//! cell, moving right of the last cell appends one. Each of the four stepping
//! operations (`left`, `right`, `read`, `write`) ticks a step counter passed
//! in by the caller; several tapes can share one counter by threading the same
//! `u64` through all of their operations.

use vstd::prelude::*;

verus! {

/// One cell of a tape: empty, or holding one symbol.
#[derive(Clone, Copy, PartialEq, Eq, Debug)]
pub enum TapeValue<T> {
    Empty,
    Value(T),
}

/// One entry of the descriptor list a tape is built from: a plain cell, or
/// the cell the head starts on.
#[derive(Clone, Copy, PartialEq, Eq, Debug)]
pub enum TapeConstructor<T> {
    Value(TapeValue<T>),
    Head(TapeValue<T>),
}

/// The cell carried by a descriptor, with the head tag stripped.
pub open spec fn tc_value<T>(c: TapeConstructor<T>) -> TapeValue<T> {
    match c {
        TapeConstructor::Value(v) => v,
        TapeConstructor::Head(v) => v,
    }
}

/// Whether a descriptor is tagged as the head.
pub open spec fn is_head<T>(c: TapeConstructor<T>) -> bool {
    c matches TapeConstructor::Head(_)
}

/// The descriptor list has its one and only head marker at index `h`.
pub open spec fn is_head_at<T>(s: Seq<TapeConstructor<T>>, h: int) -> bool {
    &&& 0 <= h < s.len()
    &&& is_head(s[h])
    &&& forall|j: int| 0 <= j < s.len() && j != h ==> !is_head(#[trigger] s[j])
}

/// The descriptor list carries exactly one head marker.
pub open spec fn has_unique_head<T>(s: Seq<TapeConstructor<T>>) -> bool {
    exists|h: int| is_head_at(s, h)
}

/// The mathematical value of a tape: its cell sequence and head index.
#[verifier::ext_equal]
pub struct TapeModel<T> {
    pub cells: Seq<TapeValue<T>>,
    pub head: int,
}

impl<T> TapeModel<T> {
    /// A tape is well formed when it has at least one cell and the head is a
    /// valid index.
    pub open spec fn wf(self) -> bool {
        &&& self.cells.len() > 0
        &&& 0 <= self.head < self.cells.len()
    }
}

/// The tape after a `left` step: the head moves one cell left, except at the
/// first cell, where an `Empty` cell is prepended and the head stays at 0.
pub open spec fn left_model<T>(m: TapeModel<T>) -> TapeModel<T> {
    if m.head > 0 {
        TapeModel { cells: m.cells, head: m.head - 1 }
    } else {
        TapeModel { cells: seq![TapeValue::Empty].add(m.cells), head: 0 }
    }
}

/// The tape after a `right` step: the head moves one cell right; at the last
/// cell, an `Empty` cell is appended first.
pub open spec fn right_model<T>(m: TapeModel<T>) -> TapeModel<T> {
    if m.head == m.cells.len() - 1 {
        TapeModel { cells: m.cells.push(TapeValue::Empty), head: m.head + 1 }
    } else {
        TapeModel { cells: m.cells, head: m.head + 1 }
    }
}

/// A step counter after one tick. The counter is pure instrumentation, so it
/// saturates instead of wrapping once it can no longer count.
pub open spec fn bump(c: u64) -> u64 {
    if c < u64::MAX {
        (c + 1) as u64
    } else {
        c
    }
}

/// Advances a step counter by one tick.
fn tick(steps: &mut u64)
    ensures
        *final(steps) == bump(*old(steps)),
{
    if *steps < u64::MAX {
        *steps = *steps + 1;
    }
}

/// The counter value after `n` further ticks.
pub open spec fn bump_n(c: u64, n: nat) -> u64
    decreases n,
{
    if n == 0 {
        c
    } else {
        bump(bump_n(c, (n - 1) as nat))
    }
}

/// A step counter totals exactly the operations it was threaded through:
/// starting from `c`, `n` ticks — split in any way among the tapes that share
/// the counter — leave it at `c + n`, as long as the total stays in range.
pub proof fn lemma_counter_totals(c: u64, n: nat)
    requires
        c + n <= u64::MAX,
    ensures
        bump_n(c, n) == c + n,
    decreases n,
{
    if n > 0 {
        lemma_counter_totals(c, (n - 1) as nat);
    }
}

/// Checks a descriptor list for exactly one head marker: what `Tape::new`
/// requires of its input.
pub fn descriptors_have_unique_head<T: Copy>(desc: &Vec<TapeConstructor<T>>) -> (r: bool)
    ensures
        r == has_unique_head(desc@),
{
    let mut found = false;
    let mut head: usize = 0;
    let mut index: usize = 0;
    while index < desc.len()
        invariant
            index <= desc@.len(),
            found ==> 0 <= head < index && is_head(desc@[head as int]),
            !found ==> forall|j: int| 0 <= j < index as int ==> !is_head(#[trigger] desc@[j]),
            found ==> forall|j: int|
                0 <= j < index as int && j != head as int ==> !is_head(#[trigger] desc@[j]),
        decreases desc@.len() - index,
    {
        if let TapeConstructor::Head(_) = desc[index] {
            if found {
                proof {
                    assert forall|h: int| !is_head_at(desc@, h) by {
                        if is_head_at(desc@, h) {
                            if h == head as int {
                                assert(!is_head(desc@[index as int]));
                            } else {
                                assert(!is_head(desc@[head as int]));
                            }
                        }
                    }
                }
                return false;
            }
            found = true;
            head = index;
        }
        index += 1;
    }
    proof {
        if found {
            assert(is_head_at(desc@, head as int));
        } else {
            assert forall|h: int| !is_head_at(desc@, h) by {
                if 0 <= h < desc@.len() {
                    assert(!is_head(desc@[h]));
                }
            }
        }
    }
    found
}

/// A bidirectional, auto-extending tape with one head.
#[derive(PartialEq, Eq, Debug)]
pub struct Tape<T> {
    head: usize,
    data: Vec<TapeValue<T>>,
}

impl<T: Copy> Clone for Tape<T> {
    /// A clone carries the same cells and head index as the original.
    fn clone(&self) -> (res: Self)
        ensures
            res@ == self@,
    {
        let mut data: Vec<TapeValue<T>> = Vec::new();
        let mut index: usize = 0;
        while index < self.data.len()
            invariant
                index <= self.data@.len(),
                data@.len() == index,
                forall|i: int| 0 <= i < index as int ==> data@[i] == self.data@[i],
            decreases self.data@.len() - index,
        {
            data.push(self.data[index]);
            index += 1;
        }
        proof {
            assert(data@ =~= self.data@);
        }
        let res = Tape { head: self.head, data };
        proof {
            assert(res@ =~= self@);
        }
        res
    }
}

impl<T> View for Tape<T> {
    type V = TapeModel<T>;

    closed spec fn view(&self) -> TapeModel<T> {
        TapeModel { cells: self.data@, head: self.head as int }
    }
}

impl<T: Copy> Tape<T> {
    /// Builds a tape from a descriptor list, which must carry exactly one
    /// head marker.
    pub fn new(initial_data: Vec<TapeConstructor<T>>) -> (tape: Self)
        requires
            has_unique_head(initial_data@),
        ensures
            tape@.wf(),
            tape@.cells.len() == initial_data@.len(),
            forall|i: int|
                0 <= i < initial_data@.len() ==> tape@.cells[i] == tc_value(#[trigger] initial_data@[i]),
            is_head_at(initial_data@, tape@.head),
    {
        let mut data: Vec<TapeValue<T>> = Vec::new();
        let mut head: usize = 0;
        let mut found = false;
        let mut index: usize = 0;
        while index < initial_data.len()
            invariant
                index <= initial_data@.len(),
                data@.len() == index,
                forall|i: int|
                    0 <= i < index as int ==> data@[i] == tc_value(#[trigger] initial_data@[i]),
                found ==> 0 <= head < index && is_head(initial_data@[head as int]),
                !found ==> forall|j: int| 0 <= j < index as int ==> !is_head(#[trigger] initial_data@[j]),
            decreases initial_data@.len() - index,
        {
            let c = initial_data[index];
            if let TapeConstructor::Head(_) = c {
                head = index;
                found = true;
            }
            data.push(match c {
                TapeConstructor::Value(v) => v,
                TapeConstructor::Head(v) => v,
            });
            index += 1;
        }
        proof {
            let h = choose|h: int| is_head_at(initial_data@, h);
            assert(is_head_at(initial_data@, h));
            assert(found);
            assert(head as int == h);
        }
        Tape { head, data }
    }

    /// Whether the head sits on the first cell.
    pub fn is_at_head(&self) -> (r: bool)
        ensures
            r == (self@.head == 0),
    {
        self.head == 0
    }

    /// Moves the head one cell left, growing the tape with an `Empty` cell
    /// when it is already on the first cell. Ticks the step counter once.
    pub fn left(&mut self, steps: &mut u64)
        requires
            old(self)@.wf(),
        ensures
            final(self)@ == left_model(old(self)@),
            final(self)@.wf(),
            *final(steps) == bump(*old(steps)),
    {
        tick(steps);
        if !self.is_at_head() {
            self.head = self.head - 1;
        } else {
            self.data.insert(0, TapeValue::Empty);
            proof {
                assert(self@.cells =~= seq![TapeValue::<T>::Empty].add(old(self)@.cells));
            }
        }
        proof {
            assert(self@ =~= left_model(old(self)@));
        }
    }

    /// Whether the head sits on the last cell.
    pub fn is_at_end(&self) -> (r: bool)
        requires
            self@.wf(),
        ensures
            r == (self@.head == self@.cells.len() - 1),
    {
        self.head == self.data.len() - 1
    }

    /// Moves the head one cell right, growing the tape with an `Empty` cell
    /// when it is already on the last cell. Ticks the step counter once.
    pub fn right(&mut self, steps: &mut u64)
        requires
            old(self)@.wf(),
        ensures
            final(self)@ == right_model(old(self)@),
            final(self)@.wf(),
            *final(steps) == bump(*old(steps)),
    {
        tick(steps);
        let last = self.data.len() - 1;
        if self.head == last {
            self.data.push(TapeValue::Empty);
        }
        self.head = self.head + 1;
        proof {
            assert(self@ =~= right_model(old(self)@));
        }
    }

    /// Returns the cell under the head. Ticks the step counter once.
    #[must_use]
    pub fn read(&self, steps: &mut u64) -> (r: TapeValue<T>)
        requires
            self@.wf(),
        ensures
            r == self@.cells[self@.head],
            *final(steps) == bump(*old(steps)),
    {
        tick(steps);
        self.data[self.head]
    }

    /// Replaces the cell under the head. Ticks the step counter once.
    pub fn write(&mut self, value: TapeValue<T>, steps: &mut u64)
        requires
            old(self)@.wf(),
        ensures
            final(self)@.cells == old(self)@.cells.update(old(self)@.head, value),
            final(self)@.head == old(self)@.head,
            final(self)@.wf(),
            *final(steps) == bump(*old(steps)),
    {
        tick(steps);
        self.data[self.head] = value;
    }

    /// The raw cell sequence.
    #[must_use]
    pub fn data(&self) -> (r: &Vec<TapeValue<T>>)
        ensures
            r@ == self@.cells,
    {
        &self.data
    }

    /// The head index.
    #[must_use]
    pub fn head(&self) -> (r: usize)
        ensures
            r as int == self@.head,
    {
        self.head
    }

    /// Serializes the tape back to descriptor form, marking the head.
    #[must_use]
    pub fn as_constructor(&self) -> (r: Vec<TapeConstructor<T>>)
        ensures
            r@ == constructor_view(self@),
    {
        let mut tape_constructors: Vec<TapeConstructor<T>> = Vec::new();
        let mut index: usize = 0;
        while index < self.data.len()
            invariant
                index <= self@.cells.len(),
                tape_constructors@.len() == index,
                forall|i: int|
                    0 <= i < index as int ==> tape_constructors@[i] == constructor_view(self@)[i],
            decreases self@.cells.len() - index,
        {
            if index == self.head {
                tape_constructors.push(TapeConstructor::Head(self.data[index]));
            } else {
                tape_constructors.push(TapeConstructor::Value(self.data[index]));
            }
            index += 1;
        }
        proof {
            assert(tape_constructors@ =~= constructor_view(self@));
        }
        tape_constructors
    }
}

/// The descriptor list that `as_constructor` reads back from a tape.
pub open spec fn constructor_view<T>(m: TapeModel<T>) -> Seq<TapeConstructor<T>> {
    Seq::new(
        m.cells.len(),
        |i: int|
            if i == m.head {
                TapeConstructor::Head(m.cells[i])
            } else {
                TapeConstructor::Value(m.cells[i])
            },
    )
}

/// A tape built from a valid descriptor list serializes back to exactly that
/// list: `as_constructor` right after `new` reproduces the constructor input.
pub proof fn lemma_constructor_round_trip<T>(desc: Seq<TapeConstructor<T>>, m: TapeModel<T>)
    requires
        m.cells.len() == desc.len(),
        forall|i: int| 0 <= i < desc.len() ==> m.cells[i] == tc_value(#[trigger] desc[i]),
        is_head_at(desc, m.head),
    ensures
        constructor_view(m) == desc,
{
    assert forall|i: int| 0 <= i < desc.len() implies constructor_view(m)[i] == desc[i] by {
        if i == m.head {
            assert(is_head(desc[i]));
        } else {
            assert(!is_head(desc[i]));
        }
    }
    assert(constructor_view(m) =~= desc);
}

/// `left` followed by `right` restores the head index and the cell contents,
/// unless the left step crossed the tape's first cell: then the tape has
/// grown by exactly one `Empty` cell at the front, permanently, and the head
/// is back over the cell it started on.
pub proof fn lemma_left_right_round_trip<T>(m: TapeModel<T>)
    requires
        m.wf(),
    ensures
        m.head > 0 ==> right_model(left_model(m)) == m,
        m.head == 0 ==> right_model(left_model(m)) == (TapeModel {
            cells: seq![TapeValue::<T>::Empty].add(m.cells),
            head: 1,
        }),
{
    if m.head > 0 {
        assert(right_model(left_model(m)) =~= m);
    } else {
        let grown = seq![TapeValue::<T>::Empty].add(m.cells);
        assert(grown.len() == m.cells.len() + 1);
        assert(right_model(left_model(m)) =~= TapeModel { cells: grown, head: 1 });
    }
}

} // verus!
