//! What all machine variants share: the two tape alphabets, the shape
//! preconditions each machine checks at construction, the injectable source
//! of coin flips, the pair of tapes a destroyed machine surrenders, and the
//! standalone, step-counted verifier machine.

use vstd::prelude::*;

use crate::tape::{
    bump, has_unique_head, is_head_at, tc_value, Tape, TapeConstructor, TapeModel, TapeValue,
};
use crate::words::{
    blank_cells, block_at, block_len, block_list_shape, grows_right, is_aux_letter, is_subseq,
    lemma_block_len_facts, lemma_grows_right_trans, lemma_grows_right_vcell,
    lemma_subseq_greedy_step, lemma_word_len_facts, vcell, word_at, word_len,
};

verus! {

/// The main-tape alphabet: block symbols and the block delimiter.
#[derive(Clone, Copy, PartialEq, Eq, Debug, Structural)]
pub enum MainValue {
    A,
    B,
    Hash,
}

/// The auxiliary-tape alphabet.
#[derive(Clone, Copy, PartialEq, Eq, Debug, Structural)]
pub enum AuxValue {
    A,
    B,
}

/// The verifier's main-tape precondition: the head rests on the delimiter
/// that precedes a non-empty block.
pub open spec fn verifier_main_ok(m: TapeModel<MainValue>) -> bool {
    &&& m.wf()
    &&& m.cells[m.head] == TapeValue::Value(MainValue::Hash)
    &&& block_len(m.cells, m.head + 1) >= 1
}

/// The verifier's auxiliary-tape precondition: the head rests on an empty
/// sentinel with only empty cells to its left, a non-empty word immediately
/// to its right, and only empty cells past that word.
pub open spec fn verifier_aux_ok(a: TapeModel<AuxValue>) -> bool {
    &&& a.wf()
    &&& forall|x: int| 0 <= x <= a.head ==> a.cells[x] == TapeValue::<AuxValue>::Empty
    &&& word_len(a.cells, a.head + 1) >= 1
    &&& forall|x: int|
        a.head + 1 + word_len(a.cells, a.head + 1) <= x < a.cells.len() ==> a.cells[x]
            == TapeValue::<AuxValue>::Empty
}

/// The generator's main-tape precondition: the head rests on an empty cell
/// with only empty cells to its left, immediately left of a non-empty block
/// terminated by a delimiter.
pub open spec fn generator_main_ok(m: TapeModel<MainValue>) -> bool {
    &&& m.wf()
    &&& forall|x: int| 0 <= x <= m.head ==> m.cells[x] == TapeValue::<MainValue>::Empty
    &&& block_len(m.cells, m.head + 1) >= 1
    &&& vcell(m.cells, m.head + 1 + block_len(m.cells, m.head + 1)) == TapeValue::Value(
        MainValue::Hash,
    )
}

/// The orchestrator's main-tape precondition: the head rests on an empty cell
/// with only empty cells to its left, followed by one or more non-empty
/// blocks separated by delimiters and then nothing but empty cells.
pub open spec fn orchestrator_main_ok(m: TapeModel<MainValue>) -> bool {
    &&& m.wf()
    &&& forall|x: int| 0 <= x <= m.head ==> m.cells[x] == TapeValue::<MainValue>::Empty
    &&& block_list_shape(m.cells, m.head)
}

/// An entirely blank, well-formed tape.
pub open spec fn blank_aux_ok(a: TapeModel<AuxValue>) -> bool {
    &&& a.wf()
    &&& blank_cells(a.cells)
}

/// The length of the block just right of the main-tape head.
pub open spec fn head_block_len(m: TapeModel<MainValue>) -> int {
    block_len(m.cells, m.head + 1) as int
}

/// The block just right of the main-tape head.
pub open spec fn head_block(m: TapeModel<MainValue>) -> Seq<AuxValue> {
    block_at(m.cells, m.head + 1)
}

/// The word just right of the auxiliary-tape head.
pub open spec fn head_word(a: TapeModel<AuxValue>) -> Seq<AuxValue> {
    word_at(a.cells, a.head + 1)
}

/// A supply of coin flips handed to the machines that draw random symbols.
/// The flips are injected by the caller, so a run is a deterministic function
/// of its tapes and its coins; uniform randomness is the caller's concern.
pub struct CoinFlips {
    flips: Vec<bool>,
    next: usize,
}

impl CoinFlips {
    /// The flips this supply was built over.
    pub closed spec fn flips(&self) -> Seq<bool> {
        self.flips@
    }

    /// The index of the next flip to be handed out.
    pub closed spec fn next(&self) -> int {
        self.next as int
    }

    pub open spec fn wf(&self) -> bool {
        0 <= self.next() <= self.flips().len()
    }

    /// How many flips are still available.
    pub open spec fn spec_remaining(&self) -> int {
        self.flips().len() - self.next()
    }

    /// Builds a supply that hands out the given flips in order.
    pub fn new(flips: Vec<bool>) -> (r: Self)
        ensures
            r.wf(),
            r.flips() == flips@,
            r.next() == 0,
    {
        CoinFlips { flips, next: 0 }
    }

    /// How many flips are still available.
    pub fn remaining(&self) -> (r: usize)
        requires
            self.wf(),
        ensures
            r as int == self.spec_remaining(),
    {
        self.flips.len() - self.next
    }

    /// Hands out the next flip.
    pub fn flip(&mut self) -> (r: bool)
        requires
            old(self).wf(),
            old(self).spec_remaining() >= 1,
        ensures
            final(self).wf(),
            r == old(self).flips()[old(self).next()],
            final(self).flips() == old(self).flips(),
            final(self).next() == old(self).next() + 1,
    {
        let n = self.flips.len();
        proof {
            assert(self.next < n);
        }
        let r = self.flips[self.next];
        self.next = self.next + 1;
        r
    }
}

/// The pair of final tapes a machine surrenders when it is destroyed.
pub struct DestroyOutput {
    main_tape: Tape<MainValue>,
    aux_tape: Tape<AuxValue>,
}

impl DestroyOutput {
    /// The model of the surrendered main tape.
    pub closed spec fn main_model(&self) -> TapeModel<MainValue> {
        self.main_tape@
    }

    /// The model of the surrendered auxiliary tape.
    pub closed spec fn aux_model(&self) -> TapeModel<AuxValue> {
        self.aux_tape@
    }

    /// Wraps the two final tapes for hand-over to the caller.
    pub fn new(main_tape: Tape<MainValue>, aux_tape: Tape<AuxValue>) -> (r: Self)
        ensures
            r.main_model() == main_tape@,
            r.aux_model() == aux_tape@,
    {
        DestroyOutput { main_tape, aux_tape }
    }

    /// The surrendered main tape.
    pub fn main_tape(&self) -> (r: &Tape<MainValue>)
        ensures
            r@ == self.main_model(),
    {
        &self.main_tape
    }

    /// The surrendered auxiliary tape.
    pub fn aux_tape(&self) -> (r: &Tape<AuxValue>)
        ensures
            r@ == self.aux_model(),
    {
        &self.aux_tape
    }
}

/// Whether a main-tape cell holds a block symbol.
fn is_block_symbol(c: TapeValue<MainValue>) -> (r: bool)
    ensures
        r == crate::words::is_main_letter(c),
{
    match c {
        TapeValue::Value(MainValue::A) => true,
        TapeValue::Value(MainValue::B) => true,
        _ => false,
    }
}

/// The length of the maximal run of block symbols starting at `start`.
fn block_span_from(t: &Tape<MainValue>, start: usize) -> (r: usize)
    requires
        t@.wf(),
        start as int <= t@.cells.len(),
    ensures
        r as int == block_len(t@.cells, start as int),
        start as int + r as int <= t@.cells.len(),
{
    let cells = t.data();
    let mut i: usize = start;
    loop
        invariant
            t@.wf(),
            cells@ == t@.cells,
            start as int <= i as int <= t@.cells.len(),
            forall|x: int|
                start as int <= x < i as int ==> crate::words::is_main_letter(#[trigger] t@.cells[x]),
        ensures
            start as int <= i as int <= t@.cells.len(),
            forall|x: int|
                start as int <= x < i as int ==> crate::words::is_main_letter(#[trigger] t@.cells[x]),
            !crate::words::is_main_letter(vcell(t@.cells, i as int)),
        decreases t@.cells.len() - i as int,
    {
        if i >= cells.len() {
            break ;
        }
        if !is_block_symbol(cells[i]) {
            break ;
        }
        i += 1;
    }
    let r = i - start;
    proof {
        assert forall|x: int| 0 <= x < r as int implies crate::words::is_main_letter(
            #[trigger] vcell(t@.cells, start as int + x),
        ) by {
            assert(crate::words::is_main_letter(t@.cells[start as int + x]));
        }
        crate::words::lemma_block_len_unique(t@.cells, start as int, r as int);
    }
    r
}

/// The length of the block just right of the main-tape head.
pub fn first_block_len(t: &Tape<MainValue>) -> (r: usize)
    requires
        t@.wf(),
    ensures
        r as int == head_block_len(t@),
{
    let total = t.data().len();
    let h = t.head();
    proof {
        assert(h < total);
    }
    block_span_from(t, h + 1)
}

/// Whether an auxiliary-tape cell holds a written symbol.
fn is_written_symbol(c: TapeValue<AuxValue>) -> (r: bool)
    ensures
        r == crate::words::is_aux_letter(c),
{
    match c {
        TapeValue::Value(_) => true,
        TapeValue::Empty => false,
    }
}

/// The length of the maximal run of written symbols starting at `start`.
fn word_span_from(t: &Tape<AuxValue>, start: usize) -> (r: usize)
    requires
        t@.wf(),
        start as int <= t@.cells.len(),
    ensures
        r as int == word_len(t@.cells, start as int),
        start as int + r as int <= t@.cells.len(),
{
    let cells = t.data();
    let mut i: usize = start;
    loop
        invariant
            t@.wf(),
            cells@ == t@.cells,
            start as int <= i as int <= t@.cells.len(),
            forall|x: int|
                start as int <= x < i as int ==> crate::words::is_aux_letter(#[trigger] t@.cells[x]),
        ensures
            start as int <= i as int <= t@.cells.len(),
            forall|x: int|
                start as int <= x < i as int ==> crate::words::is_aux_letter(#[trigger] t@.cells[x]),
            !crate::words::is_aux_letter(vcell(t@.cells, i as int)),
        decreases t@.cells.len() - i as int,
    {
        if i >= cells.len() {
            break ;
        }
        if !is_written_symbol(cells[i]) {
            break ;
        }
        i += 1;
    }
    let r = i - start;
    proof {
        assert forall|x: int| 0 <= x < r as int implies crate::words::is_aux_letter(
            #[trigger] vcell(t@.cells, start as int + x),
        ) by {
            assert(crate::words::is_aux_letter(t@.cells[start as int + x]));
        }
        crate::words::lemma_word_len_unique(t@.cells, start as int, r as int);
    }
    r
}

/// Checks the verifier's main-tape shape: what `TuringMachine::new` and
/// `M1::new` require of a main tape.
pub fn check_verifier_main(t: &Tape<MainValue>) -> (r: bool)
    requires
        t@.wf(),
    ensures
        r == verifier_main_ok(t@),
{
    let cells = t.data();
    let total = cells.len();
    let h = t.head();
    proof {
        assert(h < total);
    }
    match cells[h] {
        TapeValue::Value(MainValue::Hash) => {},
        _ => {
            return false;
        },
    }
    let n = block_span_from(t, h + 1);
    n >= 1
}

/// Checks the verifier's auxiliary-tape shape: what `TuringMachine::new` and
/// `M1::new` require of an auxiliary tape.
pub fn check_verifier_aux(t: &Tape<AuxValue>) -> (r: bool)
    requires
        t@.wf(),
    ensures
        r == verifier_aux_ok(t@),
{
    let cells = t.data();
    let total = cells.len();
    let h = t.head();
    proof {
        assert(h < total);
    }
    let mut x: usize = 0;
    while x <= h
        invariant
            t@.wf(),
            cells@ == t@.cells,
            h as int == t@.head,
            h < total,
            total as int == t@.cells.len(),
            x as int <= t@.head + 1,
            forall|y: int| 0 <= y < x as int ==> t@.cells[y] == TapeValue::<AuxValue>::Empty,
        decreases t@.head + 1 - x as int,
    {
        match cells[x] {
            TapeValue::Empty => {},
            _ => {
                return false;
            },
        }
        x += 1;
    }
    let n = word_span_from(t, h + 1);
    if n == 0 {
        return false;
    }
    let mut y: usize = h + 1 + n;
    while y < cells.len()
        invariant
            t@.wf(),
            cells@ == t@.cells,
            h as int == t@.head,
            n as int == word_len(t@.cells, t@.head + 1),
            t@.head + 1 + n as int <= y as int,
            forall|z: int|
                t@.head + 1 + n as int <= z < y as int ==> t@.cells[z] == TapeValue::<
                    AuxValue,
                >::Empty,
        decreases t@.cells.len() - y as int,
    {
        match cells[y] {
            TapeValue::Empty => {},
            _ => {
                return false;
            },
        }
        y += 1;
    }
    true
}

/// Checks the generator's main-tape shape: what `M2::new` requires of a main
/// tape.
pub fn check_generator_main(t: &Tape<MainValue>) -> (r: bool)
    requires
        t@.wf(),
    ensures
        r == generator_main_ok(t@),
{
    let cells = t.data();
    let total = cells.len();
    let h = t.head();
    proof {
        assert(h < total);
    }
    let mut x: usize = 0;
    while x <= h
        invariant
            t@.wf(),
            cells@ == t@.cells,
            h as int == t@.head,
            h < total,
            total as int == t@.cells.len(),
            x as int <= t@.head + 1,
            forall|y: int| 0 <= y < x as int ==> t@.cells[y] == TapeValue::<MainValue>::Empty,
        decreases t@.head + 1 - x as int,
    {
        match cells[x] {
            TapeValue::Empty => {},
            _ => {
                return false;
            },
        }
        x += 1;
    }
    let n = block_span_from(t, h + 1);
    if n == 0 {
        return false;
    }
    let end = h + 1 + n;
    if end >= cells.len() {
        return false;
    }
    match cells[end] {
        TapeValue::Value(MainValue::Hash) => true,
        _ => false,
    }
}

/// Checks that a tape is entirely blank: what `M2::new` and `M3::new` require
/// of an auxiliary tape.
pub fn check_blank_aux(t: &Tape<AuxValue>) -> (r: bool)
    requires
        t@.wf(),
    ensures
        r == blank_aux_ok(t@),
{
    let cells = t.data();
    let mut x: usize = 0;
    while x < cells.len()
        invariant
            t@.wf(),
            cells@ == t@.cells,
            x as int <= t@.cells.len(),
            forall|y: int| 0 <= y < x as int ==> #[trigger] t@.cells[y] == TapeValue::<
                AuxValue,
            >::Empty,
        decreases t@.cells.len() - x as int,
    {
        match cells[x] {
            TapeValue::Empty => {},
            _ => {
                return false;
            },
        }
        x += 1;
    }
    true
}

/// Checks the orchestrator's main-tape shape: what `M3::new` requires of a
/// main tape.
pub fn check_orchestrator_main(t: &Tape<MainValue>) -> (r: bool)
    requires
        t@.wf(),
    ensures
        r == orchestrator_main_ok(t@),
{
    let cells = t.data();
    let total = cells.len();
    let h = t.head();
    proof {
        assert(h < total);
    }
    let mut x: usize = 0;
    while x <= h
        invariant
            t@.wf(),
            cells@ == t@.cells,
            h as int == t@.head,
            h < total,
            total as int == t@.cells.len(),
            x as int <= t@.head + 1,
            forall|y: int| 0 <= y < x as int ==> t@.cells[y] == TapeValue::<MainValue>::Empty,
        decreases t@.head + 1 - x as int,
    {
        match cells[x] {
            TapeValue::Empty => {},
            _ => {
                return false;
            },
        }
        x += 1;
    }
    let mut i: usize = h;
    loop
        invariant
            t@.wf(),
            cells@ == t@.cells,
            h as int == t@.head,
            t@.head <= i as int,
            i < total,
            total as int == t@.cells.len(),
            block_list_shape(t@.cells, t@.head) == block_list_shape(t@.cells, i as int),
            forall|y: int| 0 <= y <= t@.head ==> t@.cells[y] == TapeValue::<MainValue>::Empty,
        decreases t@.cells.len() - i as int,
    {
        let n = block_span_from(t, i + 1);
        if n == 0 {
            return false;
        }
        let end = i + 1 + n;
        if end >= cells.len() {
            proof {
                assert(vcell(t@.cells, end as int) == TapeValue::<MainValue>::Empty);
                assert(crate::words::all_empty_from(t@.cells, end as int));
                assert(block_list_shape(t@.cells, i as int));
            }
            return true;
        }
        match cells[end] {
            TapeValue::Value(MainValue::Hash) => {
                proof {
                    assert(block_list_shape(t@.cells, i as int) == block_list_shape(
                        t@.cells,
                        end as int,
                    ));
                }
                i = end;
            },
            TapeValue::Empty => {
                let mut y: usize = end;
                while y < cells.len()
                    invariant
                        t@.wf(),
                        cells@ == t@.cells,
                        h as int == t@.head,
                        forall|yy: int| 0 <= yy <= t@.head ==> t@.cells[yy] == TapeValue::<
                            MainValue,
                        >::Empty,
                        t@.head <= i as int,
                        (i as int) < t@.cells.len(),
                        n as int == block_len(t@.cells, i as int + 1),
                        n >= 1,
                        end as int == i as int + 1 + n as int,
                        (end as int) < t@.cells.len(),
                        t@.cells[end as int] == TapeValue::<MainValue>::Empty,
                        block_list_shape(t@.cells, t@.head) == block_list_shape(
                            t@.cells,
                            i as int,
                        ),
                        end as int <= y as int,
                        forall|z: int|
                            end as int <= z < y as int ==> t@.cells[z] == TapeValue::<
                                MainValue,
                            >::Empty,
                    decreases t@.cells.len() - y as int,
                {
                    match cells[y] {
                        TapeValue::Empty => {},
                        _ => {
                            proof {
                                assert(!crate::words::all_empty_from(t@.cells, end as int));
                                assert(!block_list_shape(t@.cells, i as int));
                            }
                            return false;
                        },
                    }
                    y += 1;
                }
                proof {
                    assert(crate::words::all_empty_from(t@.cells, end as int));
                    assert(block_list_shape(t@.cells, i as int));
                }
                return true;
            },
            TapeValue::Value(_) => {
                proof {
                    crate::words::lemma_block_len_facts(t@.cells, i as int + 1);
                    assert(!crate::words::is_main_letter(
                        vcell(t@.cells, i as int + 1 + block_len(t@.cells, i as int + 1)),
                    ));
                    assert(false);
                }
                return false;
            },
        }
    }
}

/// A tape that satisfies the verifier's auxiliary-tape precondition keeps
/// satisfying it, with the same word under the head, when its cell sequence
/// grows by empty cells on the right.
pub proof fn lemma_verifier_aux_ok_grows(a: TapeModel<AuxValue>, c: Seq<TapeValue<AuxValue>>)
    requires
        verifier_aux_ok(a),
        grows_right(c, a.cells),
    ensures
        verifier_aux_ok(TapeModel { cells: c, head: a.head }),
        word_at(c, a.head + 1) == word_at(a.cells, a.head + 1),
        word_len(c, a.head + 1) == word_len(a.cells, a.head + 1),
{
    lemma_grows_right_vcell(c, a.cells);
    crate::words::lemma_word_len_grows_right(c, a.cells, a.head + 1);
    crate::words::lemma_word_at_grows_right(c, a.cells, a.head + 1);
    let m = TapeModel { cells: c, head: a.head };
    assert forall|x: int| 0 <= x <= m.head implies m.cells[x] == TapeValue::<AuxValue>::Empty by {
        assert(vcell(c, x) == vcell(a.cells, x));
    }
    assert forall|x: int|
        m.head + 1 + word_len(c, m.head + 1) <= x < c.len() implies c[x]
            == TapeValue::<AuxValue>::Empty by {
        assert(vcell(c, x) == vcell(a.cells, x));
    }
}

/// The control states of the verifier's walk.
enum VerifierState {
    /// Step the auxiliary tape right and read the next required letter.
    FetchNext,
    /// Scan the main block rightward for an `A`.
    SeekA,
    /// Scan the main block rightward for a `B`.
    SeekB,
    /// The word is exhausted: walk the auxiliary head back to its sentinel.
    RewindAccept,
    /// A letter ran past the block's end: walk the auxiliary head back, then
    /// reject.
    RewindReject,
    /// Scan out whatever remains of the block, then accept.
    DrainBlock,
}

/// The verifier's walk over a main tape and an auxiliary tape: decides
/// whether the word on the auxiliary tape is a subsequence of the block the
/// main-tape head rests in front of. Every tape operation ticks `steps` once,
/// so the two tapes share one counter for the whole run. Both heads come to
/// rest at fixed positions: the main head on the cell that ends the block,
/// the auxiliary head back on its sentinel.
pub(crate) fn verifier_walk(
    main: &mut Tape<MainValue>,
    aux: &mut Tape<AuxValue>,
    steps: &mut u64,
) -> (r: bool)
    requires
        verifier_main_ok(old(main)@),
        verifier_aux_ok(old(aux)@),
    ensures
        r == is_subseq(
            word_at(old(aux)@.cells, old(aux)@.head + 1),
            block_at(old(main)@.cells, old(main)@.head + 1),
        ),
        grows_right(final(main)@.cells, old(main)@.cells),
        final(main)@.head == old(main)@.head + 1 + block_len(old(main)@.cells, old(main)@.head + 1),
        final(main)@.wf(),
        grows_right(final(aux)@.cells, old(aux)@.cells),
        final(aux)@.head == old(aux)@.head,
        final(aux)@.wf(),
        *final(steps) >= *old(steps),
{
    let ghost mm0 = main@;
    let ghost aa0 = aux@;
    let ghost m0 = mm0.cells;
    let ghost a0 = aa0.cells;
    let ghost h0 = mm0.head;
    let ghost k0 = aa0.head;
    let ghost bl = block_len(m0, h0 + 1) as int;
    let ghost wl = word_len(a0, k0 + 1) as int;
    let ghost w = word_at(a0, k0 + 1);
    let ghost b = block_at(m0, h0 + 1);
    let ghost s0 = *steps;
    let mut state = VerifierState::FetchNext;
    let ghost mut p: int = 0;
    let ghost mut q: int = 0;
    proof {
        crate::words::lemma_grows_right_refl(m0);
        crate::words::lemma_grows_right_refl(a0);
        assert(w.skip(0) =~= w);
        assert(b.skip(0) =~= b);
    }
    loop
        invariant
            mm0 == old(main)@,
            aa0 == old(aux)@,
            s0 == *old(steps),
            verifier_main_ok(mm0),
            verifier_aux_ok(aa0),
            m0 == mm0.cells,
            a0 == aa0.cells,
            h0 == mm0.head,
            k0 == aa0.head,
            bl == block_len(m0, h0 + 1) as int,
            wl == word_len(a0, k0 + 1) as int,
            w == word_at(a0, k0 + 1),
            b == block_at(m0, h0 + 1),
            main@.wf(),
            aux@.wf(),
            grows_right(main@.cells, m0),
            grows_right(aux@.cells, a0),
            *steps >= s0,
            match state {
                VerifierState::FetchNext => {
                    &&& 0 <= p <= wl
                    &&& 0 <= q <= bl
                    &&& aux@.head == k0 + p
                    &&& main@.head == h0 + q
                    &&& is_subseq(w, b) == is_subseq(w.skip(p), b.skip(q))
                },
                VerifierState::SeekA => {
                    &&& 1 <= p <= wl
                    &&& w[p - 1] == AuxValue::A
                    &&& 0 <= q <= bl
                    &&& aux@.head == k0 + p
                    &&& main@.head == h0 + q
                    &&& is_subseq(w, b) == is_subseq(w.skip(p - 1), b.skip(q))
                },
                VerifierState::SeekB => {
                    &&& 1 <= p <= wl
                    &&& w[p - 1] == AuxValue::B
                    &&& 0 <= q <= bl
                    &&& aux@.head == k0 + p
                    &&& main@.head == h0 + q
                    &&& is_subseq(w, b) == is_subseq(w.skip(p - 1), b.skip(q))
                },
                VerifierState::RewindAccept => {
                    &&& is_subseq(w, b)
                    &&& k0 + 1 <= aux@.head <= k0 + wl + 1
                    &&& 0 <= q <= bl
                    &&& main@.head == h0 + q
                },
                VerifierState::RewindReject => {
                    &&& !is_subseq(w, b)
                    &&& k0 + 1 <= aux@.head <= k0 + wl
                    &&& main@.head == h0 + bl + 1
                },
                VerifierState::DrainBlock => {
                    &&& is_subseq(w, b)
                    &&& aux@.head == k0
                    &&& 0 <= q <= bl
                    &&& main@.head == h0 + q
                },
            },
        decreases
            (match state {
                VerifierState::FetchNext => 3int,
                VerifierState::SeekA => 3int,
                VerifierState::SeekB => 3int,
                VerifierState::RewindAccept => 2int,
                VerifierState::RewindReject => 2int,
                VerifierState::DrainBlock => 1int,
            }),
            (match state {
                VerifierState::FetchNext => 2 * (bl - q) + 2 * (wl - p) + 1,
                VerifierState::SeekA => 2 * (bl - q) + 2 * (wl - p),
                VerifierState::SeekB => 2 * (bl - q) + 2 * (wl - p),
                VerifierState::RewindAccept => aux@.head - k0,
                VerifierState::RewindReject => aux@.head - k0,
                VerifierState::DrainBlock => bl - q,
            }),
    {
        proof {
            lemma_block_len_facts(m0, h0 + 1);
            lemma_word_len_facts(a0, k0 + 1);
            lemma_grows_right_vcell(main@.cells, m0);
            lemma_grows_right_vcell(aux@.cells, a0);
        }
        match state {
            VerifierState::FetchNext => {
                let ghost pre = aux@.cells;
                aux.right(steps);
                proof {
                    if aux@.cells != pre {
                        crate::words::lemma_grows_right_push(pre);
                    } else {
                        crate::words::lemma_grows_right_refl(pre);
                    }
                    lemma_grows_right_trans(aux@.cells, pre, a0);
                    lemma_grows_right_vcell(aux@.cells, a0);
                }
                let c = aux.read(steps);
                proof {
                    assert(c == vcell(a0, k0 + 1 + p));
                }
                match c {
                    TapeValue::Value(AuxValue::A) => {
                        proof {
                            assert(p < wl);
                            assert(w[p] == AuxValue::A);
                            p = p + 1;
                        }
                        state = VerifierState::SeekA;
                    }
                    TapeValue::Value(AuxValue::B) => {
                        proof {
                            assert(p < wl);
                            assert(w[p] == AuxValue::B);
                            p = p + 1;
                        }
                        state = VerifierState::SeekB;
                    }
                    TapeValue::Empty => {
                        proof {
                            assert(p == wl);
                            assert(w.skip(p).len() == 0);
                            assert(is_subseq(w.skip(p), b.skip(q)));
                        }
                        state = VerifierState::RewindAccept;
                    }
                }
            },
            VerifierState::SeekA => {
                let ghost pre = main@.cells;
                main.right(steps);
                proof {
                    if main@.cells != pre {
                        crate::words::lemma_grows_right_push(pre);
                    } else {
                        crate::words::lemma_grows_right_refl(pre);
                    }
                    lemma_grows_right_trans(main@.cells, pre, m0);
                    lemma_grows_right_vcell(main@.cells, m0);
                }
                let c = main.read(steps);
                proof {
                    assert(c == vcell(m0, h0 + 1 + q));
                }
                match c {
                    TapeValue::Value(MainValue::A) => {
                        proof {
                            assert(q < bl);
                            assert(b[q] == AuxValue::A);
                            let u = w.skip(p - 1);
                            let v = b.skip(q);
                            assert(u[0] == w[p - 1]);
                            assert(v[0] == b[q]);
                            lemma_subseq_greedy_step(u, v);
                            assert(u.skip(1) =~= w.skip(p));
                            assert(v.skip(1) =~= b.skip(q + 1));
                            q = q + 1;
                        }
                        state = VerifierState::FetchNext;
                    },
                    TapeValue::Value(MainValue::B) => {
                        proof {
                            assert(q < bl);
                            assert(b[q] == AuxValue::B);
                            let u = w.skip(p - 1);
                            let v = b.skip(q);
                            assert(u.len() > 0 && v.len() > 0);
                            assert(u[0] == AuxValue::A && v[0] == AuxValue::B);
                            assert(is_subseq(u, v) == is_subseq(u, v.skip(1)));
                            assert(v.skip(1) =~= b.skip(q + 1));
                            q = q + 1;
                        }
                    },
                    _ => {
                        proof {
                            assert(q == bl);
                            assert(b.skip(q).len() == 0);
                            assert(w.skip(p - 1).len() >= 1);
                            assert(!is_subseq(w.skip(p - 1), b.skip(q)));
                        }
                        state = VerifierState::RewindReject;
                    },
                }
            },
            VerifierState::SeekB => {
                let ghost pre = main@.cells;
                main.right(steps);
                proof {
                    if main@.cells != pre {
                        crate::words::lemma_grows_right_push(pre);
                    } else {
                        crate::words::lemma_grows_right_refl(pre);
                    }
                    lemma_grows_right_trans(main@.cells, pre, m0);
                    lemma_grows_right_vcell(main@.cells, m0);
                }
                let c = main.read(steps);
                proof {
                    assert(c == vcell(m0, h0 + 1 + q));
                }
                match c {
                    TapeValue::Value(MainValue::B) => {
                        proof {
                            assert(q < bl);
                            assert(b[q] == AuxValue::B);
                            let u = w.skip(p - 1);
                            let v = b.skip(q);
                            assert(u[0] == w[p - 1]);
                            assert(v[0] == b[q]);
                            lemma_subseq_greedy_step(u, v);
                            assert(u.skip(1) =~= w.skip(p));
                            assert(v.skip(1) =~= b.skip(q + 1));
                            q = q + 1;
                        }
                        state = VerifierState::FetchNext;
                    },
                    TapeValue::Value(MainValue::A) => {
                        proof {
                            assert(q < bl);
                            assert(b[q] == AuxValue::A);
                            let u = w.skip(p - 1);
                            let v = b.skip(q);
                            assert(u.len() > 0 && v.len() > 0);
                            assert(u[0] == AuxValue::B && v[0] == AuxValue::A);
                            assert(is_subseq(u, v) == is_subseq(u, v.skip(1)));
                            assert(v.skip(1) =~= b.skip(q + 1));
                            q = q + 1;
                        }
                    },
                    _ => {
                        proof {
                            assert(q == bl);
                            assert(b.skip(q).len() == 0);
                            assert(w.skip(p - 1).len() >= 1);
                            assert(!is_subseq(w.skip(p - 1), b.skip(q)));
                        }
                        state = VerifierState::RewindReject;
                    },
                }
            },
            VerifierState::RewindAccept => {
                aux.left(steps);
                let c = aux.read(steps);
                proof {
                    assert(c == vcell(a0, aux@.head));
                }
                match c {
                    TapeValue::Value(_) => {
                        proof {
                            assert(vcell(a0, k0) == TapeValue::<AuxValue>::Empty);
                            assert(aux@.head >= k0 + 1);
                        }
                    },
                    TapeValue::Empty => {
                        proof {
                            if aux@.head > k0 {
                                let t = aux@.head - k0 - 1;
                                assert(0 <= t < wl);
                                assert(is_aux_letter(vcell(a0, k0 + 1 + t)));
                            }
                            assert(aux@.head == k0);
                        }
                        state = VerifierState::DrainBlock;
                    },
                }
            },
            VerifierState::RewindReject => {
                aux.left(steps);
                let c = aux.read(steps);
                proof {
                    assert(c == vcell(a0, aux@.head));
                }
                match c {
                    TapeValue::Value(_) => {
                        proof {
                            assert(vcell(a0, k0) == TapeValue::<AuxValue>::Empty);
                            assert(aux@.head >= k0 + 1);
                        }
                    },
                    TapeValue::Empty => {
                        proof {
                            if aux@.head > k0 {
                                let t = aux@.head - k0 - 1;
                                assert(0 <= t < wl);
                                assert(is_aux_letter(vcell(a0, k0 + 1 + t)));
                            }
                            assert(aux@.head == k0);
                        }
                        return false;
                    },
                }
            },
            VerifierState::DrainBlock => {
                let ghost pre = main@.cells;
                main.right(steps);
                proof {
                    if main@.cells != pre {
                        crate::words::lemma_grows_right_push(pre);
                    } else {
                        crate::words::lemma_grows_right_refl(pre);
                    }
                    lemma_grows_right_trans(main@.cells, pre, m0);
                    lemma_grows_right_vcell(main@.cells, m0);
                }
                let c = main.read(steps);
                proof {
                    assert(c == vcell(m0, h0 + 1 + q));
                }
                match c {
                    TapeValue::Value(MainValue::A) | TapeValue::Value(MainValue::B) => {
                        proof {
                            assert(q < bl);
                            q = q + 1;
                        }
                    },
                    _ => {
                        proof {
                            assert(q == bl);
                        }
                        return true;
                    },
                }
            },
        }
    }
}

/// The standalone, step-counted verifier machine: both of its tapes share one
/// step counter, and one run decides whether the auxiliary word is a
/// subsequence of the main tape's current block.
pub struct TuringMachine {
    main: Tape<MainValue>,
    aux: Tape<AuxValue>,
    steps_ran: u64,
}

/// The cells described by a descriptor list, with the head tags stripped.
pub open spec fn desc_cells<T>(desc: Seq<TapeConstructor<T>>) -> Seq<TapeValue<T>> {
    desc.map(|i: int, c: TapeConstructor<T>| tc_value(c))
}

/// The tape a descriptor list with a unique head marker describes.
pub open spec fn desc_model<T>(desc: Seq<TapeConstructor<T>>) -> TapeModel<T> {
    TapeModel { cells: desc_cells(desc), head: choose|h: int| is_head_at(desc, h) }
}

impl TuringMachine {
    /// The model of the machine's main tape.
    pub closed spec fn main_model(&self) -> TapeModel<MainValue> {
        self.main@
    }

    /// The model of the machine's auxiliary tape.
    pub closed spec fn aux_model(&self) -> TapeModel<AuxValue> {
        self.aux@
    }

    /// The machine's shared step counter.
    pub closed spec fn spec_steps_ran(&self) -> u64 {
        self.steps_ran
    }

    /// Builds the machine from two descriptor lists, wiring one fresh shared
    /// step counter to both tapes. The main tape must present a delimiter
    /// under the head followed by a non-empty block; the auxiliary tape must
    /// present an empty head cell with only empty cells to its left, then a
    /// non-empty word, then nothing.
    pub fn new(
        main: Vec<TapeConstructor<MainValue>>,
        aux: Vec<TapeConstructor<AuxValue>>,
    ) -> (r: Self)
        requires
            has_unique_head(main@),
            verifier_main_ok(desc_model(main@)),
            has_unique_head(aux@),
            verifier_aux_ok(desc_model(aux@)),
        ensures
            r.main_model() == desc_model(main@),
            r.aux_model() == desc_model(aux@),
            r.spec_steps_ran() == 0,
    {
        let ghost main_desc = main@;
        let ghost aux_desc = aux@;
        let main_tape = Tape::new(main);
        let aux_tape = Tape::new(aux);
        proof {
            assert(main_tape@.cells =~= desc_cells(main_desc));
            assert(aux_tape@.cells =~= desc_cells(aux_desc));
            let hm = choose|h: int| is_head_at(main_desc, h);
            assert(is_head_at(main_desc, hm));
            assert(main_tape@.head == hm);
            let ha = choose|h: int| is_head_at(aux_desc, h);
            assert(is_head_at(aux_desc, ha));
            assert(aux_tape@.head == ha);
            assert(main_tape@ =~= desc_model(main_desc));
            assert(aux_tape@ =~= desc_model(aux_desc));
        }
        TuringMachine { main: main_tape, aux: aux_tape, steps_ran: 0 }
    }

    /// How many tape operations the machine's tapes have performed together.
    pub fn steps_ran(&self) -> (r: u64)
        ensures
            r == self.spec_steps_ran(),
    {
        self.steps_ran
    }

    /// Ticks the shared step counter once, as the walk's terminal states do
    /// for their final bookkeeping step.
    pub fn increment_steps_ran(&mut self)
        ensures
            final(self).spec_steps_ran() == bump(old(self).spec_steps_ran()),
            final(self).main_model() == old(self).main_model(),
            final(self).aux_model() == old(self).aux_model(),
    {
        if self.steps_ran < u64::MAX {
            self.steps_ran = self.steps_ran + 1;
        }
    }

    /// Runs the machine to its terminal state: returns whether the auxiliary
    /// word is a subsequence of the main tape's current block. A machine runs
    /// once; the counter it leaves behind is never zero again, so a second
    /// run cannot satisfy this precondition.
    #[must_use]
    pub fn run(&mut self) -> (r: bool)
        requires
            old(self).spec_steps_ran() == 0,
            verifier_main_ok(old(self).main_model()),
            verifier_aux_ok(old(self).aux_model()),
        ensures
            r == is_subseq(head_word(old(self).aux_model()), head_block(old(self).main_model())),
            grows_right(final(self).main_model().cells, old(self).main_model().cells),
            final(self).main_model().head == old(self).main_model().head + 1 + head_block_len(
                old(self).main_model(),
            ),
            final(self).main_model().wf(),
            grows_right(final(self).aux_model().cells, old(self).aux_model().cells),
            final(self).aux_model().head == old(self).aux_model().head,
            final(self).aux_model().wf(),
            final(self).spec_steps_ran() >= 1,
    {
        let r = verifier_walk(&mut self.main, &mut self.aux, &mut self.steps_ran);
        self.increment_steps_ran();
        r
    }
}

} // verus!
