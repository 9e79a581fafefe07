//! The mathematical vocabulary shared by the machines: unbounded tape
//! contents, blocks and words read off a tape, the subsequence relation the
//! verifier decides, and the word the generator writes for a given run of
//! coin flips.

use vstd::prelude::*;

use crate::machine::{AuxValue, MainValue};
use crate::tape::{TapeModel, TapeValue};

verus! {

/// The cell at index `i` of a conceptually unbounded tape: cells outside the
/// allocated sequence read as `Empty`.
pub open spec fn vcell<T>(cells: Seq<TapeValue<T>>, i: int) -> TapeValue<T> {
    if 0 <= i < cells.len() {
        cells[i]
    } else {
        TapeValue::Empty
    }
}

/// `c` is `c0` with zero or more `Empty` cells appended: the only growth a
/// tape can undergo while its head never crosses the first cell.
pub open spec fn grows_right<T>(c: Seq<TapeValue<T>>, c0: Seq<TapeValue<T>>) -> bool {
    &&& c0.len() <= c.len()
    &&& forall|x: int| 0 <= x < c.len() ==> #[trigger] c[x] == vcell(c0, x)
}

pub proof fn lemma_grows_right_vcell<T>(c: Seq<TapeValue<T>>, c0: Seq<TapeValue<T>>)
    requires
        grows_right(c, c0),
    ensures
        forall|x: int| #[trigger] vcell(c, x) == vcell(c0, x),
{
}

pub proof fn lemma_grows_right_refl<T>(c: Seq<TapeValue<T>>)
    ensures
        grows_right(c, c),
{
}

pub proof fn lemma_grows_right_push<T>(c: Seq<TapeValue<T>>)
    ensures
        grows_right(c.push(TapeValue::Empty), c),
{
    let c2 = c.push(TapeValue::<T>::Empty);
    assert forall|x: int| 0 <= x < c2.len() implies #[trigger] c2[x] == vcell(c, x) by {
        if x < c.len() {
            assert(c2[x] == c[x]);
        }
    }
}

pub proof fn lemma_grows_right_trans<T>(
    c2: Seq<TapeValue<T>>,
    c1: Seq<TapeValue<T>>,
    c0: Seq<TapeValue<T>>,
)
    requires
        grows_right(c2, c1),
        grows_right(c1, c0),
    ensures
        grows_right(c2, c0),
{
    lemma_grows_right_vcell(c2, c1);
    lemma_grows_right_vcell(c1, c0);
}

/// A main-tape cell holding a block symbol (`A` or `B`, not a delimiter).
pub open spec fn is_main_letter(c: TapeValue<MainValue>) -> bool {
    match c {
        TapeValue::Value(MainValue::A) => true,
        TapeValue::Value(MainValue::B) => true,
        _ => false,
    }
}

/// An auxiliary-tape cell holding a written symbol.
pub open spec fn is_aux_letter(c: TapeValue<AuxValue>) -> bool {
    c matches TapeValue::Value(_)
}

/// Length of the maximal run of block symbols starting at index `i` of a
/// main tape.
pub open spec fn block_len(cells: Seq<TapeValue<MainValue>>, i: int) -> nat
    decreases cells.len() - i,
{
    if is_main_letter(vcell(cells, i)) {
        1 + block_len(cells, i + 1)
    } else {
        0
    }
}

/// Length of the maximal run of written symbols starting at index `i` of an
/// auxiliary tape.
pub open spec fn word_len(cells: Seq<TapeValue<AuxValue>>, i: int) -> nat
    decreases cells.len() - i,
{
    if is_aux_letter(vcell(cells, i)) {
        1 + word_len(cells, i + 1)
    } else {
        0
    }
}

pub proof fn lemma_block_len_facts(cells: Seq<TapeValue<MainValue>>, i: int)
    ensures
        forall|t: int| 0 <= t < block_len(cells, i) ==> is_main_letter(#[trigger] vcell(cells, i + t)),
        !is_main_letter(vcell(cells, i + block_len(cells, i))),
    decreases cells.len() - i,
{
    if is_main_letter(vcell(cells, i)) {
        lemma_block_len_facts(cells, i + 1);
        assert forall|t: int| 0 <= t < block_len(cells, i) implies is_main_letter(
            #[trigger] vcell(cells, i + t),
        ) by {
            if t > 0 {
                assert(is_main_letter(vcell(cells, (i + 1) + (t - 1))));
            }
        }
        assert(!is_main_letter(vcell(cells, (i + 1) + block_len(cells, i + 1))));
    }
}

pub proof fn lemma_block_len_unique(cells: Seq<TapeValue<MainValue>>, i: int, n: int)
    requires
        n >= 0,
        forall|t: int| 0 <= t < n ==> is_main_letter(#[trigger] vcell(cells, i + t)),
        !is_main_letter(vcell(cells, i + n)),
    ensures
        block_len(cells, i) == n,
    decreases n,
{
    if n > 0 {
        assert(is_main_letter(vcell(cells, i + 0)));
        assert forall|t: int| 0 <= t < n - 1 implies is_main_letter(
            #[trigger] vcell(cells, (i + 1) + t),
        ) by {
            assert(is_main_letter(vcell(cells, i + (t + 1))));
        }
        assert(!is_main_letter(vcell(cells, (i + 1) + (n - 1))));
        lemma_block_len_unique(cells, i + 1, n - 1);
    }
}

pub proof fn lemma_word_len_facts(cells: Seq<TapeValue<AuxValue>>, i: int)
    ensures
        forall|t: int| 0 <= t < word_len(cells, i) ==> is_aux_letter(#[trigger] vcell(cells, i + t)),
        !is_aux_letter(vcell(cells, i + word_len(cells, i))),
    decreases cells.len() - i,
{
    if is_aux_letter(vcell(cells, i)) {
        lemma_word_len_facts(cells, i + 1);
        assert forall|t: int| 0 <= t < word_len(cells, i) implies is_aux_letter(
            #[trigger] vcell(cells, i + t),
        ) by {
            if t > 0 {
                assert(is_aux_letter(vcell(cells, (i + 1) + (t - 1))));
            }
        }
        assert(!is_aux_letter(vcell(cells, (i + 1) + word_len(cells, i + 1))));
    }
}

pub proof fn lemma_word_len_unique(cells: Seq<TapeValue<AuxValue>>, i: int, n: int)
    requires
        n >= 0,
        forall|t: int| 0 <= t < n ==> is_aux_letter(#[trigger] vcell(cells, i + t)),
        !is_aux_letter(vcell(cells, i + n)),
    ensures
        word_len(cells, i) == n,
    decreases n,
{
    if n > 0 {
        assert(is_aux_letter(vcell(cells, i + 0)));
        assert forall|t: int| 0 <= t < n - 1 implies is_aux_letter(
            #[trigger] vcell(cells, (i + 1) + t),
        ) by {
            assert(is_aux_letter(vcell(cells, i + (t + 1))));
        }
        assert(!is_aux_letter(vcell(cells, (i + 1) + (n - 1))));
        lemma_word_len_unique(cells, i + 1, n - 1);
    }
}

pub proof fn lemma_block_len_grows_right(
    c: Seq<TapeValue<MainValue>>,
    c0: Seq<TapeValue<MainValue>>,
    i: int,
)
    requires
        grows_right(c, c0),
    ensures
        block_len(c, i) == block_len(c0, i),
{
    lemma_grows_right_vcell(c, c0);
    lemma_block_len_facts(c0, i);
    lemma_block_len_unique(c, i, block_len(c0, i) as int);
}

pub proof fn lemma_word_len_grows_right(
    c: Seq<TapeValue<AuxValue>>,
    c0: Seq<TapeValue<AuxValue>>,
    i: int,
)
    requires
        grows_right(c, c0),
    ensures
        word_len(c, i) == word_len(c0, i),
{
    lemma_grows_right_vcell(c, c0);
    lemma_word_len_facts(c0, i);
    lemma_word_len_unique(c, i, word_len(c0, i) as int);
}

/// The symbol held by a main-tape block cell, read into the written alphabet.
pub open spec fn main_sym(c: TapeValue<MainValue>) -> AuxValue {
    if c == TapeValue::Value(MainValue::A) {
        AuxValue::A
    } else {
        AuxValue::B
    }
}

/// The symbol held by a written auxiliary-tape cell.
pub open spec fn aux_sym(c: TapeValue<AuxValue>) -> AuxValue {
    if c == TapeValue::Value(AuxValue::A) {
        AuxValue::A
    } else {
        AuxValue::B
    }
}

/// The block of symbols starting at index `i` of a main tape.
pub open spec fn block_at(cells: Seq<TapeValue<MainValue>>, i: int) -> Seq<AuxValue> {
    Seq::new(block_len(cells, i), |t: int| main_sym(vcell(cells, i + t)))
}

/// The word of symbols starting at index `i` of an auxiliary tape.
pub open spec fn word_at(cells: Seq<TapeValue<AuxValue>>, i: int) -> Seq<AuxValue> {
    Seq::new(word_len(cells, i), |t: int| aux_sym(vcell(cells, i + t)))
}

pub proof fn lemma_block_at_grows_right(
    c: Seq<TapeValue<MainValue>>,
    c0: Seq<TapeValue<MainValue>>,
    i: int,
)
    requires
        grows_right(c, c0),
    ensures
        block_at(c, i) == block_at(c0, i),
{
    lemma_grows_right_vcell(c, c0);
    lemma_block_len_grows_right(c, c0, i);
    assert(block_at(c, i) =~= block_at(c0, i));
}

pub proof fn lemma_word_at_grows_right(
    c: Seq<TapeValue<AuxValue>>,
    c0: Seq<TapeValue<AuxValue>>,
    i: int,
)
    requires
        grows_right(c, c0),
    ensures
        word_at(c, i) == word_at(c0, i),
{
    lemma_grows_right_vcell(c, c0);
    lemma_word_len_grows_right(c, c0, i);
    assert(word_at(c, i) =~= word_at(c0, i));
}

/// Whether `w` occurs, in order but not necessarily contiguously, inside `b`.
pub open spec fn is_subseq(w: Seq<AuxValue>, b: Seq<AuxValue>) -> bool
    decreases w.len() + b.len(),
{
    if w.len() == 0 {
        true
    } else if b.len() == 0 {
        false
    } else if w[0] == b[0] {
        is_subseq(w.skip(1), b.skip(1)) || is_subseq(w, b.skip(1))
    } else {
        is_subseq(w, b.skip(1))
    }
}

/// A word that is a subsequence of the tail of `b` is a subsequence of `b`.
pub proof fn lemma_subseq_widen(w: Seq<AuxValue>, b: Seq<AuxValue>)
    requires
        b.len() > 0,
        is_subseq(w, b.skip(1)),
    ensures
        is_subseq(w, b),
{
}

/// Dropping the first letter of a word keeps it a subsequence.
pub proof fn lemma_subseq_drop_first(w: Seq<AuxValue>, b: Seq<AuxValue>)
    requires
        w.len() > 0,
        is_subseq(w, b),
    ensures
        is_subseq(w.skip(1), b),
    decreases b.len(),
{
    assert(b.len() > 0);
    if w.len() == 1 {
        assert(w.skip(1).len() == 0);
    } else {
        if w[0] == b[0] {
            if is_subseq(w.skip(1), b.skip(1)) {
                lemma_subseq_widen(w.skip(1), b);
            } else {
                assert(is_subseq(w, b.skip(1)));
                lemma_subseq_drop_first(w, b.skip(1));
                lemma_subseq_widen(w.skip(1), b);
            }
        } else {
            lemma_subseq_drop_first(w, b.skip(1));
            lemma_subseq_widen(w.skip(1), b);
        }
    }
}

/// The greedy matching step: when word and block begin with the same letter,
/// consuming both loses nothing.
pub proof fn lemma_subseq_greedy_step(w: Seq<AuxValue>, b: Seq<AuxValue>)
    requires
        w.len() > 0,
        b.len() > 0,
        w[0] == b[0],
    ensures
        is_subseq(w, b) == is_subseq(w.skip(1), b.skip(1)),
{
    if is_subseq(w, b) {
        if !is_subseq(w.skip(1), b.skip(1)) {
            assert(is_subseq(w, b.skip(1)));
            lemma_subseq_drop_first(w, b.skip(1));
        }
    }
}

/// The word the generator writes: one symbol per coin flip, `A` on heads,
/// `B` on tails, drawn from `flips` starting at index `start`.
pub open spec fn gen_word(flips: Seq<bool>, start: int, len: int) -> Seq<AuxValue> {
    Seq::new(
        len as nat,
        |t: int|
            if flips[start + t] {
                AuxValue::A
            } else {
                AuxValue::B
            },
    )
}

/// All cells from index `i` to the end of the allocated sequence are empty.
pub open spec fn all_empty_from<T>(cells: Seq<TapeValue<T>>, i: int) -> bool {
    forall|x: int| i <= x < cells.len() ==> #[trigger] cells[x] == TapeValue::<T>::Empty
}

/// An entirely blank cell sequence.
pub open spec fn blank_cells<T>(cells: Seq<TapeValue<T>>) -> bool {
    all_empty_from(cells, 0)
}

/// From delimiter position `i`, the tape holds a well-shaped list of one or
/// more non-empty blocks, separated by delimiters, with nothing but empty
/// cells after the last block.
pub open spec fn block_list_shape(cells: Seq<TapeValue<MainValue>>, i: int) -> bool
    decreases cells.len() - i,
{
    let l = block_len(cells, i + 1) as int;
    &&& l >= 1
    &&& match vcell(cells, i + 1 + l) {
        TapeValue::Value(MainValue::Hash) => block_list_shape(cells, i + 1 + l),
        TapeValue::Empty => all_empty_from(cells, i + 1 + l),
        _ => false,
    }
}

/// The blocks laid out after delimiter position `i`, in order.
pub open spec fn blocks_from(cells: Seq<TapeValue<MainValue>>, i: int) -> Seq<Seq<AuxValue>>
    decreases cells.len() - i,
{
    let l = block_len(cells, i + 1) as int;
    if vcell(cells, i + 1 + l) == TapeValue::Value(MainValue::Hash) {
        seq![block_at(cells, i + 1)].add(blocks_from(cells, i + 1 + l))
    } else {
        seq![block_at(cells, i + 1)]
    }
}

pub proof fn lemma_blocks_from_nonempty(cells: Seq<TapeValue<MainValue>>, i: int)
    ensures
        blocks_from(cells, i).len() >= 1,
        blocks_from(cells, i)[0] == block_at(cells, i + 1),
{
    let l = block_len(cells, i + 1) as int;
    if vcell(cells, i + 1 + l) == TapeValue::Value(MainValue::Hash) {
        assert(blocks_from(cells, i) == seq![block_at(cells, i + 1)].add(blocks_from(cells, i + 1 + l)));
    } else {
        assert(blocks_from(cells, i) == seq![block_at(cells, i + 1)]);
    }
}


} // verus!
