//! M2, the word generator: walking the main tape's block, it writes one
//! coin-driven symbol per block cell onto the blank auxiliary tape, then
//! rewinds the auxiliary head to its sentinel and accepts. It has no
//! rejecting path. The coins are injected, so the run is a deterministic
//! function of its tapes and its coin supply.

use vstd::prelude::*;

use crate::machine::{
    blank_aux_ok, generator_main_ok, head_block_len, head_word, verifier_aux_ok, AuxValue,
    CoinFlips, DestroyOutput, MainValue,
};
use crate::tape::{Tape, TapeModel, TapeValue};
use crate::words::{gen_word, is_aux_letter, lemma_block_len_facts, lemma_word_len_unique, vcell};

verus! {

/// The cell an auxiliary tape holds at index `x` once the word `w` has been
/// written just right of sentinel position `j0`: the word's symbols, flanked
/// by empty cells on both sides.
pub open spec fn written_cell(j0: int, w: Seq<AuxValue>, x: int) -> TapeValue<AuxValue> {
    if j0 + 1 <= x <= j0 + w.len() {
        TapeValue::Value(w[x - j0 - 1])
    } else {
        TapeValue::Empty
    }
}

/// The word generator machine.
pub struct M2 {
    main_tape: Tape<MainValue>,
    aux_tape: Tape<AuxValue>,
}

impl M2 {
    /// The model of the machine's main tape.
    pub closed spec fn main_model(&self) -> TapeModel<MainValue> {
        self.main_tape@
    }

    /// The model of the machine's auxiliary tape.
    pub closed spec fn aux_model(&self) -> TapeModel<AuxValue> {
        self.aux_tape@
    }

    /// The shape both tapes must have for a run: exactly what construction
    /// validates.
    pub open spec fn wf(&self) -> bool {
        &&& generator_main_ok(self.main_model())
        &&& blank_aux_ok(self.aux_model())
    }

    /// Takes ownership of the two tapes. The main head must rest on an empty
    /// cell, with only empty cells to its left, immediately left of a
    /// non-empty block terminated by a delimiter; the auxiliary tape must be
    /// entirely blank.
    pub fn new(main_tape: Tape<MainValue>, aux_tape: Tape<AuxValue>) -> (r: Self)
        requires
            generator_main_ok(main_tape@),
            blank_aux_ok(aux_tape@),
        ensures
            r.wf(),
            r.main_model() == main_tape@,
            r.aux_model() == aux_tape@,
    {
        M2 { main_tape, aux_tape }
    }

    /// Runs the generator to its terminal state: always accepts, leaving the
    /// auxiliary tape holding one symbol per block cell — `A` where the
    /// corresponding coin came up heads, `B` where it came up tails — flanked
    /// by empty cells, with the auxiliary head back on its sentinel and the
    /// main head on the delimiter that ends the block.
    pub fn run(&mut self, coins: &mut CoinFlips) -> (r: bool)
        requires
            old(self).wf(),
            old(coins).wf(),
            old(coins).spec_remaining() >= head_block_len(old(self).main_model()),
        ensures
            r == true,
            final(self).main_model().cells == old(self).main_model().cells,
            final(self).main_model().head == old(self).main_model().head + 1 + head_block_len(
                old(self).main_model(),
            ),
            final(self).main_model().wf(),
            final(self).aux_model().head == old(self).aux_model().head,
            verifier_aux_ok(final(self).aux_model()),
            head_word(final(self).aux_model()) == gen_word(
                old(coins).flips(),
                old(coins).next(),
                head_block_len(old(self).main_model()),
            ),
            forall|x: int|
                0 <= x < final(self).aux_model().cells.len()
                    ==> #[trigger] final(self).aux_model().cells[x] == written_cell(
                    old(self).aux_model().head,
                    gen_word(
                        old(coins).flips(),
                        old(coins).next(),
                        head_block_len(old(self).main_model()),
                    ),
                    x,
                ),
            final(coins).wf(),
            final(coins).flips() == old(coins).flips(),
            final(coins).next() == old(coins).next() + head_block_len(old(self).main_model()),
    {
        let ghost mm0 = self.main_model();
        let ghost aa0 = self.aux_model();
        let ghost m0 = mm0.cells;
        let ghost h0 = mm0.head;
        let ghost j0 = aa0.head;
        let ghost bl = head_block_len(mm0);
        let ghost f0 = coins.flips();
        let ghost c0 = coins.next();
        let ghost gw = gen_word(f0, c0, bl);
        // this variant carries no shared counter; a scratch counter absorbs
        // the ticks
        let mut steps: u64 = 0;
        proof {
            lemma_block_len_facts(m0, h0 + 1);
            assert(gw.take(0) =~= Seq::<AuxValue>::empty());
        }
        let ghost mut t: int = 0;
        // writing phase: one coin-driven symbol per block cell
        loop
            invariant_except_break
                self.main_tape@.head == h0 + t,
                c0 + bl <= f0.len(),
            invariant
                mm0 == old(self).main_model(),
                aa0 == old(self).aux_model(),
                f0 == old(coins).flips(),
                c0 == old(coins).next(),
                m0 == mm0.cells,
                h0 == mm0.head,
                j0 == aa0.head,
                bl == head_block_len(mm0),
                gw == gen_word(f0, c0, bl),
                generator_main_ok(mm0),
                blank_aux_ok(aa0),
                0 <= t <= bl,
                self.main_tape@.cells == m0,
                self.main_tape@.wf(),
                self.aux_tape@.wf(),
                self.aux_tape@.head == j0 + t,
                forall|x: int|
                    0 <= x < self.aux_tape@.cells.len() ==> #[trigger] self.aux_tape@.cells[x]
                        == written_cell(j0, gw.take(t), x),
                coins.wf(),
                coins.flips() == f0,
                coins.next() == c0 + t,
            ensures
                t == bl,
                self.main_tape@.cells == m0,
                self.main_tape@.head == h0 + bl + 1,
                self.main_tape@.wf(),
                self.aux_tape@.wf(),
                self.aux_tape@.head == j0 + bl,
                forall|x: int|
                    0 <= x < self.aux_tape@.cells.len() ==> #[trigger] self.aux_tape@.cells[x]
                        == written_cell(j0, gw, x),
                coins.wf(),
                coins.flips() == f0,
                coins.next() == c0 + bl,
            decreases bl - t,
        {
            proof {
                lemma_block_len_facts(m0, h0 + 1);
            }
            self.main_tape.right(&mut steps);
            let c = self.main_tape.read(&mut steps);
            proof {
                assert(c == vcell(m0, h0 + 1 + t));
            }
            match c {
                TapeValue::Value(MainValue::Hash) => {
                    proof {
                        assert(t == bl);
                        assert(gw.take(bl) =~= gw);
                    }
                    break ;
                },
                _ => {
                    proof {
                        assert(t < bl);
                    }
                    self.aux_tape.right(&mut steps);
                    let pick = coins.flip();
                    if pick {
                        self.aux_tape.write(TapeValue::Value(AuxValue::A), &mut steps);
                    } else {
                        self.aux_tape.write(TapeValue::Value(AuxValue::B), &mut steps);
                    }
                    proof {
                        t = t + 1;
                        assert(gw[t - 1] == (if f0[c0 + (t - 1)] {
                            AuxValue::A
                        } else {
                            AuxValue::B
                        }));
                        assert forall|x: int| 0 <= x < self.aux_tape@.cells.len() implies #[trigger] self.aux_tape@.cells[x] == written_cell(j0, gw.take(t), x) by {
                            if x == j0 + t {
                                assert(self.aux_tape@.cells[x] == TapeValue::Value(gw[t - 1]));
                            } else {
                                assert(written_cell(j0, gw.take(t), x) == written_cell(
                                    j0,
                                    gw.take(t - 1),
                                    x,
                                ));
                            }
                        }
                    }
                },
            }
        }
        let ghost a1 = self.aux_tape@.cells;
        // rewind phase: walk the auxiliary head back to its sentinel
        loop
            invariant_except_break
                j0 + 1 <= self.aux_tape@.head <= j0 + bl,
            invariant
                mm0 == old(self).main_model(),
                aa0 == old(self).aux_model(),
                f0 == old(coins).flips(),
                c0 == old(coins).next(),
                m0 == mm0.cells,
                h0 == mm0.head,
                j0 == aa0.head,
                bl == head_block_len(mm0),
                gw == gen_word(f0, c0, bl),
                generator_main_ok(mm0),
                blank_aux_ok(aa0),
                self.main_tape@.cells == m0,
                self.main_tape@.head == h0 + bl + 1,
                self.main_tape@.wf(),
                self.aux_tape@.cells == a1,
                self.aux_tape@.wf(),
                j0 <= self.aux_tape@.head <= j0 + bl,
                forall|x: int|
                    0 <= x < a1.len() ==> #[trigger] a1[x] == written_cell(j0, gw, x),
                coins.wf(),
                coins.flips() == f0,
                coins.next() == c0 + bl,
            ensures
                self.aux_tape@.cells == a1,
                self.aux_tape@.wf(),
                self.aux_tape@.head == j0,
            decreases self.aux_tape@.head - j0,
        {
            self.aux_tape.left(&mut steps);
            let c = self.aux_tape.read(&mut steps);
            match c {
                TapeValue::Value(_) => {
                    proof {
                        assert(self.aux_tape@.head >= j0 + 1) by {
                            if self.aux_tape@.head == j0 {
                                assert(a1[j0] == written_cell(j0, gw, j0));
                            }
                        }
                    }
                },
                TapeValue::Empty => {
                    proof {
                        if self.aux_tape@.head > j0 {
                            assert(a1[self.aux_tape@.head] == written_cell(
                                j0,
                                gw,
                                self.aux_tape@.head,
                            ));
                        }
                        assert(self.aux_tape@.head == j0);
                    }
                    break ;
                },
            }
        }
        proof {
            assert forall|tt: int| 0 <= tt < bl implies is_aux_letter(
                #[trigger] vcell(a1, j0 + 1 + tt),
            ) by {
                assert(a1[j0 + 1 + tt] == written_cell(j0, gw, j0 + 1 + tt));
            }
            assert(!is_aux_letter(vcell(a1, j0 + 1 + bl)));
            lemma_word_len_unique(a1, j0 + 1, bl);
            assert(head_word(self.aux_model()) =~= gw);
        }
        true
    }

    /// Consumes the machine and surrenders its two tapes in their final
    /// state.
    pub fn destroy(self) -> (r: DestroyOutput)
        ensures
            r.main_model() == self.main_model(),
            r.aux_model() == self.aux_model(),
    {
        DestroyOutput::new(self.main_tape, self.aux_tape)
    }
}

} // verus!
