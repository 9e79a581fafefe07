//! M3, the orchestrator: it draws one random word with the generator, keeps
//! it as the run's witness substring, then checks that word against every
//! remaining block with the verifier, short-circuiting on the first
//! rejection. A run is a one-shot probabilistic check of "does a word of the
//! first block's length occur as a subsequence inside every other block?".

use vstd::prelude::*;
use vstd::string::StringExecFns;

use crate::m1::M1;
use crate::m2::{written_cell, M2};
use crate::machine::{
    blank_aux_ok, head_block_len, head_word, lemma_verifier_aux_ok_grows,
    orchestrator_main_ok, verifier_aux_ok, verifier_main_ok, AuxValue, CoinFlips, DestroyOutput,
    MainValue,
};
use crate::tape::{Tape, TapeModel, TapeValue};
use crate::words::{
    blocks_from, block_at, block_len, block_list_shape, gen_word, grows_right, is_subseq,
    lemma_block_at_grows_right, lemma_block_len_facts, lemma_block_len_grows_right,
    lemma_blocks_from_nonempty, lemma_grows_right_push, lemma_grows_right_refl,
    lemma_grows_right_trans, lemma_grows_right_vcell, lemma_word_len_facts, vcell,
};

verus! {

/// The character a written symbol decodes to.
pub open spec fn sym_char(v: AuxValue) -> char {
    if v == AuxValue::A {
        'a'
    } else {
        'b'
    }
}

/// The character string a written word decodes to.
pub open spec fn word_chars(w: Seq<AuxValue>) -> Seq<char> {
    Seq::new(w.len(), |i: int| sym_char(w[i]))
}

/// The orchestrator's verdict for a drawn word: it must be a subsequence of
/// every block after the first (the first block only fixes the word's
/// length).
pub open spec fn orchestrator_accepts(m: TapeModel<MainValue>, w: Seq<AuxValue>) -> bool {
    forall|j: int|
        1 <= j < blocks_from(m.cells, m.head).len() ==> is_subseq(
            w,
            #[trigger] blocks_from(m.cells, m.head)[j],
        )
}

/// The word the orchestrator draws from a coin supply: one symbol per cell of
/// the first block.
pub open spec fn drawn_word(m: TapeModel<MainValue>, flips: Seq<bool>, next: int) -> Seq<AuxValue> {
    gen_word(flips, next, head_block_len(m))
}

/// The orchestrator machine.
pub struct M3 {
    main_tape: Tape<MainValue>,
    aux_tape: Tape<AuxValue>,
    substring: Option<String>,
}

impl M3 {
    /// The model of the machine's main tape.
    pub closed spec fn main_model(&self) -> TapeModel<MainValue> {
        self.main_tape@
    }

    /// The model of the machine's auxiliary tape.
    pub closed spec fn aux_model(&self) -> TapeModel<AuxValue> {
        self.aux_tape@
    }

    /// The witness substring drawn by the generator phase, if a run has
    /// happened.
    pub closed spec fn substring_model(&self) -> Option<Seq<char>> {
        match self.substring {
            Some(s) => Some(s@),
            None => None,
        }
    }

    /// The shape both tapes must have for a run: exactly what construction
    /// validates.
    pub open spec fn wf(&self) -> bool {
        &&& orchestrator_main_ok(self.main_model())
        &&& blank_aux_ok(self.aux_model())
    }

    /// Takes ownership of the two tapes. The main head must rest on an empty
    /// cell with only empty cells to its left, followed by one or more
    /// non-empty blocks separated by delimiters and then nothing; the
    /// auxiliary tape must be entirely blank.
    pub fn new(main_tape: Tape<MainValue>, aux_tape: Tape<AuxValue>) -> (r: Self)
        requires
            orchestrator_main_ok(main_tape@),
            blank_aux_ok(aux_tape@),
        ensures
            r.wf(),
            r.main_model() == main_tape@,
            r.aux_model() == aux_tape@,
            r.substring_model() is None,
    {
        M3 { main_tape, aux_tape, substring: None }
    }

    /// The witness substring drawn during the run: non-empty, readable only
    /// once a run has set it.
    pub fn substring(&self) -> (r: &str)
        requires
            self.substring_model() is Some,
        ensures
            Some(r@) == self.substring_model(),
    {
        match &self.substring {
            Some(s) => s.as_str(),
            None => vstd::pervasive::unreached(),
        }
    }

    /// Runs the orchestrator: draws one word of the first block's length from
    /// the coin supply, keeps it as the witness substring, and accepts
    /// exactly when that word is a subsequence of every block after the
    /// first. The main tape must hold at least two blocks (the first block's
    /// delimiter is what the generator stops on), and the coin supply must
    /// cover the first block.
    #[must_use]
    pub fn run(&mut self, coins: &mut CoinFlips) -> (r: bool)
        requires
            old(self).wf(),
            vcell(
                old(self).main_model().cells,
                old(self).main_model().head + 1 + head_block_len(old(self).main_model()),
            ) == TapeValue::Value(MainValue::Hash),
            old(coins).wf(),
            old(coins).spec_remaining() >= head_block_len(old(self).main_model()),
        ensures
            r == orchestrator_accepts(
                old(self).main_model(),
                drawn_word(old(self).main_model(), old(coins).flips(), old(coins).next()),
            ),
            final(self).substring_model() == Some(
                word_chars(
                    drawn_word(old(self).main_model(), old(coins).flips(), old(coins).next()),
                ),
            ),
            grows_right(final(self).main_model().cells, old(self).main_model().cells),
            verifier_aux_ok(final(self).aux_model()),
            final(self).aux_model().head == old(self).aux_model().head,
            final(coins).wf(),
            final(coins).flips() == old(coins).flips(),
            final(coins).next() == old(coins).next() + head_block_len(old(self).main_model()),
    {
        let ghost mm0 = self.main_model();
        let ghost aa0 = self.aux_model();
        let ghost m0 = mm0.cells;
        let ghost h0 = mm0.head;
        let ghost j0 = aa0.head;
        let ghost bl1 = head_block_len(mm0);
        let ghost f0 = coins.flips();
        let ghost c0 = coins.next();
        let ghost gw = gen_word(f0, c0, bl1);
        let ghost bs = blocks_from(m0, h0);

        // generator phase: draw the witness word onto the auxiliary tape
        proof {
            assert(block_list_shape(m0, h0));
            assert(block_len(m0, h0 + 1) >= 1);
        }
        let mut m2 = M2::new(self.main_tape.clone(), self.aux_tape.clone());
        m2.run(coins);
        let out = m2.destroy();
        self.main_tape = out.main_tape().clone();
        self.aux_tape = out.aux_tape().clone();
        let ghost a1 = self.aux_tape@.cells;
        proof {
            assert(crate::words::word_len(a1, j0 + 1) == bl1);
            lemma_word_len_facts(a1, j0 + 1);
            assert(crate::words::is_aux_letter(vcell(a1, j0 + 1 + (bl1 - 1))));
            assert(a1.len() > j0 + bl1);
        }

        // decode the drawn word into the witness substring
        let mut scratch: u64 = 0;  // these tapes carry no shared counter
        let mut reader = self.aux_tape.clone();
        let mut sub = String::new();
        let ghost mut d: int = 0;
        proof {
            lemma_grows_right_refl(a1);
            assert(sub@ =~= word_chars(gw).take(0));
        }
        loop
            invariant_except_break
                reader@.head == j0 + d,
            invariant
                a1 == self.aux_tape@.cells,
                j0 == aa0.head,
                bl1 >= 1,
                gw.len() == bl1,
                0 <= j0,
                0 <= d <= bl1,
                a1.len() > j0 + bl1,
                forall|x: int| 0 <= x < a1.len() ==> #[trigger] a1[x] == written_cell(j0, gw, x),
                reader@.wf(),
                grows_right(reader@.cells, a1),
                sub@ == word_chars(gw).take(d),
            ensures
                d == bl1,
                sub@ == word_chars(gw).take(d),
            decreases bl1 - d,
        {
            let ghost pre = reader@.cells;
            reader.right(&mut scratch);
            proof {
                if reader@.cells != pre {
                    lemma_grows_right_push(pre);
                } else {
                    lemma_grows_right_refl(pre);
                }
                lemma_grows_right_trans(reader@.cells, pre, a1);
                lemma_grows_right_vcell(reader@.cells, a1);
            }
            let c = reader.read(&mut scratch);
            proof {
                assert(c == vcell(a1, j0 + 1 + d));
                if d < bl1 {
                    assert(a1[j0 + 1 + d] == written_cell(j0, gw, j0 + 1 + d));
                    assert(c == TapeValue::Value(gw[d]));
                }
            }
            match c {
                TapeValue::Value(AuxValue::A) => {
                    sub.append("a");
                    proof {
                        d = d + 1;
                        reveal_strlit("a");
                        assert(sym_char(gw[d - 1]) == 'a');
                        assert(sub@ =~= word_chars(gw).take(d));
                    }
                },
                TapeValue::Value(AuxValue::B) => {
                    sub.append("b");
                    proof {
                        d = d + 1;
                        reveal_strlit("b");
                        assert(sym_char(gw[d - 1]) == 'b');
                        assert(sub@ =~= word_chars(gw).take(d));
                    }
                },
                TapeValue::Empty => {
                    proof {
                        assert(d == bl1);
                    }
                    break ;
                },
            }
        }
        proof {
            assert(word_chars(gw).take(bl1) =~= word_chars(gw));
        }
        self.substring = Some(sub);

        // verifier phase: check the witness against each remaining block
        let ghost mut jdx: int = 1;
        let ghost mut pos: int = h0 + 1 + bl1;
        proof {
            assert(bs == seq![block_at(m0, h0 + 1)].add(blocks_from(m0, pos)));
            assert(blocks_from(m0, pos) =~= bs.skip(1));
            assert(block_list_shape(m0, pos));
            lemma_blocks_from_nonempty(m0, pos);
            lemma_grows_right_refl(m0);
        }
        loop
            invariant
                mm0 == old(self).main_model(),
                aa0 == old(self).aux_model(),
                f0 == old(coins).flips(),
                c0 == old(coins).next(),
                m0 == mm0.cells,
                h0 == mm0.head,
                j0 == aa0.head,
                bl1 == head_block_len(mm0),
                gw == gen_word(f0, c0, bl1),
                bs == blocks_from(m0, h0),
                1 <= jdx < bs.len(),
                0 <= pos,
                vcell(m0, pos) == TapeValue::Value(MainValue::Hash),
                block_list_shape(m0, pos),
                blocks_from(m0, pos) == bs.skip(jdx),
                forall|tt: int| 1 <= tt < jdx ==> is_subseq(gw, #[trigger] bs[tt]),
                self.main_tape@.wf(),
                grows_right(self.main_tape@.cells, m0),
                self.main_tape@.head == pos,
                self.aux_tape@.wf(),
                verifier_aux_ok(self.aux_tape@),
                self.aux_tape@.head == j0,
                head_word(self.aux_tape@) == gw,
                self.substring_model() == Some(word_chars(gw)),
                coins.wf(),
                coins.flips() == f0,
                coins.next() == c0 + bl1,
            decreases bs.len() - jdx,
        {
            proof {
                lemma_grows_right_vcell(self.main_tape@.cells, m0);
                lemma_block_len_grows_right(self.main_tape@.cells, m0, pos + 1);
                lemma_block_at_grows_right(self.main_tape@.cells, m0, pos + 1);
                assert(block_len(m0, pos + 1) >= 1);
                assert(verifier_main_ok(self.main_tape@));
            }
            let ghost mc = self.main_tape@.cells;
            let ghost ac = self.aux_tape@;
            let ghost lb = block_len(m0, pos + 1) as int;
            let mut m1 = M1::new(self.main_tape.clone(), self.aux_tape.clone());
            let verdict = m1.run();
            let out = m1.destroy();
            self.main_tape = out.main_tape().clone();
            self.aux_tape = out.aux_tape().clone();
            proof {
                lemma_grows_right_trans(self.main_tape@.cells, mc, m0);
                lemma_grows_right_vcell(self.main_tape@.cells, m0);
                lemma_verifier_aux_ok_grows(ac, self.aux_tape@.cells);
                lemma_blocks_from_nonempty(m0, pos);
                assert(bs.skip(jdx)[0] == bs[jdx]);
                assert(bs[jdx] == block_at(m0, pos + 1));
                assert(verdict == is_subseq(gw, bs[jdx]));
            }
            if verdict {
                let c = self.main_tape.read(&mut scratch);
                proof {
                    assert(c == vcell(m0, pos + 1 + lb));
                }
                match c {
                    TapeValue::Empty => {
                        proof {
                            assert(blocks_from(m0, pos) == seq![block_at(m0, pos + 1)]);
                            assert(bs.skip(jdx).len() == 1);
                            assert(jdx == bs.len() - 1);
                            assert forall|tt: int| 1 <= tt < bs.len() implies is_subseq(
                                gw,
                                #[trigger] bs[tt],
                            ) by {
                                if tt == jdx {
                                    assert(is_subseq(gw, bs[jdx]));
                                }
                            }
                        }
                        return true;
                    },
                    TapeValue::Value(MainValue::Hash) => {
                        proof {
                            assert(blocks_from(m0, pos) == seq![block_at(m0, pos + 1)].add(
                                blocks_from(m0, pos + 1 + lb),
                            ));
                            let rest = blocks_from(m0, pos + 1 + lb);
                            assert(bs.skip(jdx).len() == 1 + rest.len());
                            assert(bs.skip(jdx + 1).len() == rest.len());
                            assert forall|k: int| 0 <= k < rest.len() implies bs.skip(jdx + 1)[k]
                                == rest[k] by {
                                assert(bs.skip(jdx + 1)[k] == bs[jdx + 1 + k]);
                                assert(bs.skip(jdx)[k + 1] == bs[jdx + 1 + k]);
                                assert(seq![block_at(m0, pos + 1)].add(rest)[k + 1] == rest[k]);
                            }
                            assert(blocks_from(m0, pos + 1 + lb) =~= bs.skip(jdx + 1));
                            assert(block_list_shape(m0, pos + 1 + lb));
                            lemma_blocks_from_nonempty(m0, pos + 1 + lb);
                            jdx = jdx + 1;
                            pos = pos + 1 + lb;
                        }
                    },
                    TapeValue::Value(_) => {
                        proof {
                            lemma_block_len_facts(m0, pos + 1);
                            assert(false);
                        }
                    },
                }
            } else {
                proof {
                    assert(!is_subseq(gw, bs[jdx]));
                    assert(!orchestrator_accepts(mm0, gw));
                }
                return false;
            }
        }
    }

    /// Consumes the machine and surrenders its two tapes in their final
    /// state.
    pub fn destroy(self) -> (r: DestroyOutput)
        ensures
            r.main_model() == self.main_model(),
            r.aux_model() == self.aux_model(),
    {
        DestroyOutput::new(self.main_tape, self.aux_tape)
    }
}

} // verus!

