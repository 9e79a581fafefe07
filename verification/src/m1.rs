//! M1, the deterministic subsequence verifier: one run decides whether the
//! word on its auxiliary tape is a subsequence of the block its main-tape
//! head rests in front of. Unlike the standalone machine, this variant wires
//! no shared counter to its tapes, and it surrenders both tapes when it is
//! destroyed.

use vstd::prelude::*;

use crate::machine::{
    head_block, head_block_len, head_word, verifier_aux_ok, verifier_main_ok, verifier_walk,
    AuxValue, DestroyOutput, MainValue,
};
use crate::tape::{Tape, TapeModel};
use crate::words::{grows_right, is_subseq};

verus! {

/// The subsequence verifier machine.
pub struct M1 {
    main: Tape<MainValue>,
    aux: Tape<AuxValue>,
}

impl M1 {
    /// The model of the machine's main tape.
    pub closed spec fn main_model(&self) -> TapeModel<MainValue> {
        self.main@
    }

    /// The model of the machine's auxiliary tape.
    pub closed spec fn aux_model(&self) -> TapeModel<AuxValue> {
        self.aux@
    }

    /// The shape both tapes must have for a run: exactly what construction
    /// validates.
    pub open spec fn wf(&self) -> bool {
        &&& verifier_main_ok(self.main_model())
        &&& verifier_aux_ok(self.aux_model())
    }

    /// Takes ownership of the two tapes. The main head must rest on the
    /// delimiter before a non-empty block; the auxiliary head on an empty
    /// sentinel with only empty cells to its left, a non-empty word to its
    /// right, and nothing after the word.
    pub fn new(main_tape: Tape<MainValue>, aux_tape: Tape<AuxValue>) -> (r: Self)
        requires
            verifier_main_ok(main_tape@),
            verifier_aux_ok(aux_tape@),
        ensures
            r.wf(),
            r.main_model() == main_tape@,
            r.aux_model() == aux_tape@,
    {
        M1 { main: main_tape, aux: aux_tape }
    }

    /// Runs the verifier to its terminal state: accepts exactly when the
    /// auxiliary word is a subsequence of the current main block. The main
    /// head comes to rest on the cell ending the block, the auxiliary head
    /// back on its sentinel. A run consumes the constructed shape, so a
    /// machine runs once.
    #[must_use]
    pub fn run(&mut self) -> (r: bool)
        requires
            old(self).wf(),
        ensures
            r == is_subseq(head_word(old(self).aux_model()), head_block(old(self).main_model())),
            grows_right(final(self).main_model().cells, old(self).main_model().cells),
            final(self).main_model().head == old(self).main_model().head + 1 + head_block_len(
                old(self).main_model(),
            ),
            final(self).main_model().wf(),
            grows_right(final(self).aux_model().cells, old(self).aux_model().cells),
            final(self).aux_model().head == old(self).aux_model().head,
            final(self).aux_model().wf(),
    {
        // this variant carries no shared counter; a scratch counter absorbs
        // the ticks
        let mut steps: u64 = 0;
        verifier_walk(&mut self.main, &mut self.aux, &mut steps)
    }

    /// Consumes the machine and surrenders its two tapes in their final
    /// state.
    pub fn destroy(self) -> (r: DestroyOutput)
        ensures
            r.main_model() == self.main_model(),
            r.aux_model() == self.aux_model(),
    {
        DestroyOutput::new(self.main, self.aux)
    }
}

} // verus!
