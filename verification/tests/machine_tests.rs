use tape_machines::machine::{
    check_blank_aux, check_generator_main, check_orchestrator_main, check_verifier_aux,
    check_verifier_main, first_block_len, AuxValue, MainValue, TuringMachine,
};
use tape_machines::tape::{Tape, TapeConstructor, TapeValue};

fn main_descriptors(s: &str, head_first: bool) -> Vec<TapeConstructor<MainValue>> {
    let mut data = Vec::new();
    for (index, c) in s.chars().enumerate() {
        let cell = match c {
            'a' => TapeValue::Value(MainValue::A),
            'b' => TapeValue::Value(MainValue::B),
            '#' => TapeValue::Value(MainValue::Hash),
            '_' => TapeValue::Empty,
            _ => panic!("unexpected main-tape character"),
        };
        if index == 0 && head_first {
            data.push(TapeConstructor::Head(cell));
        } else {
            data.push(TapeConstructor::Value(cell));
        }
    }
    data
}

fn aux_descriptors(s: &str, head_first: bool) -> Vec<TapeConstructor<AuxValue>> {
    let mut data = Vec::new();
    for (index, c) in s.chars().enumerate() {
        let cell = match c {
            'a' => TapeValue::Value(AuxValue::A),
            'b' => TapeValue::Value(AuxValue::B),
            '_' => TapeValue::Empty,
            _ => panic!("unexpected aux-tape character"),
        };
        if index == 0 && head_first {
            data.push(TapeConstructor::Head(cell));
        } else {
            data.push(TapeConstructor::Value(cell));
        }
    }
    data
}

#[test]
fn machine_new() {
    TuringMachine::new(
        main_descriptors("#abba#", true),
        aux_descriptors("_ab_", true),
    );
}

#[test]
fn verifier_accepts_subsequence() {
    // the word "aa" occurs inside the block "abab"
    let mut machine = TuringMachine::new(
        main_descriptors("#abab", true),
        aux_descriptors("_aa", true),
    );
    assert!(machine.run());
    assert!(machine.steps_ran() > 0);
}

#[test]
fn verifier_rejects_missing_letter() {
    // the word "bb" does not occur inside the block "aa"
    let mut machine = TuringMachine::new(
        main_descriptors("#aa", true),
        aux_descriptors("_bb", true),
    );
    assert!(!machine.run());
}

#[test]
fn verifier_scans_past_other_letters() {
    let mut machine = TuringMachine::new(
        main_descriptors("#babba#ab", true),
        aux_descriptors("_ab_", true),
    );
    assert!(machine.run());

    let mut machine = TuringMachine::new(
        main_descriptors("#bba#ab", true),
        aux_descriptors("_ab_", true),
    );
    assert!(!machine.run());
}

#[test]
fn shape_checks() {
    // verifier main tape: head on a delimiter before a non-empty block
    assert!(check_verifier_main(&Tape::new(main_descriptors("#ab", true))));
    assert!(!check_verifier_main(&Tape::new(main_descriptors("#_ab", true))));
    assert!(!check_verifier_main(&Tape::new(main_descriptors("aab", true))));

    // verifier aux tape: empty sentinel, a word, then nothing
    assert!(check_verifier_aux(&Tape::new(aux_descriptors("_ab_", true))));
    assert!(!check_verifier_aux(&Tape::new(aux_descriptors("__", true))));
    assert!(!check_verifier_aux(&Tape::new(aux_descriptors("_a_b", true))));

    // generator main tape: empty head, a block, then a delimiter
    assert!(check_generator_main(&Tape::new(main_descriptors("_ab#", true))));
    assert!(!check_generator_main(&Tape::new(main_descriptors("_ab", true))));
    assert!(!check_generator_main(&Tape::new(main_descriptors("_#", true))));

    // blank aux tape
    assert!(check_blank_aux(&Tape::new(aux_descriptors("___", true))));
    assert!(!check_blank_aux(&Tape::new(aux_descriptors("__a", true))));

    // orchestrator main tape: delimiter-separated non-empty blocks
    assert!(check_orchestrator_main(&Tape::new(main_descriptors("_aba#aba", true))));
    assert!(check_orchestrator_main(&Tape::new(main_descriptors("_aba__", true))));
    assert!(!check_orchestrator_main(&Tape::new(main_descriptors("_aba#", true))));
    assert!(!check_orchestrator_main(&Tape::new(main_descriptors("_aba#_a", true))));

    assert_eq!(first_block_len(&Tape::new(main_descriptors("_abba#a", true))), 4);
}
