use tape_machines::m2::M2;
use tape_machines::machine::{AuxValue, CoinFlips, MainValue};
use tape_machines::tape::{Tape, TapeConstructor, TapeValue};

#[test]
fn m2_run() {
    let main_tape = Tape::new(vec![
        TapeConstructor::Head(TapeValue::Empty),
        TapeConstructor::Value(TapeValue::Value(MainValue::A)),
        TapeConstructor::Value(TapeValue::Value(MainValue::B)),
        TapeConstructor::Value(TapeValue::Value(MainValue::A)),
        TapeConstructor::Value(TapeValue::Value(MainValue::B)),
        TapeConstructor::Value(TapeValue::Value(MainValue::Hash)),
    ]);
    let aux_tape = Tape::new(vec![TapeConstructor::Head(TapeValue::Empty)]);
    let mut coins = CoinFlips::new(vec![true, false, false, true]);
    let mut m2 = M2::new(main_tape.clone(), aux_tape);
    m2.run(&mut coins);
    let output = m2.destroy();
    let mut steps: u64 = 0;

    assert_eq!(output.main_tape().data(), main_tape.data());
    assert_eq!(output.main_tape().head(), 5);
    assert_eq!(
        output.main_tape().read(&mut steps),
        TapeValue::Value(MainValue::Hash)
    );

    assert_eq!(output.aux_tape().read(&mut steps), TapeValue::Empty);
    assert_eq!(output.aux_tape().head(), 0);
    for index in 1..5 {
        match output.aux_tape().data()[index] {
            TapeValue::Value(AuxValue::A | AuxValue::B) => {}
            _ => panic!(),
        };
    }
    assert_eq!(
        output.aux_tape().data().get(5).unwrap_or(&TapeValue::Empty),
        &TapeValue::Empty
    );
}

#[test]
fn m2_writes_the_coin_word() {
    // heads write A, tails write B, one symbol per block cell
    let main_tape = Tape::new(vec![
        TapeConstructor::Head(TapeValue::Empty),
        TapeConstructor::Value(TapeValue::Value(MainValue::B)),
        TapeConstructor::Value(TapeValue::Value(MainValue::B)),
        TapeConstructor::Value(TapeValue::Value(MainValue::A)),
        TapeConstructor::Value(TapeValue::Value(MainValue::Hash)),
    ]);
    let aux_tape = Tape::new(vec![TapeConstructor::Head(TapeValue::Empty)]);
    let mut coins = CoinFlips::new(vec![false, true, false]);
    let mut m2 = M2::new(main_tape, aux_tape);
    assert!(m2.run(&mut coins));
    assert_eq!(coins.remaining(), 0);
    let output = m2.destroy();

    let written = output.aux_tape().data();
    assert_eq!(written[1], TapeValue::Value(AuxValue::B));
    assert_eq!(written[2], TapeValue::Value(AuxValue::A));
    assert_eq!(written[3], TapeValue::Value(AuxValue::B));
    assert_eq!(written[0], TapeValue::Empty);
    assert_eq!(written.get(4).unwrap_or(&TapeValue::Empty), &TapeValue::Empty);
    assert_eq!(output.aux_tape().head(), 0);
}
