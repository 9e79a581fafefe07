use tape_machines::tape::{descriptors_have_unique_head, Tape, TapeConstructor, TapeValue};

#[test]
fn tape_new() {
    let mut steps: u64 = 0;

    let mut tape = Tape::new(vec![
        TapeConstructor::Value(TapeValue::Empty),
        TapeConstructor::Head(TapeValue::Value(0)),
        TapeConstructor::Value(TapeValue::Empty),
    ]);
    assert_eq!(tape.head(), 1);
    assert_eq!(
        tape.data(),
        &vec![TapeValue::Empty, TapeValue::Value(0), TapeValue::Empty]
    );
    assert_eq!(tape.read(&mut steps), TapeValue::Value(0));
    // First
    tape.left(&mut steps);
    assert_eq!(tape.read(&mut steps), TapeValue::Empty);
    assert!(tape.is_at_head());
    // Out of bounds
    tape.left(&mut steps);
    assert_eq!(tape.read(&mut steps), TapeValue::Empty);
    // First
    tape.right(&mut steps);
    assert_eq!(tape.read(&mut steps), TapeValue::Empty);
    // Original head
    tape.right(&mut steps);
    assert_eq!(tape.read(&mut steps), TapeValue::Value(0));
    // Third
    tape.right(&mut steps);
    assert_eq!(tape.read(&mut steps), TapeValue::Empty);
    assert!(tape.is_at_end());
    // Out of bounds
    tape.right(&mut steps);
    assert_eq!(tape.read(&mut steps), TapeValue::Empty);

    assert_eq!(
        tape.data(),
        &vec![
            TapeValue::Empty,
            TapeValue::Empty,
            TapeValue::Value(0),
            TapeValue::Empty,
            TapeValue::Empty
        ]
    );
    assert_eq!(tape.head(), 4);

    assert_eq!(steps, 13);
}

#[test]
fn descriptor_validation() {
    // what used to be fatal construction errors is now a checked precondition
    let empty: Vec<TapeConstructor<i32>> = vec![];
    assert!(!descriptors_have_unique_head(&empty));

    let no_head: Vec<TapeConstructor<i32>> = vec![TapeConstructor::Value(TapeValue::Empty)];
    assert!(!descriptors_have_unique_head(&no_head));

    let two_heads: Vec<TapeConstructor<i32>> = vec![
        TapeConstructor::Value(TapeValue::Empty),
        TapeConstructor::Head(TapeValue::Empty),
        TapeConstructor::Head(TapeValue::Empty),
    ];
    assert!(!descriptors_have_unique_head(&two_heads));

    let good: Vec<TapeConstructor<i32>> = vec![
        TapeConstructor::Value(TapeValue::Empty),
        TapeConstructor::Head(TapeValue::Value(7)),
    ];
    assert!(descriptors_have_unique_head(&good));
}

#[test]
fn constructor_round_trip() {
    let descriptors = vec![
        TapeConstructor::Value(TapeValue::Value(1)),
        TapeConstructor::Value(TapeValue::Empty),
        TapeConstructor::Head(TapeValue::Value(2)),
        TapeConstructor::Value(TapeValue::Value(3)),
    ];
    let tape = Tape::new(descriptors.clone());
    assert_eq!(tape.as_constructor(), descriptors);
}

#[test]
fn left_right_round_trip() {
    let mut steps: u64 = 0;

    // away from the boundary: left then right restores head and contents
    let mut tape = Tape::new(vec![
        TapeConstructor::Value(TapeValue::Value(1)),
        TapeConstructor::Head(TapeValue::Value(2)),
    ]);
    let before = tape.data().clone();
    tape.left(&mut steps);
    tape.right(&mut steps);
    assert_eq!(tape.head(), 1);
    assert_eq!(tape.data(), &before);

    // across the boundary: the tape grows by exactly one leading empty cell,
    // permanently, and the head is back over the cell it started on
    let mut tape = Tape::new(vec![
        TapeConstructor::Head(TapeValue::Value(1)),
        TapeConstructor::Value(TapeValue::Value(2)),
    ]);
    tape.left(&mut steps);
    tape.right(&mut steps);
    assert_eq!(tape.head(), 1);
    assert_eq!(
        tape.data(),
        &vec![
            TapeValue::Empty,
            TapeValue::Value(1),
            TapeValue::Value(2)
        ]
    );
    assert_eq!(tape.read(&mut steps), TapeValue::Value(1));
}

#[test]
fn shared_counter_splits_across_tapes() {
    // one counter wired to two tapes totals every stepping operation
    let mut steps: u64 = 0;
    let mut left_tape: Tape<i32> = Tape::new(vec![TapeConstructor::Head(TapeValue::Empty)]);
    let mut right_tape: Tape<i32> = Tape::new(vec![TapeConstructor::Head(TapeValue::Empty)]);

    left_tape.right(&mut steps);
    right_tape.left(&mut steps);
    left_tape.write(TapeValue::Value(4), &mut steps);
    let _ = right_tape.read(&mut steps);
    left_tape.left(&mut steps);
    let _ = left_tape.read(&mut steps);
    right_tape.right(&mut steps);

    assert_eq!(steps, 7);

    // inspection operations do not count
    let _ = left_tape.is_at_head();
    let _ = right_tape.is_at_end();
    let _ = left_tape.data();
    let _ = right_tape.head();
    assert_eq!(steps, 7);
}
