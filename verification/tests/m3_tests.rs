use tape_machines::m3::M3;
use tape_machines::machine::{CoinFlips, MainValue};
use tape_machines::tape::{Tape, TapeConstructor, TapeValue};

fn str_to_m3_main_tape(s: &str) -> Tape<MainValue> {
    let mut data = vec![TapeConstructor::Head(TapeValue::Empty)];
    for char in s.chars() {
        match char {
            'a' => data.push(TapeConstructor::Value(TapeValue::Value(MainValue::A))),
            'b' => data.push(TapeConstructor::Value(TapeValue::Value(MainValue::B))),
            '#' => data.push(TapeConstructor::Value(TapeValue::Value(MainValue::Hash))),
            _ => panic!("Invalid character in M3 main tape"),
        }
    }
    Tape::new(data)
}

fn blank_aux_tape() -> Tape<tape_machines::machine::AuxValue> {
    Tape::new(vec![TapeConstructor::Head(TapeValue::Empty)])
}

fn is_present(s: &str, substring: &str) -> bool {
    let mut current_substring_char = substring.chars().peekable();
    for char in s.chars() {
        let current_goal = match current_substring_char.peek() {
            Some(c) => c,
            None => return true,
        };
        if &char == current_goal {
            current_substring_char.next();
        }
    }
    return current_substring_char.peek().is_none();
}

fn m3_own(s: &str, substring: &str) -> bool {
    let mut words = s.split('#');
    if words.next().unwrap().len() != substring.len() {
        return false;
    }
    for word in words {
        if !is_present(word, substring) {
            return false;
        }
    }
    true
}

/// The coin sequence whose bits spell out `draw`, most significant flip first.
fn coins_from_bits(draw: u32, len: usize) -> CoinFlips {
    let mut flips = Vec::new();
    for position in 0..len {
        flips.push(draw & (1 << (len - 1 - position)) != 0);
    }
    CoinFlips::new(flips)
}

#[test]
fn m3_run() {
    let s = "aba#aba#aba";
    let main_tape = str_to_m3_main_tape(s);
    let aux_tape = blank_aux_tape();
    let mut coins = CoinFlips::new(vec![true, false, true]);
    let mut m3 = M3::new(main_tape, aux_tape);
    let output = m3.run(&mut coins);
    let substring = m3.substring();
    assert_eq!(m3_own(s, substring), output);
}

#[test]
fn test_is_present() {
    assert!(is_present("abba", "aa"));
    assert!(is_present("abbba", "aba"));
    assert!(is_present("abbba", "abbba"));
    assert!(!is_present("abba", "aab"));
}

#[test]
fn test_m3_own() {
    assert!(m3_own("abba#abba#abba", "abba"));
    assert!(m3_own("abba#abbba#abba", "abba"));
    assert!(!m3_own("abba#aba", "abba"));
    assert!(!m3_own("abba#abbba#abba", "abaa"));
}

#[test]
fn m3_every_draw_three_equal_blocks() {
    // for every possible draw, the verdict equals the reference check of the
    // returned witness
    let s = "aba#aba#aba";
    for draw in 0u32..8 {
        let mut coins = coins_from_bits(draw, 3);
        let mut m3 = M3::new(str_to_m3_main_tape(s), blank_aux_tape());
        let verdict = m3.run(&mut coins);
        let witness = m3.substring();
        assert_eq!(witness.len(), 3);
        assert_eq!(verdict, m3_own(s, witness), "draw {draw} witness {witness}");
    }
}

#[test]
fn m3_every_draw_unequal_blocks() {
    // no word of the first block's length fits inside a shorter block, so
    // every draw is rejected, and each verdict matches the reference check
    let s = "abba#aba";
    for draw in 0u32..16 {
        let mut coins = coins_from_bits(draw, 4);
        let mut m3 = M3::new(str_to_m3_main_tape(s), blank_aux_tape());
        let verdict = m3.run(&mut coins);
        let witness = m3.substring();
        assert_eq!(witness.len(), 4);
        assert_eq!(verdict, m3_own(s, witness), "draw {draw} witness {witness}");
        assert!(!verdict);
    }
}

#[test]
fn m3_accepting_draw_found() {
    // on two equal blocks the draw that spells the block itself must accept
    let s = "ab#ab";
    let mut coins = CoinFlips::new(vec![true, false]);
    let mut m3 = M3::new(str_to_m3_main_tape(s), blank_aux_tape());
    let verdict = m3.run(&mut coins);
    assert_eq!(m3.substring(), "ab");
    assert!(verdict);

    let mut coins = CoinFlips::new(vec![false, true]);
    let mut m3 = M3::new(str_to_m3_main_tape(s), blank_aux_tape());
    let verdict = m3.run(&mut coins);
    assert_eq!(m3.substring(), "ba");
    assert!(!verdict);
}
