use chord_transposer::notes::{flat_name_chars, is_recognized_modifier, sharp_name_chars, shifted_index};
use chord_transposer::token::classify_run;
use chord_transposer::{transpose_text, Chord, ChordTransposerApp, Line, Text};

fn chord(base: &str, modifier: Option<&str>) -> Chord {
    Chord::new(base, modifier)
}

fn name(v: Vec<char>) -> String {
    v.into_iter().collect()
}

#[test]
fn every_pitch_moves_to_the_sharp_name_of_its_shifted_class() {
    for i in 0..12usize {
        for n in [-25i32, -13, -12, -1, 0, 1, 5, 11, 12, 23, 100] {
            let expected = name(sharp_name_chars(((i as i32 + n).rem_euclid(12)) as usize));
            let mut flat = chord(&name(flat_name_chars(i)), None);
            flat.transpose(n);
            assert_eq!(flat.to_string(), expected);
            let mut sharp = chord(&name(sharp_name_chars(i)), None);
            sharp.transpose(n);
            assert_eq!(sharp.to_string(), expected);
        }
    }
}

#[test]
fn shifted_index_wraps_below_zero() {
    assert_eq!(shifted_index(0, -1), 11);
    assert_eq!(shifted_index(11, 1), 0);
    assert_eq!(shifted_index(3, i32::MIN), ((3i64 + i32::MIN as i64).rem_euclid(12)) as usize);
    assert_eq!(shifted_index(7, i32::MAX), ((7i64 + i32::MAX as i64).rem_euclid(12)) as usize);
}

#[test]
fn zero_shift_keeps_sharps_and_respells_flats() {
    let mut sharp = chord("F#", Some("m7"));
    sharp.transpose(0);
    assert_eq!(sharp.to_string(), "F#m7");
    let mut flat = chord("Db", None);
    flat.transpose(0);
    assert_eq!(flat.to_string(), "C#");
}

#[test]
fn shifting_back_returns_the_sharp_spelling() {
    for base in ["C", "Db", "D", "Eb", "E", "F", "Gb", "G", "Ab", "A", "Bb", "B", "C#", "G#"] {
        for n in [-7i32, 0, 3, 13] {
            let mut normal = chord(base, None);
            normal.transpose(0);
            let mut c = chord(base, None);
            c.transpose(n);
            c.transpose((-n).rem_euclid(12));
            assert_eq!(c.to_string(), normal.to_string());
        }
    }
}

#[test]
fn classification_of_runs() {
    match Text::from("Cmaj7") {
        Text::Chord(c) => {
            assert_eq!(c.base, "C");
            assert_eq!(c.modifier.as_deref(), Some("maj7"));
        }
        _ => panic!("expected a chord"),
    }
    match Text::from("Cmaj78") {
        Text::NonChord(s) => assert_eq!(s, "Cmaj78"),
        _ => panic!("expected a word"),
    }
    match Text::from("Hello") {
        Text::NonChord(s) => assert_eq!(s, "Hello"),
        _ => panic!("expected a word"),
    }
    match Text::from("   ") {
        Text::Space(s) => assert_eq!(s, "   "),
        _ => panic!("expected whitespace"),
    }
}

#[test]
fn longest_note_name_is_the_base() {
    match Text::from("Bbm") {
        Text::Chord(c) => {
            assert_eq!(c.base, "Bb");
            assert_eq!(c.modifier.as_deref(), Some("m"));
        }
        _ => panic!("expected a chord"),
    }
    match Text::from("C#7sus4") {
        Text::Chord(c) => {
            assert_eq!(c.base, "C#");
            assert_eq!(c.modifier.as_deref(), Some("7sus4"));
        }
        _ => panic!("expected a chord"),
    }
    match Text::from("E") {
        Text::Chord(c) => {
            assert_eq!(c.base, "E");
            assert_eq!(c.modifier, None);
        }
        _ => panic!("expected a chord"),
    }
}

#[test]
fn names_in_both_tables_keep_their_spelling() {
    match classify_run(&vec!['G', '9']) {
        Text::Chord(c) => {
            assert_eq!(c.base, "G");
            assert_eq!(c.modifier.as_deref(), Some("9"));
        }
        _ => panic!("expected a chord"),
    }
    match Text::from("Ab") {
        Text::Chord(c) => assert_eq!(c.base, "Ab"),
        _ => panic!("expected a chord"),
    }
}

#[test]
fn modifiers_match_exactly() {
    assert!(is_recognized_modifier(&vec!['m', 'a', 'j', '7']));
    assert!(is_recognized_modifier(&vec!['7', 'b', '9']));
    assert!(!is_recognized_modifier(&vec!['M']));
    assert!(!is_recognized_modifier(&vec!['m', 'a', 'j']));
    assert!(!is_recognized_modifier(&vec![]));
}

#[test]
fn mixed_line_counts_and_is_a_chord_line() {
    let line = Line::from("Am I Wanna Smile Cmaj7 D#");
    assert_eq!(line.chord_number, 3);
    assert_eq!(line.non_chord_number, 3);
    assert!(line.is_chord_line());
    assert_eq!(line.texts.len(), 11);
}

#[test]
fn chord_line_rule_thresholds() {
    assert!(!Line::from("").is_chord_line());
    assert!(!Line::from(" \t ").is_chord_line());
    assert!(Line::from("Hello Am").is_chord_line());
    assert!(Line::from("Hello there Am").is_chord_line());
    assert!(!Line::from("Hello there big Am").is_chord_line());
    assert!(Line::from("Chorus: C G").is_chord_line());
    assert!(!Line::from("Hello").is_chord_line());
}

#[test]
fn line_renders_back_verbatim() {
    let text = "  Am\t\tG7  Hello  ";
    let line = Line::from(text);
    assert_eq!(line.to_string(), text);
    assert_eq!(Line::from("").texts.len(), 0);
}

#[test]
fn line_transpose_moves_only_chords_of_chord_lines() {
    let mut line = Line::from("Am  G   F");
    line.transpose(2);
    assert_eq!(line.to_string(), "Bm  A   G");
    let mut lyric = Line::from("I saw A man");
    lyric.transpose(2);
    assert_eq!(lyric.to_string(), "I saw A man");
}

#[test]
fn document_end_to_end() {
    let text = "C G Am F\nHey Jude, don't make me cry".to_string();
    assert_eq!(transpose_text(&text, 2), "D A Bm G\nHey Jude, don't make me cry");
}

#[test]
fn empty_document() {
    assert_eq!(transpose_text(&String::new(), 5), "");
    assert_eq!(transpose_text(&String::new(), -3), "");
}

#[test]
fn document_line_breaks() {
    assert_eq!(transpose_text(&"C\n".to_string(), 1), "C#");
    assert_eq!(transpose_text(&"C\r\nD".to_string(), 1), "C#\nD#");
    assert_eq!(transpose_text(&"C\n\nD".to_string(), -1), "B\n\nC#");
    assert_eq!(transpose_text(&"\n".to_string(), 1), "");
    assert_eq!(transpose_text(&"Bb  Eb".to_string(), 0), "A#  D#");
    assert_eq!(transpose_text(&"Em\rAm".to_string(), 12), "Em\rAm");
}

#[test]
fn app_state_recomputes_transposed_text() {
    let mut app = ChordTransposerApp::default();
    assert_eq!(app.half_steps, 0);
    assert_eq!(app.transposed_chords, "");
    app.original_chord_input = "G D Em C\nla la".to_string();
    app.half_steps = -2;
    app.update_transposed_text();
    assert_eq!(app.transposed_chords, "F C Dm A#\nla la");
    assert_eq!(app.original_chord_input, "G D Em C\nla la");
}

#[test]
fn word_runs_split_into_base_and_quality() {
    match chord_transposer::token::classify_word_run(&vec!['F', '#', 'm', '7']) {
        Text::Chord(c) => {
            assert_eq!(c.base, "F#");
            assert_eq!(c.modifier.as_deref(), Some("m7"));
        }
        _ => panic!("expected a chord"),
    }
    match chord_transposer::token::classify_word_run(&vec!['H', '7']) {
        Text::NonChord(s) => assert_eq!(s, "H7"),
        _ => panic!("expected a word"),
    }
}
