use chord_transposer::{Chord, Line, Text};

#[test]
fn test_chord_transpose() {
    let mut chord = Chord {
        base: "C".to_string(),
        modifier: Some("maj7".to_string()),
    };
    chord.transpose(3);
    assert_eq!(chord.to_string(), "D#maj7");
}

#[test]
fn test_negative_chord_transpose() {
    let mut chord = Chord {
        base: "D#".to_string(),
        modifier: Some("m".to_string()),
    };
    chord.transpose(-2);
    assert_eq!(chord.to_string(), "C#m");
}

#[test]
fn test_text_from_non_chord() {
    let text = Text::from("Hello");
    assert!(matches!(text, Text::NonChord(_)));
    assert_eq!(text.to_string(), "Hello");
}

#[test]
fn test_text_from_basic_chord() {
    let text = Text::from("C#");
    assert!(matches!(text, Text::Chord(_)));
    assert_eq!(text.to_string(), "C#");
}

#[test]
fn test_text_from_chord_with_modifier() {
    let text = Text::from("Am");
    assert!(matches!(text, Text::Chord(_)));
    assert_eq!(text.to_string(), "Am");
}

#[test]
fn test_text_from_complex_chord() {
    let text = Text::from("Cmaj7");
    assert!(matches!(text, Text::Chord(_)));
    assert_eq!(text.to_string(), "Cmaj7");
}

#[test]
fn text_text_from_nonvalid_modifier() {
    let text = Text::from("Cmaj78");
    assert!(matches!(text, Text::NonChord(_)));
    assert_eq!(text.to_string(), "Cmaj78");
}

#[test]
fn test_text_from_whitespace() {
    let text = Text::from("   ");
    assert!(matches!(text, Text::Space(_)));
    assert_eq!(text.to_string(), "   ");
}

#[test]
fn test_line_chord_count() {
    let line_text = "Am I Wanna Smile Cmaj7 D#";
    let line = Line::from(line_text);
    assert_eq!(line.chord_number, 3);
    assert_eq!(line.non_chord_number, 3);
}

#[test]
fn test_line_is_chord_line() {
    let line_text = "Am I Wanna Smile Cmaj7 D#";
    let line = Line::from(line_text);
    assert!(line.is_chord_line());
}
