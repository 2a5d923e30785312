//! Runs of a line classified as chords, words or whitespace.
use vstd::prelude::*;
use crate::notes::{
    flat_name, flat_name_chars, is_modifier, is_note_name, is_recognized_modifier,
    pitch_index_of, sharp_name, sharp_name_chars, shifted_index, transpose_base,
};
use crate::text_util::{
    append_chars, chars_of, is_white_space, slice_chars, starts_with, string_of, white_space,
};

verus! {

/// Abstract value of a [`Text`].
pub enum TextView {
    Chord { base: Seq<char>, modifier: Option<Seq<char>> },
    NonChord(Seq<char>),
    Space(Seq<char>),
}

/// A chord symbol: a base note name and an optional quality.
pub struct Chord {
    pub base: String,
    pub modifier: Option<String>,
}

/// One run of a line.
pub enum Text {
    Chord(Chord),
    NonChord(String),
    Space(String),
}

/// The characters of an optional quality (empty when absent).
pub open spec fn modifier_chars(m: Option<Seq<char>>) -> Seq<char> {
    match m {
        Some(s) => s,
        None => Seq::empty(),
    }
}

/// Text of a chord: its base followed directly by its quality.
pub open spec fn render_chord(base: Seq<char>, modifier: Option<Seq<char>>) -> Seq<char> {
    base + modifier_chars(modifier)
}

/// Text of a run.
pub open spec fn render(t: TextView) -> Seq<char> {
    match t {
        TextView::Chord { base, modifier } => render_chord(base, modifier),
        TextView::NonChord(s) => s,
        TextView::Space(s) => s,
    }
}

/// The longest note name that is a prefix of `v` (empty when there is none).
/// Names have one or two characters.
pub open spec fn chord_base_of(v: Seq<char>) -> Seq<char> {
    if v.len() >= 2 && is_note_name(v.take(2)) {
        v.take(2)
    } else if v.len() >= 1 && is_note_name(v.take(1)) {
        v.take(1)
    } else {
        Seq::empty()
    }
}

/// Classification of a run that is not whitespace: a chord when a note name
/// begins it and the rest is empty or exactly a recognized quality.
pub open spec fn classify_word(v: Seq<char>) -> TextView {
    let base = chord_base_of(v);
    let rest = v.skip(base.len() as int);
    if base.len() == 0 {
        TextView::NonChord(v)
    } else if rest.len() == 0 {
        TextView::Chord { base, modifier: None }
    } else if is_modifier(rest) {
        TextView::Chord { base, modifier: Some(rest) }
    } else {
        TextView::NonChord(v)
    }
}

/// Classification of a non-empty run, by the class of its first character.
pub open spec fn classify(v: Seq<char>) -> TextView {
    if white_space(v[0]) {
        TextView::Space(v)
    } else {
        classify_word(v)
    }
}

/// A run moved by `n` half-steps: only chords change.
pub open spec fn transpose_text_view(t: TextView, n: int) -> TextView {
    match t {
        TextView::Chord { base, modifier } => TextView::Chord {
            base: transpose_base(base, n),
            modifier,
        },
        _ => t,
    }
}

impl View for Chord {
    type V = (Seq<char>, Option<Seq<char>>);

    open spec fn view(&self) -> Self::V {
        (
            self.base@,
            match self.modifier {
                Some(m) => Some(m@),
                None => None,
            },
        )
    }
}

impl View for Text {
    type V = TextView;

    open spec fn view(&self) -> TextView {
        match self {
            Text::Chord(c) => TextView::Chord { base: c@.0, modifier: c@.1 },
            Text::NonChord(s) => TextView::NonChord(s@),
            Text::Space(s) => TextView::Space(s@),
        }
    }
}

/// Every note name has one or two characters.
pub proof fn lemma_note_name_len(b: Seq<char>)
    requires
        is_note_name(b),
    ensures
        1 <= b.len() <= 2,
{
}

/// When a flat name and a sharp name of equal length both begin `v`, and no
/// longer name does, the flat spelling is the base chosen (the two spellings
/// then coincide).
pub proof fn lemma_flat_wins_tie(v: Seq<char>, i: int, j: int)
    requires
        0 <= i < 12,
        0 <= j < 12,
        flat_name(i).len() == sharp_name(j).len() <= v.len(),
        v.take(flat_name(i).len() as int) == flat_name(i),
        v.take(sharp_name(j).len() as int) == sharp_name(j),
        forall|b: Seq<char>|
            is_note_name(b) && b.len() <= v.len() && #[trigger] v.take(b.len() as int) == b
                ==> b.len() <= flat_name(i).len(),
    ensures
        chord_base_of(v) == flat_name(i),
        flat_name(i) == sharp_name(j),
{
    assert(is_note_name(flat_name(i)));
    if v.len() >= 2 && is_note_name(v.take(2)) {
        assert(v.take(2).len() == 2);
        assert(v.take(v.take(2).len() as int) == v.take(2));
    }
}

impl Chord {
    /// A chord with the given base and quality.
    pub fn new(base: &str, modifier: Option<&str>) -> (r: Chord)
        ensures
            r.base@ == base@,
            r.modifier is Some <==> modifier is Some,
            modifier is Some ==> r.modifier->0@ == modifier->0@,
    {
        Chord {
            base: string_of(&chars_of(base)),
            modifier: match modifier {
                Some(m) => Some(string_of(&chars_of(m))),
                None => None,
            },
        }
    }

    /// Moves the base by `half_steps`, spelled with sharps; the quality stays.
    pub fn transpose(&mut self, half_steps: i32)
        requires
            is_note_name(old(self).base@),
        ensures
            final(self).base@ == transpose_base(old(self).base@, half_steps as int),
            final(self)@.1 == old(self)@.1,
    {
        let base = chars_of(self.base.as_str());
        let index = pitch_index_of(&base);
        let new_index = shifted_index(index, half_steps);
        self.base = string_of(&sharp_name_chars(new_index));
    }

    /// The chord's text: base, then quality with no separator.
    pub fn to_string(&self) -> (r: String)
        ensures
            r@ == render_chord(self@.0, self@.1),
    {
        match &self.modifier {
            Some(m) => {
                let mut r = string_of(&chars_of(self.base.as_str()));
                append_chars(&mut r, &chars_of(m.as_str()));
                r
            },
            None => string_of(&chars_of(self.base.as_str())),
        }
    }
}

/// The longest note name prefixing `v`: flat names are scanned first, and a
/// sharp name replaces the match only when strictly longer.
fn match_chord_base(v: &Vec<char>) -> (r: Vec<char>)
    ensures
        r@ == chord_base_of(v@),
{
    let mut best: Vec<char> = Vec::new();
    let mut i: usize = 0;
    while i < 12
        invariant
            i <= 12,
            best@.len() == 0 || (is_note_name(best@) && v@.take(best@.len() as int) == best@
                && best@.len() <= v@.len()),
            forall|k: int|
                0 <= k < i && #[trigger] flat_name(k).len() <= v@.len() && v@.take(
                    flat_name(k).len() as int,
                ) == flat_name(k) ==> flat_name(k).len() <= best@.len(),
        decreases 12 - i,
    {
        let f = flat_name_chars(i);
        if starts_with(v, &f) && f.len() > best.len() {
            assert(is_note_name(f@)) by {
                assert(flat_name(i as int) == f@);
            }
            best = f;
        }
        i = i + 1;
    }
    let mut j: usize = 0;
    while j < 12
        invariant
            j <= 12,
            best@.len() == 0 || (is_note_name(best@) && v@.take(best@.len() as int) == best@
                && best@.len() <= v@.len()),
            forall|k: int|
                0 <= k < 12 && #[trigger] flat_name(k).len() <= v@.len() && v@.take(
                    flat_name(k).len() as int,
                ) == flat_name(k) ==> flat_name(k).len() <= best@.len(),
            forall|k: int|
                0 <= k < j && #[trigger] sharp_name(k).len() <= v@.len() && v@.take(
                    sharp_name(k).len() as int,
                ) == sharp_name(k) ==> sharp_name(k).len() <= best@.len(),
        decreases 12 - j,
    {
        let s = sharp_name_chars(j);
        if starts_with(v, &s) && s.len() > best.len() {
            assert(is_note_name(s@)) by {
                assert(sharp_name(j as int) == s@);
            }
            best = s;
        }
        j = j + 1;
    }
    proof {
        let c = chord_base_of(v@);
        if c.len() > 0 {
            assert(c.len() <= best@.len());
        }
        if best@.len() > 0 {
            lemma_note_name_len(best@);
        }
        if best@.len() == 2 {
            assert(v@.take(2) == best@);
        } else if best@.len() == 1 {
            assert(v@.take(1) == best@);
            if v@.len() >= 2 && is_note_name(v@.take(2)) {
                assert(v@.take(2).len() == 2);
            }
        } else {
            if v@.len() >= 1 && is_note_name(v@.take(1)) {
                assert(v@.take(1).len() == 1);
            }
        }
        assert(best@ =~= c);
    }
    best
}

/// Classifies one non-empty run of characters that is homogeneous in
/// whitespace.
pub fn classify_run(v: &Vec<char>) -> (r: Text)
    requires
        v@.len() > 0,
    ensures
        r@ == classify(v@),
{
    if is_white_space(v[0]) {
        Text::Space(string_of(v))
    } else {
        classify_word_run(v)
    }
}

/// Classifies a run that is not whitespace as a chord or a word.
pub fn classify_word_run(v: &Vec<char>) -> (r: Text)
    ensures
        r@ == classify_word(v@),
{
    let base = match_chord_base(v);
    if base.len() == 0 {
        return Text::NonChord(string_of(v));
    }
    let rest = slice_chars(v, base.len(), v.len());
    assert(rest@ =~= v@.skip(base@.len() as int));
    if rest.len() == 0 {
        return Text::Chord(Chord { base: string_of(&base), modifier: None });
    }
    if is_recognized_modifier(&rest) {
        Text::Chord(Chord { base: string_of(&base), modifier: Some(string_of(&rest)) })
    } else {
        Text::NonChord(string_of(v))
    }
}

impl Text {
    /// Classifies one non-empty run (see [`classify_run`]).
    pub fn from(value: &str) -> (r: Text)
        requires
            value@.len() > 0,
        ensures
            r@ == classify(value@),
    {
        classify_run(&chars_of(value))
    }

    /// Whether this run is a chord.
    pub fn is_chord(&self) -> (r: bool)
        ensures
            r == (self@ is Chord),
    {
        match self {
            Text::Chord(_) => true,
            _ => false,
        }
    }

    /// Whether this run is a word that is not a chord.
    pub fn is_non_chord(&self) -> (r: bool)
        ensures
            r == (self@ is NonChord),
    {
        match self {
            Text::NonChord(_) => true,
            _ => false,
        }
    }

    /// The run's text.
    pub fn to_string(&self) -> (r: String)
        ensures
            r@ == render(self@),
    {
        match self {
            Text::Chord(chord) => chord.to_string(),
            Text::NonChord(s) => string_of(&chars_of(s.as_str())),
            Text::Space(s) => string_of(&chars_of(s.as_str())),
        }
    }

    /// Moves a chord by `half_steps`; other runs are left as they are.
    pub fn transpose(&mut self, half_steps: i32)
        requires
            old(self)@ is Chord ==> is_note_name(old(self)@->Chord_base),
        ensures
            final(self)@ == transpose_text_view(old(self)@, half_steps as int),
    {
        match self {
            Text::Chord(chord) => chord.transpose(half_steps),
            _ => {},
        }
    }
}

} // verus!
