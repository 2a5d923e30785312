//! Splitting a line into runs, tallying them, and deciding whether it is a
//! chord line.
use vstd::prelude::*;
use crate::notes::{is_note_name, lemma_transposed_is_note_name};
use crate::text_util::{append_chars, chars_of, is_white_space, slice_chars, white_space};
use crate::token::{
    classify, classify_run, render, transpose_text_view, Text, TextView,
};

verus! {

/// Maximal runs of `v` of one whitespace class: `left` starts the current
/// run and `k` is the next position to look at.
pub open spec fn runs_walk(v: Seq<char>, left: int, k: int) -> Seq<Seq<char>>
    decreases v.len() - k,
{
    if k >= v.len() {
        if 0 <= left < v.len() {
            seq![v.subrange(left, v.len() as int)]
        } else {
            Seq::empty()
        }
    } else if white_space(v[k]) != white_space(v[left]) {
        seq![v.subrange(left, k)] + runs_walk(v, k, k + 1)
    } else {
        runs_walk(v, left, k + 1)
    }
}

/// Maximal runs of `v` that are uniformly whitespace or uniformly not.
pub open spec fn runs(v: Seq<char>) -> Seq<Seq<char>> {
    if v.len() == 0 {
        Seq::empty()
    } else {
        runs_walk(v, 0, 1)
    }
}

/// The classified runs of a line.
pub open spec fn tokenize(v: Seq<char>) -> Seq<TextView> {
    classify_all(runs(v))
}

/// Each of `rs` classified.
pub open spec fn classify_all(rs: Seq<Seq<char>>) -> Seq<TextView> {
    rs.map_values(|r: Seq<char>| classify(r))
}

/// Number of chords among `ts`.
pub open spec fn count_chords(ts: Seq<TextView>) -> nat
    decreases ts.len(),
{
    if ts.len() == 0 {
        0
    } else {
        count_chords(ts.drop_last()) + if ts.last() is Chord {
            1nat
        } else {
            0nat
        }
    }
}

/// Number of words that are not chords among `ts`.
pub open spec fn count_non_chords(ts: Seq<TextView>) -> nat
    decreases ts.len(),
{
    if ts.len() == 0 {
        0
    } else {
        count_non_chords(ts.drop_last()) + if ts.last() is NonChord {
            1nat
        } else {
            0nat
        }
    }
}

/// The chord-line rule: not for a blank line; always when there are no words;
/// else `chords - 0.8 * words + 0.7 > 0`, that is `10 * chords + 7 > 8 * words`.
pub open spec fn is_chord_line_spec(chords: int, words: int) -> bool {
    if chords == 0 && words == 0 {
        false
    } else if words == 0 {
        true
    } else {
        10 * chords + 7 > 8 * words
    }
}

/// Concatenated text of runs.
pub open spec fn render_all(ts: Seq<TextView>) -> Seq<char>
    decreases ts.len(),
{
    if ts.len() == 0 {
        Seq::empty()
    } else {
        render_all(ts.drop_last()) + render(ts.last())
    }
}

/// Every run moved by `n` half-steps.
pub open spec fn transpose_all(ts: Seq<TextView>, n: int) -> Seq<TextView> {
    ts.map_values(|t: TextView| transpose_text_view(t, n))
}

/// Text of line `v` once transposed by `n`: chord lines have their chords
/// moved, other lines are kept as they are.
pub open spec fn transpose_line_text(v: Seq<char>, n: int) -> Seq<char> {
    let ts = tokenize(v);
    if is_chord_line_spec(count_chords(ts) as int, count_non_chords(ts) as int) {
        render_all(transpose_all(ts, n))
    } else {
        render_all(ts)
    }
}

/// Whether every chord of `ts` has a catalog base.
pub open spec fn chords_well_formed(ts: Seq<TextView>) -> bool {
    forall|i: int| 0 <= i < ts.len() && (#[trigger] ts[i]) is Chord ==> is_note_name(ts[i]->Chord_base)
}

/// The classified runs of one physical line, with their tallies.
pub struct Line {
    pub texts: Vec<Text>,
    pub chord_number: usize,
    pub non_chord_number: usize,
}

impl View for Line {
    type V = Seq<TextView>;

    open spec fn view(&self) -> Seq<TextView> {
        self.texts@.map_values(|t: Text| t@)
    }
}

impl Line {
    /// The tallies match the runs, and every chord has a catalog base.
    pub open spec fn wf(&self) -> bool {
        &&& self.chord_number == count_chords(self@)
        &&& self.non_chord_number == count_non_chords(self@)
        &&& chords_well_formed(self@)
    }

    /// Splits `value` into runs and classifies each.
    pub fn from(value: &str) -> (r: Line)
        ensures
            r@ == tokenize(value@),
            r.wf(),
    {
        Line::from_chars(&chars_of(value))
    }

    /// Splits the characters `v` into runs and classifies each.
    pub fn from_chars(v: &Vec<char>) -> (r: Line)
        ensures
            r@ == tokenize(v@),
            r.wf(),
    {
        let mut texts: Vec<Text> = Vec::new();
        let mut chord_number: usize = 0;
        let mut non_chord_number: usize = 0;
        if v.len() == 0 {
            assert(texts@.map_values(|t: Text| t@) =~= tokenize(v@));
            return Line { texts, chord_number, non_chord_number };
        }
        let ghost done: Seq<Seq<char>> = Seq::empty();
        let mut left: usize = 0;
        let mut right: usize = 1;
        while right < v.len()
            invariant
                0 <= left < right <= v@.len(),
                done.len() <= left,
                done + runs_walk(v@, left as int, right as int) == runs(v@),
                texts@.map_values(|t: Text| t@) == classify_all(done),
                forall|k: int| 0 <= k < done.len() ==> (#[trigger] done[k]).len() > 0,
                chord_number == count_chords(texts@.map_values(|t: Text| t@)),
                non_chord_number == count_non_chords(texts@.map_values(|t: Text| t@)),
                chords_well_formed(texts@.map_values(|t: Text| t@)),
                chord_number <= done.len(),
                non_chord_number <= done.len(),
            decreases v@.len() - right,
        {
            if is_white_space(v[left]) != is_white_space(v[right]) {
                let run = slice_chars(v, left, right);
                let t = classify_run(&run);
                proof {
                    lemma_classify_chord_base(run@);
                }
                let ghost before = texts@.map_values(|t: Text| t@);
                if t.is_chord() {
                    chord_number = chord_number + 1;
                } else if t.is_non_chord() {
                    non_chord_number = non_chord_number + 1;
                }
                texts.push(t);
                proof {
                    let after = texts@.map_values(|t: Text| t@);
                    assert(after =~= before.push(classify(run@)));
                    assert(after.drop_last() =~= before);
                    done = done.push(run@);
                    assert(after =~= classify_all(done));
                }
                left = right;
            }
            right = right + 1;
        }
        let run = slice_chars(v, left, v.len());
        let t = classify_run(&run);
        proof {
            lemma_classify_chord_base(run@);
        }
        let ghost before = texts@.map_values(|t: Text| t@);
        if t.is_chord() {
            chord_number = chord_number + 1;
        } else if t.is_non_chord() {
            non_chord_number = non_chord_number + 1;
        }
        texts.push(t);
        proof {
            let after = texts@.map_values(|t: Text| t@);
            assert(after =~= before.push(classify(run@)));
            assert(after.drop_last() =~= before);
            done = done.push(run@);
            assert(runs(v@) =~= done);
            assert(after =~= tokenize(v@));
        }
        Line { texts, chord_number, non_chord_number }
    }

    /// Whether the line is predominantly chords, from its tallies.
    pub fn is_chord_line(&self) -> (r: bool)
        ensures
            r == is_chord_line_spec(self.chord_number as int, self.non_chord_number as int),
    {
        if self.chord_number == 0 && self.non_chord_number == 0 {
            false
        } else if self.non_chord_number == 0 {
            true
        } else {
            10 * (self.chord_number as u128) + 7 > 8 * (self.non_chord_number as u128)
        }
    }

    /// Moves every chord by `half_steps` when this is a chord line; leaves
    /// the line as it is otherwise.
    pub fn transpose(&mut self, half_steps: i32)
        requires
            old(self).wf(),
        ensures
            final(self).chord_number == old(self).chord_number,
            final(self).non_chord_number == old(self).non_chord_number,
            final(self).wf(),
            final(self)@ == (if is_chord_line_spec(
                old(self).chord_number as int,
                old(self).non_chord_number as int,
            ) {
                transpose_all(old(self)@, half_steps as int)
            } else {
                old(self)@
            }),
    {
        if !self.is_chord_line() {
            return;
        }
        let ghost start = self@;
        let mut rest: Vec<Text> = Vec::new();
        std::mem::swap(&mut rest, &mut self.texts);
        let ghost orig = rest@;
        assert(orig.map_values(|t: Text| t@) == start);
        let mut k: usize = 0;
        let n = rest.len();
        while k < n
            invariant
                n == orig.len(),
                k <= n,
                rest@ == orig.skip(k as int),
                self.texts@.map_values(|t: Text| t@) == transpose_all(
                    start.take(k as int),
                    half_steps as int,
                ),
                start == orig.map_values(|t: Text| t@),
                chords_well_formed(start),
                self.chord_number == old(self).chord_number,
                self.non_chord_number == old(self).non_chord_number,
            decreases n - k,
        {
            let mut t = rest.remove(0);
            assert(t@ == start[k as int]);
            t.transpose(half_steps);
            let ghost before = self.texts@.map_values(|t: Text| t@);
            self.texts.push(t);
            proof {
                assert(self.texts@.map_values(|t: Text| t@) =~= before.push(t@));
                assert(start.take(k + 1) =~= start.take(k as int).push(start[k as int]));
                assert(transpose_all(start.take(k + 1), half_steps as int) =~= transpose_all(
                    start.take(k as int),
                    half_steps as int,
                ).push(transpose_text_view(start[k as int], half_steps as int)));
                assert(rest@ =~= orig.skip(k + 1));
            }
            k = k + 1;
        }
        assert(start.take(n as int) =~= start);
        proof {
            lemma_transpose_all_keeps_tallies(start, half_steps as int);
        }
    }

    /// The line's text: every run's text in order.
    pub fn to_string(&self) -> (r: String)
        ensures
            r@ == render_all(self@),
    {
        let mut r = String::new();
        let mut i: usize = 0;
        while i < self.texts.len()
            invariant
                i <= self@.len(),
                r@ == render_all(self@.take(i as int)),
            decreases self@.len() - i,
        {
            let s = self.texts[i].to_string();
            append_chars(&mut r, &chars_of(s.as_str()));
            proof {
                assert(self@.take(i + 1).drop_last() =~= self@.take(i as int));
            }
            i = i + 1;
        }
        assert(self@.take(i as int) =~= self@);
        r
    }
}

/// Rendering a classified run gives the run back.
pub proof fn lemma_render_classify(r: Seq<char>)
    requires
        r.len() > 0,
    ensures
        render(classify(r)) == r,
{
    let base = crate::token::chord_base_of(r);
    assert(base + r.skip(base.len() as int) =~= r);
    assert(base + Seq::<char>::empty() =~= base);
}

proof fn lemma_render_all_append(a: Seq<TextView>, b: Seq<TextView>)
    ensures
        render_all(a + b) == render_all(a) + render_all(b),
    decreases b.len(),
{
    if b.len() == 0 {
        assert(a + b =~= a);
        assert(render_all(a) + Seq::<char>::empty() =~= render_all(a));
    } else {
        lemma_render_all_append(a, b.drop_last());
        assert((a + b).drop_last() =~= a + b.drop_last());
        assert(render_all(a) + render_all(b) =~= render_all(a) + render_all(b.drop_last())
            + render(b.last()));
    }
}

proof fn lemma_render_all_single(t: TextView)
    ensures
        render_all(seq![t]) == render(t),
{
    assert(seq![t].drop_last() =~= Seq::<TextView>::empty());
    assert(render_all(Seq::<TextView>::empty()) == Seq::<char>::empty());
    assert(Seq::<char>::empty() + render(t) =~= render(t));
}

proof fn lemma_runs_walk_render(v: Seq<char>, left: int, k: int)
    requires
        0 <= left < k <= v.len(),
    ensures
        render_all(classify_all(runs_walk(v, left, k))) == v.subrange(
            left,
            v.len() as int,
        ),
    decreases v.len() - k,
{
    if k >= v.len() {
        let x = v.subrange(left, v.len() as int);
        lemma_render_classify(x);
        assert(classify_all(runs_walk(v, left, k)) =~= seq![classify(x)]);
        lemma_render_all_single(classify(x));
    } else if white_space(v[k]) != white_space(v[left]) {
        let x = v.subrange(left, k);
        let rest = runs_walk(v, k, k + 1);
        lemma_runs_walk_render(v, k, k + 1);
        lemma_render_classify(x);
        assert(classify_all(runs_walk(v, left, k)) =~= seq![classify(x)] + classify_all(rest));
        lemma_render_all_append(seq![classify(x)], classify_all(rest));
        lemma_render_all_single(classify(x));
        assert(x + v.subrange(k, v.len() as int) =~= v.subrange(left, v.len() as int));
    } else {
        lemma_runs_walk_render(v, left, k + 1);
    }
}

/// Rendering the classified runs of a line, untransposed, gives the line back
/// exactly.
pub proof fn lemma_render_tokenize(v: Seq<char>)
    ensures
        render_all(tokenize(v)) == v,
{
    if v.len() == 0 {
        assert(v =~= Seq::<char>::empty());
    } else {
        lemma_runs_walk_render(v, 0, 1);
        assert(v.subrange(0, v.len() as int) =~= v);
    }
}

/// Transposing every run keeps the tallies, and every chord keeps a catalog
/// base.
pub proof fn lemma_transpose_all_keeps_tallies(ts: Seq<TextView>, n: int)
    ensures
        count_chords(transpose_all(ts, n)) == count_chords(ts),
        count_non_chords(transpose_all(ts, n)) == count_non_chords(ts),
        chords_well_formed(transpose_all(ts, n)),
    decreases ts.len(),
{
    let t = transpose_all(ts, n);
    assert forall|i: int| 0 <= i < t.len() && (#[trigger] t[i]) is Chord implies is_note_name(
        t[i]->Chord_base,
    ) by {
        lemma_transposed_is_note_name(ts[i]->Chord_base, n);
    }
    if ts.len() > 0 {
        lemma_transpose_all_keeps_tallies(ts.drop_last(), n);
        assert(t.drop_last() =~= transpose_all(ts.drop_last(), n));
    }
}

/// A chord produced by the classifier has a catalog base.
proof fn lemma_classify_chord_base(v: Seq<char>)
    requires
        v.len() > 0,
    ensures
        classify(v) is Chord ==> is_note_name(classify(v)->Chord_base),
{
}

} // verus!
