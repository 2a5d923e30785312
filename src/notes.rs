//! The chromatic scale in sharp and flat spelling, and the recognized chord
//! qualities.
use vstd::prelude::*;
use crate::text_util::chars_eq;

verus! {

/// Name of pitch class `i` in sharp spelling.
pub open spec fn sharp_name(i: int) -> Seq<char> {
    if i == 0 {
        seq!['C']
    } else if i == 1 {
        seq!['C', '#']
    } else if i == 2 {
        seq!['D']
    } else if i == 3 {
        seq!['D', '#']
    } else if i == 4 {
        seq!['E']
    } else if i == 5 {
        seq!['F']
    } else if i == 6 {
        seq!['F', '#']
    } else if i == 7 {
        seq!['G']
    } else if i == 8 {
        seq!['G', '#']
    } else if i == 9 {
        seq!['A']
    } else if i == 10 {
        seq!['A', '#']
    } else {
        seq!['B']
    }
}

/// Name of pitch class `i` in flat spelling.
pub open spec fn flat_name(i: int) -> Seq<char> {
    if i == 0 {
        seq!['C']
    } else if i == 1 {
        seq!['D', 'b']
    } else if i == 2 {
        seq!['D']
    } else if i == 3 {
        seq!['E', 'b']
    } else if i == 4 {
        seq!['E']
    } else if i == 5 {
        seq!['F']
    } else if i == 6 {
        seq!['G', 'b']
    } else if i == 7 {
        seq!['G']
    } else if i == 8 {
        seq!['A', 'b']
    } else if i == 9 {
        seq!['A']
    } else if i == 10 {
        seq!['B', 'b']
    } else {
        seq!['B']
    }
}

/// Number of recognized chord qualities.
pub const MODIFIER_COUNT: usize = 24;

/// The `i`-th recognized chord quality.
pub open spec fn modifier_name(i: int) -> Seq<char> {
    if i == 0 {
        seq!['m']
    } else if i == 1 {
        seq!['7']
    } else if i == 2 {
        seq!['m', 'a', 'j', '7']
    } else if i == 3 {
        seq!['m', '7']
    } else if i == 4 {
        seq!['s', 'u', 's', '2']
    } else if i == 5 {
        seq!['s', 'u', 's', '4']
    } else if i == 6 {
        seq!['d', 'i', 'm']
    } else if i == 7 {
        seq!['a', 'u', 'g']
    } else if i == 8 {
        seq!['5']
    } else if i == 9 {
        seq!['a', 'd', 'd', '9']
    } else if i == 10 {
        seq!['9']
    } else if i == 11 {
        seq!['6']
    } else if i == 12 {
        seq!['1', '1']
    } else if i == 13 {
        seq!['1', '3']
    } else if i == 14 {
        seq!['7', 's', 'u', 's', '4']
    } else if i == 15 {
        seq!['d', 'i', 'm', '7']
    } else if i == 16 {
        seq!['m', '6']
    } else if i == 17 {
        seq!['m', '9']
    } else if i == 18 {
        seq!['m', 'a', 'j', '9']
    } else if i == 19 {
        seq!['m', '1', '1']
    } else if i == 20 {
        seq!['m', '1', '3']
    } else if i == 21 {
        seq!['m', 'a', 'j', '1', '3']
    } else if i == 22 {
        seq!['a', 'd', 'd', '1', '1']
    } else {
        seq!['7', 'b', '9']
    }
}

/// Whether `m` is exactly one of the recognized chord qualities.
pub open spec fn is_modifier(m: Seq<char>) -> bool {
    exists|i: int| 0 <= i < MODIFIER_COUNT && #[trigger] modifier_name(i) == m
}

/// Whether `b` is one of the 24 spellings of the catalog.
pub open spec fn is_note_name(b: Seq<char>) -> bool {
    (exists|i: int| 0 <= i < 12 && #[trigger] flat_name(i) == b) || (exists|i: int|
        0 <= i < 12 && #[trigger] sharp_name(i) == b)
}

/// Position of `b` in the flat table at or after `i`, or -1.
pub open spec fn flat_position(b: Seq<char>, i: int) -> int
    decreases 12 - i,
{
    if i >= 12 {
        -1
    } else if flat_name(i) == b {
        i
    } else {
        flat_position(b, i + 1)
    }
}

/// Position of `b` in the sharp table at or after `i`, or -1.
pub open spec fn sharp_position(b: Seq<char>, i: int) -> int
    decreases 12 - i,
{
    if i >= 12 {
        -1
    } else if sharp_name(i) == b {
        i
    } else {
        sharp_position(b, i + 1)
    }
}

/// Pitch class of a note name: its place in the flat table, else in the sharp
/// table.
pub open spec fn pitch_index(b: Seq<char>) -> int {
    if flat_position(b, 0) >= 0 {
        flat_position(b, 0)
    } else {
        sharp_position(b, 0)
    }
}

/// The base `b` moved by `n` half-steps, spelled with sharps.
pub open spec fn transpose_base(b: Seq<char>, n: int) -> Seq<char> {
    sharp_name((pitch_index(b) + n) % 12)
}

/// Name of pitch class `i` in sharp spelling.
pub fn sharp_name_chars(i: usize) -> (r: Vec<char>)
    requires
        i < 12,
    ensures
        r@ == sharp_name(i as int),
{
    if i == 0 {
        vec!['C']
    } else if i == 1 {
        vec!['C', '#']
    } else if i == 2 {
        vec!['D']
    } else if i == 3 {
        vec!['D', '#']
    } else if i == 4 {
        vec!['E']
    } else if i == 5 {
        vec!['F']
    } else if i == 6 {
        vec!['F', '#']
    } else if i == 7 {
        vec!['G']
    } else if i == 8 {
        vec!['G', '#']
    } else if i == 9 {
        vec!['A']
    } else if i == 10 {
        vec!['A', '#']
    } else {
        vec!['B']
    }
}

/// Name of pitch class `i` in flat spelling.
pub fn flat_name_chars(i: usize) -> (r: Vec<char>)
    requires
        i < 12,
    ensures
        r@ == flat_name(i as int),
{
    if i == 0 {
        vec!['C']
    } else if i == 1 {
        vec!['D', 'b']
    } else if i == 2 {
        vec!['D']
    } else if i == 3 {
        vec!['E', 'b']
    } else if i == 4 {
        vec!['E']
    } else if i == 5 {
        vec!['F']
    } else if i == 6 {
        vec!['G', 'b']
    } else if i == 7 {
        vec!['G']
    } else if i == 8 {
        vec!['A', 'b']
    } else if i == 9 {
        vec!['A']
    } else if i == 10 {
        vec!['B', 'b']
    } else {
        vec!['B']
    }
}

/// The `i`-th recognized chord quality.
fn modifier_chars(i: usize) -> (r: Vec<char>)
    requires
        i < MODIFIER_COUNT,
    ensures
        r@ == modifier_name(i as int),
{
    if i == 0 {
        vec!['m']
    } else if i == 1 {
        vec!['7']
    } else if i == 2 {
        vec!['m', 'a', 'j', '7']
    } else if i == 3 {
        vec!['m', '7']
    } else if i == 4 {
        vec!['s', 'u', 's', '2']
    } else if i == 5 {
        vec!['s', 'u', 's', '4']
    } else if i == 6 {
        vec!['d', 'i', 'm']
    } else if i == 7 {
        vec!['a', 'u', 'g']
    } else if i == 8 {
        vec!['5']
    } else if i == 9 {
        vec!['a', 'd', 'd', '9']
    } else if i == 10 {
        vec!['9']
    } else if i == 11 {
        vec!['6']
    } else if i == 12 {
        vec!['1', '1']
    } else if i == 13 {
        vec!['1', '3']
    } else if i == 14 {
        vec!['7', 's', 'u', 's', '4']
    } else if i == 15 {
        vec!['d', 'i', 'm', '7']
    } else if i == 16 {
        vec!['m', '6']
    } else if i == 17 {
        vec!['m', '9']
    } else if i == 18 {
        vec!['m', 'a', 'j', '9']
    } else if i == 19 {
        vec!['m', '1', '1']
    } else if i == 20 {
        vec!['m', '1', '3']
    } else if i == 21 {
        vec!['m', 'a', 'j', '1', '3']
    } else if i == 22 {
        vec!['a', 'd', 'd', '1', '1']
    } else {
        vec!['7', 'b', '9']
    }
}

/// Exact, case-sensitive match against the recognized chord qualities.
pub fn is_recognized_modifier(candidate: &Vec<char>) -> (r: bool)
    ensures
        r == is_modifier(candidate@),
{
    let mut i: usize = 0;
    while i < MODIFIER_COUNT
        invariant
            i <= MODIFIER_COUNT,
            forall|k: int| 0 <= k < i ==> modifier_name(k) != candidate@,
        decreases MODIFIER_COUNT - i,
    {
        let m = modifier_chars(i);
        if chars_eq(&m, candidate) {
            return true;
        }
        i = i + 1;
    }
    false
}

/// Pitch class of a note name, looked up in the flat table first.
pub fn pitch_index_of(b: &Vec<char>) -> (r: usize)
    requires
        is_note_name(b@),
    ensures
        r == pitch_index(b@),
        r < 12,
{
    let mut i: usize = 0;
    while i < 12
        invariant
            i <= 12,
            flat_position(b@, 0) == flat_position(b@, i as int),
        decreases 12 - i,
    {
        let f = flat_name_chars(i);
        if chars_eq(&f, b) {
            return i;
        }
        i = i + 1;
    }
    let mut j: usize = 0;
    while j < 12
        invariant
            j <= 12,
            flat_position(b@, 0) == -1,
            sharp_position(b@, 0) == sharp_position(b@, j as int),
            forall|k: int| 0 <= k < j ==> sharp_name(k) != b@,
        decreases 12 - j,
    {
        let s = sharp_name_chars(j);
        if chars_eq(&s, b) {
            return j;
        }
        j = j + 1;
    }
    proof {
        lemma_flat_position_found(b@, 0);
    }
    0
}

/// Index of `base` moved by `half_steps`, wrapped into the octave.
pub fn shifted_index(base: usize, half_steps: i32) -> (r: usize)
    requires
        base < 12,
    ensures
        r == (base + half_steps) % 12,
        r < 12,
{
    let h = half_steps as i64;
    let shift: u64 = if h >= 0 {
        (h as u64) % 12
    } else {
        (12 - ((-h) as u64) % 12) % 12
    };
    let r = ((base as u64 + shift) % 12) as usize;
    proof {
        lemma_shift_mod(base as int, half_steps as int, shift as int);
    }
    r
}

proof fn lemma_shift_mod(b: int, h: int, shift: int)
    requires
        0 <= b < 12,
        h >= 0 ==> shift == h % 12,
        h < 0 ==> shift == (12 - (-h) % 12) % 12,
    ensures
        (b + shift) % 12 == (b + h) % 12,
{
    if h >= 0 {
        vstd::arithmetic::div_mod::lemma_add_mod_noop(b, h, 12);
        vstd::arithmetic::div_mod::lemma_add_mod_noop(b, shift, 12);
        vstd::arithmetic::div_mod::lemma_mod_twice(h, 12);
    } else {
        let q = (-h) / 12;
        let m = (-h) % 12;
        vstd::arithmetic::div_mod::lemma_fundamental_div_mod(-h, 12);
        assert(h == -(12 * q) - m);
        vstd::arithmetic::div_mod::lemma_add_mod_noop(b, shift, 12);
        vstd::arithmetic::div_mod::lemma_mod_twice(12 - m, 12);
        vstd::arithmetic::div_mod::lemma_add_mod_noop(b, 12 - m, 12);
        vstd::arithmetic::div_mod::lemma_mod_multiples_vanish(q + 1, b - m, 12);
        assert(b + h + 12 * (q + 1) == b + 12 - m);
    }
}

/// A transposed base is again a name of the catalog.
pub proof fn lemma_transposed_is_note_name(b: Seq<char>, n: int)
    ensures
        is_note_name(transpose_base(b, n)),
{
    let i = (pitch_index(b) + n) % 12;
    assert(sharp_name(i) == transpose_base(b, n));
}

proof fn lemma_flat_position_at(b: Seq<char>, k: int, i: int)
    requires
        0 <= k <= i < 12,
        flat_name(i) == b,
        forall|j: int| k <= j < i ==> flat_name(j) != b,
    ensures
        flat_position(b, k) == i,
    decreases i - k,
{
    if k < i {
        lemma_flat_position_at(b, k + 1, i);
    }
}

proof fn lemma_sharp_position_at(b: Seq<char>, k: int, i: int)
    requires
        0 <= k <= i < 12,
        sharp_name(i) == b,
        forall|j: int| k <= j < i ==> sharp_name(j) != b,
    ensures
        sharp_position(b, k) == i,
    decreases i - k,
{
    if k < i {
        lemma_sharp_position_at(b, k + 1, i);
    }
}

proof fn lemma_flat_position_none(b: Seq<char>, k: int)
    requires
        0 <= k <= 12,
        forall|j: int| k <= j < 12 ==> flat_name(j) != b,
    ensures
        flat_position(b, k) == -1,
    decreases 12 - k,
{
    if k < 12 {
        lemma_flat_position_none(b, k + 1);
    }
}

proof fn lemma_flat_position_found(b: Seq<char>, k: int)
    requires
        0 <= k <= 12,
    ensures
        flat_position(b, k) == -1 || (k <= flat_position(b, k) < 12 && flat_name(
            flat_position(b, k),
        ) == b),
        flat_position(b, k) == -1 ==> forall|j: int| k <= j < 12 ==> flat_name(j) != b,
    decreases 12 - k,
{
    if k < 12 {
        lemma_flat_position_found(b, k + 1);
    }
}

proof fn lemma_sharp_position_found(b: Seq<char>, k: int)
    requires
        0 <= k <= 12,
    ensures
        sharp_position(b, k) == -1 || (k <= sharp_position(b, k) < 12 && sharp_name(
            sharp_position(b, k),
        ) == b),
        sharp_position(b, k) == -1 ==> forall|j: int| k <= j < 12 ==> sharp_name(j) != b,
    decreases 12 - k,
{
    if k < 12 {
        lemma_sharp_position_found(b, k + 1);
    }
}

/// The pitch class of a name of the catalog lies in the octave.
pub proof fn lemma_pitch_index_range(b: Seq<char>)
    requires
        is_note_name(b),
    ensures
        0 <= pitch_index(b) < 12,
{
    lemma_flat_position_found(b, 0);
    lemma_sharp_position_found(b, 0);
}

/// The sharp and the flat name of pitch class `i` both have pitch class `i`.
pub proof fn lemma_pitch_index(i: int)
    requires
        0 <= i < 12,
    ensures
        pitch_index(flat_name(i)) == i,
        pitch_index(sharp_name(i)) == i,
{
    lemma_flat_names_distinct();
    lemma_sharp_names_distinct();
    lemma_flat_position_at(flat_name(i), 0, i);
    if sharp_name(i) == flat_name(i) {
        lemma_flat_position_at(sharp_name(i), 0, i);
    } else {
        assert forall|j: int| 0 <= j < 12 implies flat_name(j) != sharp_name(i) by {
            if flat_name(j).len() == 2 {
                assert(flat_name(j)[1] == 'b');
                assert(sharp_name(i)[1] == '#');
            } else {
                assert(sharp_name(i).len() == 2);
            }
        }
        lemma_flat_position_none(sharp_name(i), 0);
        lemma_sharp_position_at(sharp_name(i), 0, i);
    }
}

/// Transposing either spelling of pitch class `i` by `n` half-steps gives the
/// sharp name of pitch class `(i + n) mod 12`, for every integer `n`.
pub proof fn lemma_transpose_pitch(i: int, n: int)
    requires
        0 <= i < 12,
    ensures
        transpose_base(flat_name(i), n) == sharp_name((i + n) % 12),
        transpose_base(sharp_name(i), n) == sharp_name((i + n) % 12),
{
    lemma_pitch_index(i);
}

/// Transposing by zero keeps a sharp spelling and turns a flat spelling into
/// the sharp name of the same pitch class.
pub proof fn lemma_transpose_zero_spelling(i: int)
    requires
        0 <= i < 12,
    ensures
        transpose_base(sharp_name(i), 0) == sharp_name(i),
        transpose_base(flat_name(i), 0) == sharp_name(i),
{
    lemma_transpose_pitch(i, 0);
    assert((i + 0) % 12 == i);
}

/// Transposing by `n` and then by `-n mod 12` gives the sharp spelling of the
/// starting base.
pub proof fn lemma_transpose_round_trip(b: Seq<char>, n: int)
    requires
        is_note_name(b),
    ensures
        transpose_base(transpose_base(b, n), (-n) % 12) == transpose_base(b, 0),
{
    let i = pitch_index(b);
    lemma_pitch_index_range(b);
    let j = (i + n) % 12;
    lemma_pitch_index(j);
    assert(pitch_index(transpose_base(b, n)) == j);
    vstd::arithmetic::div_mod::lemma_add_mod_noop(i + n, -n, 12);
    vstd::arithmetic::div_mod::lemma_mod_twice(-n, 12);
    assert(((i + n) % 12 + (-n) % 12) % 12 == (i + n + (-n)) % 12);
    assert(i + n + (-n) == i + 0);
}

proof fn lemma_sharp_names_distinct()
    ensures
        forall|i: int, j: int|
            0 <= i < 12 && 0 <= j < 12 && i != j ==> sharp_name(i) != sharp_name(j),
{
    assert forall|i: int, j: int| 0 <= i < 12 && 0 <= j < 12 && i != j implies sharp_name(i)
        != sharp_name(j) by {
        if sharp_name(i).len() == sharp_name(j).len() {
            if sharp_name(i)[0] == sharp_name(j)[0] {
                assert(sharp_name(i)[1] != sharp_name(j)[1]);
            }
        }
    }
}

proof fn lemma_flat_names_distinct()
    ensures
        forall|i: int, j: int| 0 <= i < 12 && 0 <= j < 12 && i != j ==> flat_name(i) != flat_name(j),
{
    assert forall|i: int, j: int| 0 <= i < 12 && 0 <= j < 12 && i != j implies flat_name(i) != flat_name(j) by {
        if flat_name(i).len() == flat_name(j).len() {
            if flat_name(i)[0] == flat_name(j)[0] {
                assert(flat_name(i)[1] != flat_name(j)[1]);
            }
        }
    }
}

} // verus!
