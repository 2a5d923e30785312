//! Transposition of a whole multi-line document.
use vstd::prelude::*;
use crate::line::{transpose_line_text, Line};
use crate::text_util::{append_chars, chars_of, push_char, slice_chars};

verus! {

/// Position of the first `'\n'` of `v` at or after `k`, or the length of `v`.
pub open spec fn newline_from(v: Seq<char>, k: int) -> int
    decreases v.len() - k,
{
    if k >= v.len() {
        v.len() as int
    } else if v[k] == '\n' {
        k
    } else {
        newline_from(v, k + 1)
    }
}

/// `s` without one trailing `'\r'`.
pub open spec fn strip_cr(s: Seq<char>) -> Seq<char> {
    if s.len() > 0 && s.last() == '\r' {
        s.drop_last()
    } else {
        s
    }
}

/// The lines of `v` from position `start`: split at `'\n'`, a `"\r\n"` ending
/// counts as one break, and a final break opens no further line.
pub open spec fn lines_from(v: Seq<char>, start: int) -> Seq<Seq<char>>
    decreases v.len() - start
    via lines_from_decreases
{
    if start >= v.len() || start < 0 {
        Seq::empty()
    } else {
        let e = newline_from(v, start);
        if e >= v.len() {
            seq![v.subrange(start, v.len() as int)]
        } else {
            seq![strip_cr(v.subrange(start, e))] + lines_from(v, e + 1)
        }
    }
}

#[via_fn]
proof fn lines_from_decreases(v: Seq<char>, start: int) {
    if 0 <= start < v.len() {
        lemma_newline_from(v, start);
    }
}

/// The lines of the document `v`.
pub open spec fn lines(v: Seq<char>) -> Seq<Seq<char>> {
    lines_from(v, 0)
}

/// `ls` joined with a single `'\n'` between neighbours.
pub open spec fn join_lines(ls: Seq<Seq<char>>) -> Seq<char>
    decreases ls.len(),
{
    if ls.len() == 0 {
        Seq::empty()
    } else if ls.len() == 1 {
        ls[0]
    } else {
        join_lines(ls.drop_last()) + seq!['\n'] + ls.last()
    }
}

/// The document `v` with the chords of its chord lines moved by `n`
/// half-steps.
pub open spec fn transpose_document(v: Seq<char>, n: int) -> Seq<char> {
    join_lines(transpose_lines(lines(v), n))
}

/// Each of `ls` transposed by `n`.
pub open spec fn transpose_lines(ls: Seq<Seq<char>>, n: int) -> Seq<Seq<char>> {
    ls.map_values(|l: Seq<char>| transpose_line_text(l, n))
}

/// The empty document transposes to the empty document.
pub proof fn lemma_empty_document(n: int)
    ensures
        transpose_document(Seq::empty(), n) == Seq::<char>::empty(),
{
    assert(lines(Seq::<char>::empty()) =~= Seq::empty());
    assert(transpose_lines(Seq::empty(), n) =~= Seq::empty());
}

proof fn lemma_newline_from(v: Seq<char>, k: int)
    requires
        0 <= k <= v.len(),
    ensures
        k <= newline_from(v, k) <= v.len(),
        newline_from(v, k) < v.len() ==> v[newline_from(v, k)] == '\n',
        forall|j: int| k <= j < newline_from(v, k) ==> v[j] != '\n',
    decreases v.len() - k,
{
    if k < v.len() && v[k] != '\n' {
        lemma_newline_from(v, k + 1);
    }
}

/// Transposes line `v` and renders it.
fn transpose_line(v: &Vec<char>, half_steps: i32) -> (r: Vec<char>)
    ensures
        r@ == transpose_line_text(v@, half_steps as int),
{
    let mut line = Line::from_chars(v);
    line.transpose(half_steps);
    let s = line.to_string();
    chars_of(s.as_str())
}

/// Moves every chord of every chord line of `text` by `half_steps`; other
/// text is kept verbatim. Lines are rejoined with `'\n'`.
pub fn transpose_text(text: &String, half_steps: i32) -> (r: String)
    ensures
        r@ == transpose_document(text@, half_steps as int),
{
    let v = chars_of(text.as_str());
    let mut out = String::new();
    let ghost done: Seq<Seq<char>> = Seq::empty();
    let mut start: usize = 0;
    let mut first = true;
    while start < v.len()
        invariant
            first == (done.len() == 0),
            start <= v@.len(),
            v@ == text@,
            done + lines_from(v@, start as int) == lines(v@),
            out@ == join_lines(transpose_lines(done, half_steps as int)),
        decreases v@.len() - start,
    {
        let mut e: usize = start;
        while e < v.len() && v[e] != '\n'
            invariant
                start <= e <= v@.len(),
                newline_from(v@, start as int) == newline_from(v@, e as int),
            decreases v@.len() - e,
        {
            e = e + 1;
        }
        let mut end: usize = e;
        if e < v.len() && e > start && v[e - 1] == '\r' {
            end = e - 1;
        }
        let piece = slice_chars(&v, start, end);
        let ghost line = if e < v.len() {
            strip_cr(v@.subrange(start as int, e as int))
        } else {
            v@.subrange(start as int, e as int)
        };
        assert(piece@ =~= line);
        let rendered = transpose_line(&piece, half_steps);
        if !first {
            push_char(&mut out, '\n');
        }
        append_chars(&mut out, &rendered);
        first = false;
        proof {
            let old_done = done;
            done = done.push(line);
            assert(transpose_lines(done, half_steps as int).drop_last() =~= transpose_lines(old_done, half_steps as int));
            assert(transpose_lines(done, half_steps as int).last() == rendered@);
            if e < v.len() {
                assert(lines_from(v@, start as int) == seq![line] + lines_from(v@, e + 1));
                assert(done + lines_from(v@, e + 1) =~= old_done + lines_from(v@, start as int));
            } else {
                assert(lines_from(v@, start as int) == seq![line]);
                assert(done =~= old_done + lines_from(v@, start as int));
            }
            if old_done.len() == 0 {
                assert(transpose_lines(done, half_steps as int) =~= seq![rendered@]);
            }
        }
        if e < v.len() {
            start = e + 1;
        } else {
            start = e;
        }
    }
    assert(done =~= lines(text@));
    out
}

} // verus!
