use vstd::prelude::*;
use crate::text::{byte_offset, lemma_byte_offset_step};

verus! {

/// A location in the source: byte offset, line (from 1) and column.
#[derive(Clone, Copy, Debug, PartialEq, Eq, Structural)]
pub struct Pos {
    pub i: usize,
    pub line: usize,
    pub col: usize,
}

/// The mathematical value of a [`Pos`].
pub struct PosModel {
    pub offset: nat,
    pub line: nat,
    pub col: nat,
}

impl View for Pos {
    type V = PosModel;

    open spec fn view(&self) -> PosModel {
        PosModel { offset: self.i as nat, line: self.line as nat, col: self.col as nat }
    }
}

/// The location before any character was read.
pub open spec fn start_model() -> PosModel {
    PosModel { offset: 0, line: 1, col: 0 }
}

/// Moving past character `c`, found at byte offset `i`: a newline opens a new
/// line at column 0, any other character moves one column on.
pub open spec fn step_model(p: PosModel, c: char, i: nat) -> PosModel {
    if c == '\n' {
        PosModel { offset: i, line: p.line + 1, col: 0 }
    } else {
        PosModel { offset: i, line: p.line, col: p.col + 1 }
    }
}

/// The location after the first `k` characters of `src` were read.
pub open spec fn pos_after(src: Seq<char>, k: nat) -> PosModel
    decreases k,
{
    if k == 0 {
        start_model()
    } else {
        let j = (k - 1) as nat;
        step_model(pos_after(src, j), src[j as int], byte_offset(src, j as int))
    }
}

/// The location that reading the character at index `k` leads to; at the end
/// of `src` a non-newline placeholder at the source's byte length.
pub open spec fn peek_pos_at(src: Seq<char>, k: nat) -> PosModel {
    let c = if k < src.len() { src[k as int] } else { '\0' };
    step_model(pos_after(src, k), c, byte_offset(src, k as int))
}

/// How many newline characters `s` holds.
pub open spec fn newline_count(s: Seq<char>) -> nat {
    s.filter(|c: char| c == '\n').len()
}

/// How many characters of `s` follow its last newline (all of them if none).
pub open spec fn trailing_columns(s: Seq<char>) -> nat
    decreases s.len(),
{
    if s.len() == 0 {
        0
    } else if s.last() == '\n' {
        0
    } else {
        trailing_columns(s.drop_last()) + 1
    }
}

/// Lines and columns stay within what the characters read can account for.
pub proof fn lemma_pos_after_bounds(src: Seq<char>, k: nat)
    requires
        k <= src.len(),
    ensures
        pos_after(src, k).line <= k + 1,
        pos_after(src, k).col <= k,
        pos_after(src, k).offset <= byte_offset(src, k as int),
    decreases k,
{
    if k > 0 {
        lemma_pos_after_bounds(src, (k - 1) as nat);
        lemma_byte_offset_step(src, k - 1);
    }
}

/// The line is one more than the newlines read, and the column counts the
/// characters read since the last of them.
pub proof fn lemma_pos_after_counts(src: Seq<char>, k: nat)
    requires
        k <= src.len(),
    ensures
        pos_after(src, k).line == 1 + newline_count(src.take(k as int)),
        pos_after(src, k).col == trailing_columns(src.take(k as int)),
    decreases k,
{
    reveal(Seq::filter);
    if k == 0 {
        assert(src.take(0) =~= Seq::<char>::empty());
    } else {
        let j = (k - 1) as nat;
        lemma_pos_after_counts(src, j);
        let t = src.take(k as int);
        assert(t.drop_last() =~= src.take(j as int));
        assert(t.last() == src[j as int]);
    }
}

impl Pos {
    pub fn new() -> (r: Self)
        ensures
            r@ == start_model(),
    {
        Self::at(0, 1, 0)
    }

    pub fn at(i: usize, line: usize, col: usize) -> (r: Self)
        ensures
            r.i == i,
            r.line == line,
            r.col == col,
    {
        Self { i, line, col }
    }

    pub fn step(&mut self, c: char, i: usize)
        requires
            c == '\n' ==> old(self).line < usize::MAX,
            c != '\n' ==> old(self).col < usize::MAX,
        ensures
            final(self)@ == step_model(old(self)@, c, i as nat),
    {
        self.i = i;
        if c == '\n' {
            self.line = self.line + 1;
            self.col = 0;
        } else {
            self.col = self.col + 1;
        }
    }

    pub fn stepped(self, c: char, i: usize) -> (r: Self)
        requires
            c == '\n' ==> self.line < usize::MAX,
            c != '\n' ==> self.col < usize::MAX,
        ensures
            r@ == step_model(self@, c, i as nat),
    {
        let mut p = self;
        p.step(c, i);
        p
    }
}

} // verus!
