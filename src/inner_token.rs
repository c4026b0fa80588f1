use vstd::prelude::*;
use vstd::utf8::encode_utf8;
use vstd::string::StringSliceAdditionalSpecFns;
use crate::pos::{Pos, PosModel, pos_after, peek_pos_at, start_model, lemma_pos_after_bounds};
use crate::err::TErr;
use crate::charbool::CharBool;
use crate::text::{byte_offset, char_width, slice_chars, split_first, is_white_space, white_space_char, lemma_byte_offset_step, lemma_byte_offset_mono, lemma_byte_offset_end};

verus! {

/// What a cursor stands for: the source's characters, how many of them were
/// consumed, whether the next one sits read but unconsumed in the lookahead
/// slot, the index of the character that starts the current token, and the
/// location recorded for that start.
pub struct CursorView {
    pub src: Seq<char>,
    pub consumed: nat,
    pub buffered: bool,
    pub start: nat,
    pub start_pos: PosModel,
}

impl CursorView {
    /// Counts that fit the source.
    pub open spec fn wf(self) -> bool {
        &&& self.consumed <= self.src.len()
        &&& self.buffered ==> self.consumed < self.src.len()
        &&& self.start <= self.consumed
        &&& self.start_pos.offset == byte_offset(self.src, self.start as int)
    }

    /// The next unconsumed character, if any is left.
    pub open spec fn next_char(self) -> Option<char> {
        if self.consumed < self.src.len() {
            Some(self.src[self.consumed as int])
        } else {
            None
        }
    }

    /// Byte offset of the next unconsumed character (the source's byte length
    /// at its end).
    pub open spec fn next_index(self) -> nat {
        byte_offset(self.src, self.consumed as int)
    }

    /// The next unconsumed character with its byte offset.
    pub open spec fn next_item(self) -> Option<(usize, char)> {
        match self.next_char() {
            Some(c) => Some((self.next_index() as usize, c)),
            None => None,
        }
    }

    /// The location after the consumed characters.
    pub open spec fn position(self) -> PosModel {
        pos_after(self.src, self.consumed)
    }

    /// The location that consuming the next character would lead to.
    pub open spec fn peek_position(self) -> PosModel {
        peek_pos_at(self.src, self.consumed)
    }

    /// The state after looking at the next character.
    pub open spec fn peeked(self) -> CursorView {
        CursorView { buffered: self.consumed < self.src.len(), ..self }
    }

    /// The state after dropping the lookahead slot, consuming what it held.
    pub open spec fn discarded(self) -> CursorView {
        if self.buffered {
            CursorView { consumed: self.consumed + 1, buffered: false, ..self }
        } else {
            self
        }
    }

    /// The state after consuming the next character, if one is left.
    pub open spec fn advanced(self) -> CursorView {
        if self.consumed < self.src.len() {
            CursorView { consumed: self.consumed + 1, buffered: false, ..self }
        } else {
            CursorView { buffered: false, ..self }
        }
    }

    /// The state after marking the start of a token at the next character.
    pub open spec fn marked(self) -> CursorView {
        CursorView { start: self.consumed, start_pos: self.peek_position(), ..self.peeked() }
    }

    /// The state with `k` characters consumed and the next one looked at.
    pub open spec fn moved_to(self, k: nat) -> CursorView {
        CursorView { consumed: k, buffered: k < self.src.len(), ..self }
    }

    /// The state in which a token is closed, dropping the lookahead slot first
    /// when `discard` is set.
    pub open spec fn before_close(self, discard: bool) -> CursorView {
        if discard {
            self.discarded()
        } else {
            self
        }
    }

    /// The characters of the current token: from its start to the consumed end.
    pub open spec fn token_text(self) -> Seq<char> {
        self.src.subrange(self.start as int, self.consumed as int)
    }
}

/// Whether `to` ends the run of white space that begins at index `from` of
/// `src`: all characters before it are white space, the one at `to` (if any)
/// is not.
pub open spec fn white_run_ends_at(src: Seq<char>, from: nat, to: nat) -> bool {
    &&& from <= to <= src.len()
    &&& forall|i: int| from <= i < to ==> #[trigger] white_space_char(src[i])
    &&& to < src.len() ==> !white_space_char(src[to as int])
}

/// Whether `to` ends the run of characters that `cb` accepts that begins at
/// index `from` of `src`: all before it are accepted, the one at `to` (if
/// any) is not.
pub open spec fn accepted_run_ends_at<C: CharBool>(src: Seq<char>, from: nat, to: nat, cb: C) -> bool {
    &&& from <= to <= src.len()
    &&& forall|i: int| from <= i < to ==> #[trigger] cb.accepts(src[i])
    &&& to < src.len() ==> !cb.accepts(src[to as int])
}

/// A piece of the source cut out as a token, with the value the caller gave
/// it and the locations of its two ends.
#[derive(Clone, Debug)]
pub struct Token<'a, T> {
    pub value: T,
    pub s: &'a str,
    pub start: Pos,
    pub end: Pos,
}

/// What producing a token gives: a token, or a failure.
pub type TokenRes<'a, T> = Result<Option<Token<'a, T>>, TErr>;

impl<'a, T> Token<'a, T> {
    /// Whether this token is the one that closing the current token of `v`
    /// cuts: its text runs from the token start to the consumed end.
    pub open spec fn cut_from(&self, v: CursorView) -> bool {
        &&& self.s@ == v.token_text()
        &&& self.start.i == byte_offset(v.src, v.start as int)
        &&& self.end.i == byte_offset(v.src, v.consumed as int)
        &&& self.s.spec_bytes() == encode_utf8(v.src).subrange(self.start.i as int, self.end.i as int)
        &&& self.start@ == v.start_pos
        &&& self.end@ == v.peek_position()
    }
}

/// Whether `r` holds the token cut from `v`, with value `value`.
pub open spec fn is_token<'a, T>(r: TokenRes<'a, T>, v: CursorView, value: T) -> bool {
    match r {
        Ok(Some(tok)) => tok.value == value && tok.cut_from(v),
        _ => false,
    }
}

/// Whether `r` is a failure reported at the next character of `v`.
pub open spec fn is_error_at<'a, T>(r: TokenRes<'a, T>, v: CursorView) -> bool {
    match r {
        Err(e) => e.pos@ == v.peek_position() && e.got == v.next_char(),
        _ => false,
    }
}

/// A cursor over a source text: consumes characters one by one, with one
/// character of lookahead, keeps the location up to date and cuts tokens.
pub struct InnerTokenizer<'a> {
    s: &'a str,
    pos: Pos,
    /// The part of `s` not yet taken.
    rest: &'a str,
    /// How many characters were taken from `s`.
    pulled: usize,
    /// Byte offset of the next character to take.
    next_byte: usize,
    /// The location of the start of the current token.
    token_start: Pos,
    token_start_char: usize,
    peek: Option<(usize, char)>,
}

impl<'a> View for InnerTokenizer<'a> {
    type V = CursorView;

    closed spec fn view(&self) -> CursorView {
        CursorView {
            src: self.s@,
            consumed: if self.peek is Some {
                (self.pulled - 1) as nat
            } else {
                self.pulled as nat
            },
            buffered: self.peek is Some,
            start: self.token_start_char as nat,
            start_pos: self.token_start@,
        }
    }
}

impl<'a> InnerTokenizer<'a> {
    /// The cursor's internal invariant.
    pub closed spec fn wf(&self) -> bool {
        &&& encode_utf8(self.s@).len() < usize::MAX
        &&& self.pulled <= self.s@.len()
        &&& self.next_byte == byte_offset(self.s@, self.pulled as int)
        &&& self.rest@ == self.s@.skip(self.pulled as int)
        &&& self.peek matches Some((i, c)) ==> {
            &&& self.pulled >= 1
            &&& i == byte_offset(self.s@, self.pulled - 1)
            &&& c == self.s@[self.pulled - 1]
        }
        &&& self@.wf()
        &&& self.pos@ == self@.position()
    }

    /// A cursor that keeps its invariant has a view that fits its source,
    /// and a source whose byte length fits in `usize`.
    pub proof fn lemma_view_wf(&self)
        requires
            self.wf(),
        ensures
            self@.wf(),
            encode_utf8(self@.src).len() < usize::MAX,
    {
    }

    /// Facts on sizes that keep the location's arithmetic in range.
    proof fn lemma_bounds(&self)
        requires
            self.wf(),
        ensures
            self.s@.len() <= encode_utf8(self.s@).len(),
            self@.position().line <= self@.consumed + 1,
            self@.position().col <= self@.consumed,
            self@.next_index() <= encode_utf8(self.s@).len(),
    {
        lemma_byte_offset_mono(self.s@, 0, self.s@.len() as int);
        lemma_byte_offset_mono(self.s@, self@.consumed as int, self.s@.len() as int);
        lemma_byte_offset_end(self.s@);
        lemma_pos_after_bounds(self.s@, self@.consumed);
        assert(self.s@.take(0) =~= Seq::<char>::empty());
    }

    /// A cursor at the start of `s`, with no token started yet.
    pub fn new(s: &'a str) -> (r: Self)
        requires
            encode_utf8(s@).len() < usize::MAX,
        ensures
            r.wf(),
            r@ == (CursorView {
                src: s@,
                consumed: 0,
                buffered: false,
                start: 0,
                start_pos: start_model(),
            }),
    {
        let r = Self {
            s: s,
            pos: Pos::new(),
            rest: s,
            pulled: 0,
            next_byte: 0,
            token_start: Pos::new(),
            token_start_char: 0,
            peek: None,
        };
        proof {
            assert(s@.skip(0) =~= s@);
            assert(s@.take(0) =~= Seq::<char>::empty());
        }
        r
    }

    /// Takes the next character from the source, past the lookahead slot.
    fn read_source(&mut self) -> (r: Option<(usize, char)>)
        requires
            old(self).wf(),
            old(self).peek is None,
        ensures
            final(self).s == old(self).s,
            final(self).pos == old(self).pos,
            final(self).token_start == old(self).token_start,
            final(self).token_start_char == old(self).token_start_char,
            final(self).peek is None,
            old(self).pulled < old(self).s@.len() ==> {
                &&& final(self).pulled == old(self).pulled + 1
                &&& final(self).rest@ == old(self).s@.skip(final(self).pulled as int)
                &&& final(self).next_byte == byte_offset(old(self).s@, final(self).pulled as int)
                &&& r == Some((old(self).next_byte, old(self).s@[old(self).pulled as int]))
            },
            old(self).pulled >= old(self).s@.len() ==> {
                &&& final(self).pulled == old(self).pulled
                &&& final(self).rest == old(self).rest
                &&& final(self).next_byte == old(self).next_byte
                &&& r is None
            },
    {
        match split_first(self.rest) {
            Some((c, tail)) => {
                let n = self.next_byte;
                proof {
                    assert(c == self.s@[self.pulled as int]);
                    lemma_byte_offset_mono(self.s@, 0, self.pulled + 1);
                    assert(self.s@.take(0) =~= Seq::<char>::empty());
                    assert(tail@ =~= self.s@.skip(self.pulled + 1));
                    lemma_byte_offset_step(self.s@, self.pulled as int);
                    lemma_byte_offset_mono(self.s@, self.pulled + 1, self.s@.len() as int);
                    lemma_byte_offset_end(self.s@);
                }
                self.rest = tail;
                self.next_byte = n + char_width(c);
                self.pulled = self.pulled + 1;
                Some((n, c))
            },
            None => None,
        }
    }

    /// Consume the next character (the one in the lookahead slot, if any) and
    /// give it with its byte offset.
    pub fn next(&mut self) -> (r: Option<(usize, char)>)
        requires
            old(self).wf(),
        ensures
            final(self).wf(),
            r == old(self)@.next_item(),
            final(self)@ == old(self)@.advanced(),
    {
        proof {
            self.lemma_bounds();
        }
        match self.peek {
            Some((n, c)) => {
                self.peek = None;
                self.pos.step(c, n);
                Some((n, c))
            },
            None => {
                let r = self.read_source();
                match r {
                    Some((n, c)) => {
                        self.pos.step(c, n);
                    },
                    None => {},
                }
                r
            },
        }
    }

    /// The next character and its byte offset, without consuming it.
    pub fn peek(&mut self) -> (r: Option<(usize, char)>)
        requires
            old(self).wf(),
        ensures
            final(self).wf(),
            r == old(self)@.next_item(),
            final(self)@ == old(self)@.peeked(),
    {
        match self.peek {
            Some((i, c)) => {
                return Some((i, c));
            },
            None => {},
        }
        let r = self.read_source();
        self.peek = r;
        r
    }

    /// The next character, without consuming it.
    pub fn peek_char(&mut self) -> (r: Option<char>)
        requires
            old(self).wf(),
        ensures
            final(self).wf(),
            r == old(self)@.next_char(),
            final(self)@ == old(self)@.peeked(),
    {
        match self.peek() {
            Some((_, c)) => Some(c),
            None => None,
        }
    }

    /// The byte offset of the next character (the source's byte length at
    /// its end), without consuming it.
    pub fn peek_index(&mut self) -> (r: usize)
        requires
            old(self).wf(),
        ensures
            final(self).wf(),
            r == old(self)@.next_index(),
            final(self)@ == old(self)@.peeked(),
    {
        proof {
            self.lemma_bounds();
            lemma_byte_offset_end(self.s@);
        }
        match self.peek() {
            None => self.s.len(),
            Some((i, _)) => i,
        }
    }

    /// The location that consuming the next character would lead to.
    pub fn peek_pos(&mut self) -> (r: Pos)
        requires
            old(self).wf(),
        ensures
            final(self).wf(),
            r@ == old(self)@.peek_position(),
            final(self)@ == old(self)@.peeked(),
    {
        proof {
            self.lemma_bounds();
            lemma_byte_offset_end(self.s@);
        }
        match self.peek() {
            None => self.pos.stepped('\0', self.s.len()),
            Some((n, c)) => self.pos.stepped(c, n),
        }
    }

    /// Mark the start of a token at the next character. Closing a token does
    /// this for the next one; doing it again is harmless.
    pub fn start_token(&mut self)
        requires
            old(self).wf(),
        ensures
            final(self).wf(),
            final(self)@ == old(self)@.marked(),
    {
        let pos = self.peek_pos();
        let k = self.consumed_count();
        self.token_start = pos;
        self.token_start_char = k;
    }

    /// How many characters were consumed.
    fn consumed_count(&self) -> (r: usize)
        requires
            self.wf(),
        ensures
            r == self@.consumed,
    {
        match self.peek {
            Some(_) => self.pulled - 1,
            None => self.pulled,
        }
    }

    /// Consume the character in the lookahead slot, if any, without giving
    /// it; the next look reads past it.
    pub fn unpeek(&mut self)
        requires
            old(self).wf(),
        ensures
            final(self).wf(),
            final(self)@ == old(self)@.discarded(),
    {
        proof {
            self.lemma_bounds();
        }
        match self.peek {
            Some((n, c)) => self.pos.step(c, n),
            None => {},
        }
        self.peek = None;
    }

    /// Cut the current token, from its recorded start to the next character,
    /// and start the next token there.
    pub fn make_token<T>(&mut self, value: T) -> (r: Token<'a, T>)
        requires
            old(self).wf(),
        ensures
            final(self).wf(),
            final(self)@ == old(self)@.marked(),
            r.value == value,
            r.cut_from(old(self)@),
    {
        let start = self.token_start;
        let start_char = self.token_start_char;
        let end = self.peek_pos();
        let end_char = self.consumed_count();
        let text = slice_chars(self.s, start.i, end.i, Ghost(start_char as int), Ghost(end_char as int));
        self.token_start = end;
        self.token_start_char = end_char;
        Token { start, end, s: text, value }
    }

    /// Close the current token with value `tt`; with `unpeek` set, the
    /// character in the lookahead slot is consumed into it first.
    pub fn token_res<T>(&mut self, tt: T, unpeek: bool) -> (r: TokenRes<'a, T>)
        requires
            old(self).wf(),
        ensures
            final(self).wf(),
            final(self)@ == old(self)@.before_close(unpeek).marked(),
            is_token(r, old(self)@.before_close(unpeek), tt),
    {
        if unpeek {
            self.unpeek();
        }
        Ok(Some(self.make_token(tt)))
    }

    /// Consume the white space that comes next.
    pub fn white_space(&mut self)
        requires
            old(self).wf(),
        ensures
            final(self).wf(),
            white_run_ends_at(old(self)@.src, old(self)@.consumed, final(self)@.consumed),
            final(self)@ == old(self)@.moved_to(final(self)@.consumed),
    {
        let ghost v0 = self@;
        loop
            invariant_except_break
                self@.consumed == v0.consumed ==> self@.buffered == v0.buffered,
                self@.consumed > v0.consumed ==> !self@.buffered,
            invariant
                self.wf(),
                self@.src == v0.src,
                self@.start == v0.start,
                self@.start_pos == v0.start_pos,
                v0.consumed <= self@.consumed,
                forall|i: int| v0.consumed <= i < self@.consumed ==> white_space_char(v0.src[i]),
            ensures
                self@ == v0.moved_to(self@.consumed),
                self@.consumed < v0.src.len() ==> !white_space_char(v0.src[self@.consumed as int]),
            decreases v0.src.len() - self@.consumed,
        {
            match self.peek_char() {
                Some(c) => {
                    if is_white_space(c) {
                        self.unpeek();
                    } else {
                        break;
                    }
                },
                None => {
                    break;
                },
            }
        }
    }

    /// A failure at the next character, expecting what `s` describes.
    pub fn expected<T>(&mut self, s: String) -> (r: TokenRes<'a, T>)
        requires
            old(self).wf(),
        ensures
            final(self).wf(),
            final(self)@ == old(self)@.peeked(),
            is_error_at(r, old(self)@),
            r matches Err(e) && e.exp == s,
    {
        let pos = self.peek_pos();
        let got = self.peek_char();
        Err(TErr { pos, exp: s, got })
    }

    /// Consume the lookahead slot, then the next character, which must pass
    /// `c`: close the token with `t`, or else fail with that character (none
    /// at the end of the input), reported at its location.
    pub fn follow<T, C: CharBool>(&mut self, c: C, t: T) -> (r: TokenRes<'a, T>)
        requires
            old(self).wf(),
            c.ready(),
        ensures
            final(self).wf(),
            ({
                let d = old(self)@.discarded();
                let a = d.advanced();
                match d.next_char() {
                    Some(x) if c.accepts(x) => {
                        &&& final(self)@ == a.marked()
                        &&& is_token(r, a, t)
                    },
                    _ => {
                        &&& final(self)@ == a
                        &&& is_error_at(r, d)
                        &&& r matches Err(e) && c.describes(e.exp@)
                    },
                }
            }),
    {
        self.unpeek();
        let pos = self.peek_pos();
        match self.next() {
            Some((_, x)) => {
                if c.cb(x) {
                    self.token_res(t, true)
                } else {
                    Err(TErr { pos, exp: c.expects(), got: Some(x) })
                }
            },
            None => Err(TErr { pos, exp: c.expects(), got: None }),
        }
    }

    /// Consume the lookahead slot, then the next character, and close the
    /// token with what `f` maps it to; where `f` refuses it, fail with that
    /// character, reported at its location, and where none is left, fail at
    /// the end of the input.
    pub fn follow_fn<T, F: Fn(char) -> Result<T, String>>(&mut self, f: F) -> (r: TokenRes<'a, T>)
        requires
            old(self).wf(),
            forall|x: char| f.requires((x,)),
        ensures
            final(self).wf(),
            ({
                let d = old(self)@.discarded();
                let a = d.advanced();
                match d.next_char() {
                    Some(x) => match r {
                        Ok(Some(tok)) => {
                            &&& f.ensures((x,), Ok::<T, String>(tok.value))
                            &&& tok.cut_from(a)
                            &&& final(self)@ == a.marked()
                        },
                        Err(e) => {
                            &&& f.ensures((x,), Err::<T, String>(e.exp))
                            &&& is_error_at(r, d)
                            &&& final(self)@ == a
                        },
                        Ok(None) => false,
                    },
                    None => {
                        &&& final(self)@ == a
                        &&& is_error_at(r, d)
                        &&& r matches Err(e) && e.exp@ == "Not EOI"@
                    },
                }
            }),
    {
        self.unpeek();
        let pos = self.peek_pos();
        match self.next() {
            Some((_, x)) => match f(x) {
                Ok(t) => self.token_res(t, true),
                Err(e) => Err(TErr { pos, exp: e, got: Some(x) }),
            },
            None => Err(TErr { pos, exp: String::from_str("Not EOI"), got: None }),
        }
    }

    /// Consume the lookahead slot; the next character then joins the token
    /// when `f` maps it to a value, which the token takes. Otherwise it stays
    /// unconsumed for the next token, and this one takes `def`. Never fails.
    pub fn follow_fn_or<T, F: Fn(char) -> Option<T>>(&mut self, f: F, def: T) -> (r: TokenRes<'a, T>)
        requires
            old(self).wf(),
            forall|x: char| f.requires((x,)),
        ensures
            final(self).wf(),
            ({
                let d = old(self)@.discarded();
                match d.next_char() {
                    Some(x) => match r {
                        Ok(Some(tok)) => {
                            ||| {
                                &&& f.ensures((x,), Some(tok.value))
                                &&& tok.cut_from(d.advanced())
                                &&& final(self)@ == d.advanced().marked()
                            }
                            ||| {
                                &&& f.ensures((x,), None::<T>)
                                &&& tok.value == def
                                &&& tok.cut_from(d)
                                &&& final(self)@ == d.marked()
                            }
                        },
                        _ => false,
                    },
                    None => {
                        &&& final(self)@ == d.marked()
                        &&& is_token(r, d, def)
                    },
                }
            }),
    {
        self.unpeek();
        match self.peek() {
            Some((_, x)) => match f(x) {
                Some(t) => self.token_res(t, true),
                None => self.token_res(def, false),
            },
            None => self.token_res(def, false),
        }
    }

    /// Consume the characters that `cb` accepts, from the next one on, and
    /// close the token with the value that `f` makes of them.
    pub fn take_while<T, CB: CharBool, F: Fn(&str) -> T>(&mut self, cb: CB, f: F) -> (r:
        TokenRes<'a, T>)
        requires
            old(self).wf(),
            cb.ready(),
            forall|s: &str| f.requires((s,)),
        ensures
            final(self).wf(),
            accepted_run_ends_at(old(self)@.src, old(self)@.consumed, final(self)@.consumed, cb),
            ({
                let e = old(self)@.moved_to(final(self)@.consumed);
                &&& final(self)@ == e.marked()
                &&& r matches Ok(Some(tok)) && tok.cut_from(e) && exists|run: &str|
                    run@ == e.src.subrange(old(self)@.consumed as int, e.consumed as int)
                        && #[trigger] f.ensures((run,), tok.value)
            }),
    {
        let start_byte = self.peek_index();
        let ghost v0 = self@;
        let start = self.consumed_count();
        loop
            invariant_except_break
                self@.consumed == v0.consumed ==> self@.buffered == v0.buffered,
                self@.consumed > v0.consumed ==> !self@.buffered,
            invariant
                self.wf(),
                cb.ready(),
                start == v0.consumed,
                self@.src == v0.src,
                self@.start == v0.start,
                self@.start_pos == v0.start_pos,
                v0.consumed <= self@.consumed,
                forall|i: int| v0.consumed <= i < self@.consumed ==> cb.accepts(v0.src[i]),
            ensures
                self@ == v0.moved_to(self@.consumed),
                self@.consumed < v0.src.len() ==> !cb.accepts(v0.src[self@.consumed as int]),
            decreases v0.src.len() - self@.consumed,
        {
            match self.peek() {
                Some((_, c)) => {
                    if cb.cb(c) {
                        self.unpeek();
                    } else {
                        break;
                    }
                },
                None => {
                    break;
                },
            }
        }
        let end = self.consumed_count();
        let end_byte = self.peek_index();
        let run = slice_chars(self.s, start_byte, end_byte, Ghost(start as int), Ghost(end as int));
        let tk = f(run);
        self.token_res(tk, false)
    }
}

} // verus!
