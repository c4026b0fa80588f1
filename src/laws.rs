use vstd::prelude::*;
use crate::charbool::CharBool;
use vstd::utf8::encode_utf8;
use crate::inner_token::{CursorView, Token, accepted_run_ends_at};
use crate::text::lemma_byte_offset_end;
use crate::pos::{pos_after, newline_count, trailing_columns, lemma_pos_after_counts};

verus! {

/// Looking at the next character again, with nothing consumed in between,
/// gives the same character at the same index and changes nothing more.
pub proof fn lemma_peek_idempotent(v: CursorView)
    requires
        v.wf(),
    ensures
        v.peeked().wf(),
        v.peeked().peeked() == v.peeked(),
        v.peeked().next_item() == v.next_item(),
{
}

/// The cursor's line is one more than the newlines it consumed, and its
/// column the number of characters it consumed since the last of them; the
/// location of the next character counts that character as consumed.
pub proof fn lemma_location_counts(v: CursorView)
    requires
        v.wf(),
    ensures
        v.position().line == 1 + newline_count(v.src.take(v.consumed as int)),
        v.position().col == trailing_columns(v.src.take(v.consumed as int)),
        v.consumed < v.src.len() ==> v.peek_position() == pos_after(v.src, v.consumed + 1),
        v.consumed < v.src.len() ==> v.peek_position().line == 1 + newline_count(
            v.src.take((v.consumed + 1) as int),
        ),
        v.consumed < v.src.len() ==> v.peek_position().col == trailing_columns(
            v.src.take((v.consumed + 1) as int),
        ),
        v.consumed == v.src.len() ==> v.peek_position().line == 1 + newline_count(v.src),
        v.consumed == v.src.len() ==> v.peek_position().col == trailing_columns(v.src) + 1,
        v.peek_position().offset == v.next_index(),
{
    lemma_pos_after_counts(v.src, v.consumed);
    if v.consumed < v.src.len() {
        lemma_pos_after_counts(v.src, v.consumed + 1);
    } else {
        assert(v.src.take(v.consumed as int) =~= v.src);
    }
}

proof fn lemma_texts_from(vs: Seq<CursorView>, src: Seq<char>)
    requires
        vs.len() >= 1,
        forall|i: int| 0 <= i < vs.len() ==> (#[trigger] vs[i]).src == src && vs[i].wf(),
        forall|i: int| 0 <= i < vs.len() - 1 ==> (#[trigger] vs[i + 1]).start == vs[i].marked().start,
        vs.last().consumed == src.len(),
    ensures
        Seq::new(vs.len(), |i: int| vs[i].token_text()).flatten() == src.subrange(
            vs[0].start as int,
            src.len() as int,
        ),
    decreases vs.len(),
{
    let texts = Seq::new(vs.len(), |i: int| vs[i].token_text());
    if vs.len() == 1 {
        assert(texts.drop_first() =~= Seq::<Seq<char>>::empty());
        assert(texts.drop_first().flatten() =~= Seq::<char>::empty());
        assert(texts.flatten() == texts.first() + texts.drop_first().flatten());
        assert(texts.flatten() =~= texts[0]);
    } else {
        let rest = vs.drop_first();
        assert forall|i: int| 0 <= i < rest.len() implies (#[trigger] rest[i]).src == src
            && rest[i].wf() by {
            assert(rest[i] == vs[i + 1]);
        }
        assert forall|i: int| 0 <= i < rest.len() - 1 implies (#[trigger] rest[i + 1]).start
            == rest[i].marked().start by {
            assert(rest[i + 1] == vs[i + 2]);
            assert(rest[i] == vs[i + 1]);
        }
        lemma_texts_from(rest, src);
        assert(texts.drop_first() =~= Seq::new(rest.len(), |i: int| rest[i].token_text()));
        assert(vs[1].start == vs[0].consumed);
        assert(src.subrange(vs[0].start as int, src.len() as int) =~= vs[0].token_text()
            + src.subrange(vs[1].start as int, src.len() as int));
    }
}

/// Tokens cut one after another from the start of the source to its end,
/// each starting where the previous one was closed, give back the whole
/// source when their texts are joined.
pub proof fn lemma_tokens_cover_source(vs: Seq<CursorView>, src: Seq<char>)
    requires
        vs.len() >= 1,
        forall|i: int| 0 <= i < vs.len() ==> (#[trigger] vs[i]).src == src && vs[i].wf(),
        vs[0].start == 0,
        forall|i: int| 0 <= i < vs.len() - 1 ==> (#[trigger] vs[i + 1]).start == vs[i].marked().start,
        vs.last().consumed == src.len(),
    ensures
        Seq::new(vs.len(), |i: int| vs[i].token_text()).flatten() == src,
{
    lemma_texts_from(vs, src);
    assert(src.subrange(0, src.len() as int) =~= src);
}

/// When the test does not accept the next character, taking characters while
/// it holds consumes nothing, leaves the location where it was, and cuts an
/// empty token when that token was started here.
pub proof fn lemma_take_while_none<C: CharBool>(v: CursorView, cb: C, k: nat)
    requires
        v.wf(),
        v.consumed < v.src.len() ==> !cb.accepts(v.src[v.consumed as int]),
        accepted_run_ends_at(v.src, v.consumed, k, cb),
    ensures
        k == v.consumed,
        v.moved_to(k).position() == v.position(),
        v.start == v.consumed ==> v.moved_to(k).token_text() == Seq::<char>::empty(),
{
    if k > v.consumed {
        assert(cb.accepts(v.src[v.consumed as int]));
    }
    assert(v.src.subrange(v.consumed as int, v.consumed as int) =~= Seq::<char>::empty());
}

/// When the mapping gives no value, `follow_fn_or` ends as closing the token
/// after dropping the lookahead does: no character past the lookahead joins
/// the token, and the next token starts where consuming the lookahead leads.
pub proof fn lemma_mapped_or_nothing(v: CursorView)
    requires
        v.wf(),
    ensures
        v.discarded().marked() == v.before_close(true).marked(),
        v.discarded().consumed == if v.buffered {
            v.consumed + 1
        } else {
            v.consumed
        },
        v.discarded().marked().start_pos == v.discarded().peek_position(),
        !v.buffered ==> v.discarded().marked().start_pos == v.peek_position(),
{
}

/// The tokens cut one after another from the start of the source to its
/// end, each from the state it was closed in, join to the whole source; the
/// first starts at byte 0, each starts at the byte where the one before it
/// ended, and the last ends at the source's byte length.
pub proof fn lemma_token_offsets_chain<'a, T>(
    vs: Seq<CursorView>,
    toks: Seq<Token<'a, T>>,
    src: Seq<char>,
)
    requires
        vs.len() >= 1,
        toks.len() == vs.len(),
        forall|i: int| 0 <= i < vs.len() ==> (#[trigger] vs[i]).src == src && vs[i].wf(),
        vs[0].start == 0,
        forall|i: int| 0 <= i < vs.len() - 1 ==> (#[trigger] vs[i + 1]).start == vs[i].marked().start,
        vs.last().consumed == src.len(),
        forall|i: int| 0 <= i < toks.len() ==> (#[trigger] toks[i]).cut_from(vs[i]),
    ensures
        Seq::new(toks.len(), |i: int| toks[i].s@).flatten() == src,
        toks[0].start.i == 0,
        forall|i: int| 0 <= i < toks.len() - 1 ==> (#[trigger] toks[i + 1]).start.i == toks[i].end.i,
        toks.last().end.i == encode_utf8(src).len(),
{
    lemma_tokens_cover_source(vs, src);
    assert(Seq::new(toks.len(), |i: int| toks[i].s@) =~= Seq::new(
        vs.len(),
        |i: int| vs[i].token_text(),
    )) by {
        assert forall|i: int| 0 <= i < toks.len() implies toks[i].s@ == vs[i].token_text() by {
            assert(toks[i].cut_from(vs[i]));
        }
    }
    assert(toks[0].cut_from(vs[0]));
    assert(src.take(0) =~= Seq::<char>::empty());
    assert forall|i: int| 0 <= i < toks.len() - 1 implies (#[trigger] toks[i + 1]).start.i
        == toks[i].end.i by {
        assert(toks[i + 1].cut_from(vs[i + 1]));
        assert(toks[i].cut_from(vs[i]));
        assert(vs[i + 1].start == vs[i].marked().start);
    }
    assert(toks[toks.len() - 1].cut_from(vs[vs.len() - 1]));
    lemma_byte_offset_end(src);
}

} // verus!
