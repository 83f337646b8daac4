//! What holds of the lexer for every source text.
use vstd::prelude::*;
use vstd::utf8::{encode_utf8, is_ascii_chars, is_ascii_chars_encode_utf8};
use crate::lexer::{
    feed, instructions, is_layout, lemma_scan_extend, lex, line_stop, place, scan, source_text,
    start_state, Diagnosis, Fault, Fed, Intrinsic, Loc, ScanState, Token, CONTEXT_AFTER,
    CONTEXT_BEFORE,
};

verus! {

/// A state that a scan can be in: lines and columns count from 1, and a
/// comment is always entered, and stays, in column 1.
pub open spec fn plausible(st: ScanState) -> bool {
    &&& st.line >= 1
    &&& st.column >= 1
    &&& st.in_comment ==> st.column == 1
}

/// A scan that begins in a plausible state ends in one.
pub proof fn scan_keeps_plausible(src: Seq<u8>, from: ScanState)
    requires
        plausible(from),
    ensures
        scan(src, from) matches Ok((_, st)) ==> plausible(st),
    decreases src.len(),
{
    if src.len() > 0 {
        scan_keeps_plausible(src.drop_last(), from);
    }
}

/// The fault `f`, found in a text, as it reads when `shift` bytes stand
/// before that text.
pub open spec fn shifted(f: Fault, shift: int) -> Fault {
    Fault { character: f.character, position: f.position, offset: f.offset + shift }
}

/// Scanning is compositional: the scan of `a` followed by `b` is the scan of
/// `a`, continued by the scan of `b` from the state that `a` left.
pub proof fn scan_concat(a: Seq<u8>, b: Seq<u8>, from: ScanState)
    ensures
        scan(a + b, from) == match scan(a, from) {
            Err(fault) => Err(fault),
            Ok((head, st)) => match scan(b, st) {
                Err(fault) => Err(shifted(fault, a.len() as int)),
                Ok((tail, end)) => Ok((head + tail, end)),
            },
        },
    decreases b.len(),
{
    if b.len() == 0 {
        assert(a + b == a);
        if let Ok((head, st)) = scan(a, from) {
            assert(head + Seq::<Token>::empty() == head);
        }
    } else {
        scan_concat(a, b.drop_last(), from);
        assert((a + b).drop_last() == a + b.drop_last());
        if let Ok((head, st)) = scan(a, from) {
            if let Ok((tail, mid)) = scan(b.drop_last(), st) {
                if let Fed::Emitted(token, next) = feed(mid, b.last() as char) {
                    assert((head + tail).push(token) == head + tail.push(token));
                }
            }
        }
    }
}

/// The empty source gives the empty program, not an error.
pub proof fn empty_source()
    ensures
        lex(Seq::<u8>::empty()) == Ok::<Seq<Token>, Diagnosis>(Seq::empty()),
{
}

/// A source that consists of one instruction character gives exactly one
/// token: that instruction, at line 1, column 1.
pub proof fn single_symbol(c: char)
    requires
        Intrinsic::of_symbol(c) is Some,
    ensures
        lex(seq![c as u8]) == Ok::<Seq<Token>, Diagnosis>(
            seq![
                Token {
                    intrinsic: Intrinsic::of_symbol(c)->0,
                    position: Loc { line: 1, column: 1 },
                },
            ],
        ),
{
    let src = seq![c as u8];
    assert(src.drop_last() == Seq::<u8>::empty());
    assert(scan(src.drop_last(), start_state()) == Ok::<(Seq<Token>, ScanState), Fault>(
        (Seq::empty(), start_state()),
    ));
    assert(src.last() as char == c);
    let token = Token { intrinsic: Intrinsic::of_symbol(c)->0, position: Loc { line: 1, column: 1 } };
    assert(Seq::<Token>::empty().push(token) == seq![token]);
}

/// Inside a comment nothing but a newline has any effect.
proof fn lemma_comment_body(body: Seq<u8>, st: ScanState)
    requires
        st.in_comment,
        forall|k: int| 0 <= k < body.len() ==> body[k] as char != '\n',
    ensures
        scan(body, st) == Ok::<(Seq<Token>, ScanState), Fault>((Seq::empty(), st)),
    decreases body.len(),
{
    if body.len() > 0 {
        lemma_comment_body(body.drop_last(), st);
    }
}

/// A line that starts with a character that is neither an instruction nor a
/// layout character is a comment: up to the next newline it is skipped, and
/// no token comes from it.
proof fn lemma_comment_line(comment: Seq<u8>, st: ScanState)
    requires
        plausible(st),
        st.column == 1,
        comment.len() > 0,
        Intrinsic::of_symbol(comment[0] as char) is None,
        !is_layout(comment[0] as char),
        forall|k: int| 0 <= k < comment.len() ==> comment[k] as char != '\n',
    ensures
        scan(comment, st) == Ok::<(Seq<Token>, ScanState), Fault>(
            (Seq::empty(), ScanState { line: st.line, column: 1, in_comment: true }),
        ),
{
    let inside = ScanState { line: st.line, column: 1, in_comment: true };
    let first = comment.take(1);
    let body = comment.skip(1);
    assert(comment == first + body);
    assert(first.drop_last() == Seq::<u8>::empty());
    assert(scan(first.drop_last(), st) == Ok::<(Seq<Token>, ScanState), Fault>(
        (Seq::empty(), st),
    ));
    assert(first.last() == comment[0]);
    assert(scan(first, st) == Ok::<(Seq<Token>, ScanState), Fault>((Seq::empty(), inside)));
    lemma_comment_body(body, inside);
    scan_concat(first, body, st);
    assert(Seq::<Token>::empty() + Seq::<Token>::empty() == Seq::<Token>::empty());
}

/// At a newline, and at the end of the text, it makes no difference to the
/// tokens and faults that follow whether a comment is open.
proof fn lemma_comment_ends(after: Seq<u8>, st: ScanState)
    requires
        st.column == 1,
        after.len() == 0 || after[0] as char == '\n',
    ensures
        match scan(after, ScanState { line: st.line, column: 1, in_comment: false }) {
            Ok((tokens, _)) => scan(
                after,
                ScanState { line: st.line, column: 1, in_comment: true },
            ) matches Ok((same, _)) && same == tokens,
            Err(fault) => scan(after, ScanState { line: st.line, column: 1, in_comment: true })
                == Err::<(Seq<Token>, ScanState), Fault>(fault),
        },
{
    let open = ScanState { line: st.line, column: 1, in_comment: true };
    let shut = ScanState { line: st.line, column: 1, in_comment: false };
    if after.len() > 0 {
        let first = after.take(1);
        let rest = after.skip(1);
        assert(after == first + rest);
        assert(first.drop_last() == Seq::<u8>::empty());
        assert(first.last() as char == '\n');
        assert(scan(first.drop_last(), open) == Ok::<(Seq<Token>, ScanState), Fault>(
            (Seq::empty(), open),
        ));
        assert(scan(first.drop_last(), shut) == Ok::<(Seq<Token>, ScanState), Fault>(
            (Seq::empty(), shut),
        ));
        scan_concat(first, rest, open);
        scan_concat(first, rest, shut);
    }
}

/// Where a character that is neither an instruction nor a layout character
/// starts a line, the rest of that line is skipped: the text with the
/// comment gives the tokens of the text without it, and fails where that
/// text fails.
///
/// `before` is any text after which a line starts, `comment` runs up to the
/// next newline or to the end of the text.
pub proof fn comment_line_skipped(before: Seq<u8>, comment: Seq<u8>, after: Seq<u8>)
    requires
        scan(before, start_state()) matches Ok((_, st)) && st.column == 1,
        comment.len() > 0,
        Intrinsic::of_symbol(comment[0] as char) is None,
        !is_layout(comment[0] as char),
        forall|k: int| 0 <= k < comment.len() ==> comment[k] as char != '\n',
        after.len() == 0 || after[0] as char == '\n',
    ensures
        match lex(before + after) {
            Ok(tokens) => lex(before + comment + after) == Ok::<
                Seq<Token>,
                Diagnosis,
            >(tokens),
            Err(d) => lex(before + comment + after) matches Err(e) && e.character == d.character
                && e.position == d.position && e.offset == d.offset + comment.len(),
        },
{
    let (head, st) = scan(before, start_state())->Ok_0;
    let open = ScanState { line: st.line, column: 1, in_comment: true };
    let shut = ScanState { line: st.line, column: 1, in_comment: false };
    scan_keeps_plausible(before, start_state());
    lemma_comment_line(comment, st);
    lemma_comment_ends(after, st);
    scan_concat(before, after, start_state());
    scan_concat(comment, after, st);
    scan_concat(before, comment + after, start_state());
    assert(before + comment + after == before + (comment + after));
    if st.in_comment {
        assert(st == open);
    } else {
        assert(st == shut);
    }
    if let Ok((tail, _)) = scan(after, open) {
        assert(Seq::<Token>::empty() + tail == tail);
    }
}

/// A character that is neither an instruction nor a layout character, and
/// that does not start a line, is a lexical error: tokenizing fails, and
/// reports that character at its place.
///
/// `before` is any text that is tokenized without error and does not end at
/// the start of a line.
pub proof fn stray_character_refused(before: Seq<u8>, c: u8, after: Seq<u8>)
    requires
        scan(before, start_state()) matches Ok((_, st)) && st.column != 1,
        Intrinsic::of_symbol(c as char) is None,
        !is_layout(c as char),
    ensures
        lex(before + seq![c] + after) matches Err(d) && d.character == c as char && d.offset
            == before.len() && d.position == place(scan(before, start_state())->Ok_0.1),
{
    let (head, st) = scan(before, start_state())->Ok_0;
    scan_keeps_plausible(before, start_state());
    let one = seq![c];
    assert(one.drop_last() == Seq::<u8>::empty());
    assert(scan(one.drop_last(), st) == Ok::<(Seq<Token>, ScanState), Fault>((Seq::empty(), st)));
    assert(one.last() == c);
    scan_concat(before, one, start_state());
    scan_concat(before + one, after, start_state());
}

/// The scan of the first `k` characters of a written-out token sequence.
proof fn lemma_round_trip_prefix(tokens: Seq<Token>, k: int)
    requires
        0 <= k <= tokens.len(),
    ensures
        is_ascii_chars(source_text(tokens)),
        encode_utf8(source_text(tokens)).len() == tokens.len(),
        scan(encode_utf8(source_text(tokens)).take(k), start_state()) matches Ok((again, st))
            && st == (ScanState { line: 1, column: k + 1, in_comment: false })
            && instructions(again) == instructions(tokens.take(k)),
    decreases k,
{
    let text = source_text(tokens);
    assert(is_ascii_chars(text)) by {
        assert forall|i: int| 0 <= i < text.len() implies '\0' <= #[trigger] text[i] <= '\u{7f}' by {
            let t = tokens[i];
            assert(text[i] == t.intrinsic.spec_symbol());
        }
    }
    is_ascii_chars_encode_utf8(text);
    let bytes = encode_utf8(text);
    if k == 0 {
        assert(bytes.take(0) == Seq::<u8>::empty());
        assert(instructions(Seq::<Token>::empty()) == instructions(tokens.take(0)));
    } else {
        lemma_round_trip_prefix(tokens, k - 1);
        lemma_scan_extend(bytes, k - 1, start_state());
        let (again, st) = scan(bytes.take(k - 1), start_state())->Ok_0;
        let i = tokens[k - 1].intrinsic;
        assert(text[k - 1] == i.spec_symbol());
        assert(bytes[k - 1] == text[k - 1] as u8);
        assert(bytes[k - 1] as char == i.spec_symbol());
        crate::lexer::symbol_read_back(i);
        let token = Token { intrinsic: i, position: place(st) };
        assert(tokens.take(k) == tokens.take(k - 1).push(tokens[k - 1]));
        assert(instructions(again.push(token)) == instructions(again).push(i));
        assert(instructions(tokens.take(k)) == instructions(tokens.take(k - 1)).push(i));
    }
}

/// Writing a token sequence back as source text and tokenizing that text
/// succeeds, and gives the same instructions in the same order.
pub proof fn source_round_trip(tokens: Seq<Token>)
    ensures
        lex(encode_utf8(source_text(tokens))) matches Ok(again) && instructions(again)
            == instructions(tokens),
{
    lemma_round_trip_prefix(tokens, tokens.len() as int);
    let bytes = encode_utf8(source_text(tokens));
    assert(bytes.take(tokens.len() as int) == bytes);
    assert(tokens.take(tokens.len() as int) == tokens);
}

/// The number of newlines in `src`.
pub open spec fn newlines(src: Seq<u8>) -> int
    decreases src.len(),
{
    if src.len() == 0 {
        0
    } else if src.last() as char == '\n' {
        newlines(src.drop_last()) + 1
    } else {
        newlines(src.drop_last())
    }
}

/// The line of a state is the physical line: one more than the newlines
/// read. Outside a comment the column is the physical column: the bytes
/// read since the last newline, or since the start, are one fewer.
proof fn lemma_line_so_far(src: Seq<u8>)
    ensures
        scan(src, start_state()) matches Ok((_, st)) ==> {
            &&& plausible(st)
            &&& st.line == 1 + newlines(src)
            &&& st.line <= src.len() + 1
            &&& st.column <= src.len() + 1
            &&& !st.in_comment ==> {
                let first = src.len() - (st.column - 1);
                &&& first == 0 || src[first - 1] as char == '\n'
                &&& forall|k: int| first <= k < src.len() ==> #[trigger] src[k] as char != '\n'
            }
        },
    decreases src.len(),
{
    scan_keeps_plausible(src, start_state());
    if src.len() > 0 {
        lemma_line_so_far(src.drop_last());
        if let Ok((_, before)) = scan(src.drop_last(), start_state()) {
            if let Ok((_, st)) = scan(src, start_state()) {
                if !st.in_comment {
                    let first = src.len() - (st.column - 1);
                    assert(first > 0 ==> src[first - 1] == if first == src.len() {
                        src.last()
                    } else {
                        src.drop_last()[first - 1]
                    });
                    assert forall|k: int| first <= k < src.len() implies #[trigger] src[k] as char
                        != '\n' by {
                        if k < src.len() - 1 {
                            assert(src[k] == src.drop_last()[k]);
                        }
                    }
                }
            }
        }
    }
}

/// A fault arises at one byte: the bytes before it are scanned without
/// error, and the step on that byte is refused.
proof fn lemma_fault_origin(src: Seq<u8>)
    requires
        scan(src, start_state()) is Err,
    ensures
        ({
            let f = scan(src, start_state())->Err_0;
            &&& 0 <= f.offset < src.len()
            &&& f.character == src[f.offset] as char
            &&& scan(src.take(f.offset), start_state()) matches Ok((_, st))
            &&& feed(st, f.character) is Rejected
            &&& f.position == place(st)
        }),
    decreases src.len(),
{
    let front = src.drop_last();
    if scan(front, start_state()) is Err {
        lemma_fault_origin(front);
        let f = scan(front, start_state())->Err_0;
        assert(front.take(f.offset) == src.take(f.offset));
    } else {
        assert(src.take(src.len() - 1) == front);
    }
}

/// A line runs from any of its bytes to its stop without a newline.
proof fn lemma_line_stop_run(src: Seq<u8>, from: int)
    requires
        0 <= from <= src.len(),
    ensures
        from <= line_stop(src, from) <= src.len(),
        forall|k: int| from <= k < line_stop(src, from) ==> #[trigger] src[k] as char != '\n',
    decreases src.len() - from,
{
    if from < src.len() && src[from] as char != '\n' {
        lemma_line_stop_run(src, from + 1);
    }
}

/// A lexical error names the true place of the refused character: its line
/// is one more than the newlines before it, and its column one more than
/// the bytes between it and the start of its line.
pub proof fn error_names_the_place(src: Seq<u8>)
    requires
        src.len() <= i32::MAX,
        lex(src) is Err,
    ensures
        ({
            let d = lex(src)->Err_0;
            let first = d.offset - (d.position.column - 1);
            &&& 0 <= d.offset < src.len()
            &&& d.character == src[d.offset] as char
            &&& Intrinsic::of_symbol(d.character) is None
            &&& !is_layout(d.character)
            &&& d.position.line == 1 + newlines(src.take(d.offset))
            &&& d.position.column >= 2
            &&& 0 <= first
            &&& first == 0 || src[first - 1] as char == '\n'
            &&& forall|k: int| first <= k < d.offset ==> #[trigger] src[k] as char != '\n'
        }),
{
    lemma_fault_origin(src);
    let f = scan(src, start_state())->Err_0;
    let front = src.take(f.offset);
    let st = scan(front, start_state())->Ok_0.1;
    lemma_line_so_far(front);
    assert(f.position.line == st.line && f.position.column == st.column);
    let first = f.offset - (st.column - 1);
    assert(first > 0 ==> front[first - 1] == src[first - 1]);
    assert forall|k: int| first <= k < f.offset implies #[trigger] src[k] as char != '\n' by {
        assert(src[k] == front[k]);
    }
}

/// The excerpt of a report shows the refused character in its line: the
/// caret points at that character, the excerpt holds at most
/// `CONTEXT_BEFORE` characters before it and `CONTEXT_AFTER` after it, and
/// it does not reach into another line.
pub proof fn excerpt_shows_the_line(src: Seq<u8>)
    requires
        src.len() <= i32::MAX,
        lex(src) is Err,
    ensures
        ({
            let d = lex(src)->Err_0;
            &&& 0 < d.caret <= CONTEXT_BEFORE
            &&& d.caret <= d.offset < src.len()
            &&& d.caret < d.snippet.len() <= d.caret + 1 + CONTEXT_AFTER
            &&& d.snippet[d.caret] == d.character
            &&& forall|k: int|
                0 <= k < d.snippet.len() ==> #[trigger] d.snippet[k] == src[d.offset - d.caret
                    + k] as char && d.snippet[k] != '\n'
        }),
{
    error_names_the_place(src);
    let d = lex(src)->Err_0;
    lemma_line_stop_run(src, d.offset + 1);
    let start = d.offset - d.caret;
    assert forall|k: int| 0 <= k < d.snippet.len() implies #[trigger] d.snippet[k] == src[start
        + k] as char && d.snippet[k] != '\n' by {
        assert(d.snippet[k] == src[start + k] as char);
    }
}

/// The places of the tokens found by a scan count lines and columns from 1.
proof fn lemma_places_from_one(src: Seq<u8>)
    requires
        src.len() <= i32::MAX,
    ensures
        scan(src, start_state()) matches Ok((tokens, _)) ==> forall|k: int|
            0 <= k < tokens.len() ==> (#[trigger] tokens[k]).position.line >= 1
                && tokens[k].position.column >= 1,
    decreases src.len(),
{
    if src.len() > 0 {
        lemma_places_from_one(src.drop_last());
        lemma_line_so_far(src.drop_last());
    }
}

/// Every token of a source carries a place with line and column at least 1.
pub proof fn places_count_from_one(src: Seq<u8>)
    requires
        src.len() <= i32::MAX,
    ensures
        lex(src) matches Ok(tokens) ==> forall|k: int|
            0 <= k < tokens.len() ==> (#[trigger] tokens[k]).position.line >= 1
                && tokens[k].position.column >= 1,
{
    lemma_places_from_one(src);
}

} // verus!
