use tokenize::{CharBool, InnerTokenizer, Pos, TErr, TokenRes};

#[derive(Clone, Debug, PartialEq)]
pub enum TKind {
    GreaterEqual,
    Ident(String),
    Num(String),
}

struct TestTok<'a> {
    tk: InnerTokenizer<'a>,
}

fn num_digit(c: char) -> bool {
    c >= '0' && c <= '9'
}

impl<'a> TestTok<'a> {
    pub fn new(s: &'a str) -> Self {
        TestTok {
            tk: InnerTokenizer::new(s),
        }
    }
    pub fn next(&mut self) -> TokenRes<'a, TKind> {
        self.tk.white_space();
        self.tk.start_token();
        match self.tk.peek_char() {
            Some(c) if num_digit(c) => self.tk.take_while(num_digit, |s| TKind::Num(s.to_string())),
            Some('>') => self.tk.follow('=', TKind::GreaterEqual),
            Some(c) if char::is_alphabetic(c) => self
                .tk
                .take_while(char::is_alphabetic, |s| TKind::Ident(s.to_string())),

            _ => self.tk.expected("A legal token".to_string()),
        }
    }
}

#[test]
fn test_thing_happens() {
    let s = "a >= 54";
    let mut tt = TestTok::new(s);
    assert_eq!(
        tt.next().unwrap().unwrap().value,
        TKind::Ident("a".to_string())
    );
    let nx = tt.next().unwrap().unwrap();
    assert_eq!(nx.value, TKind::GreaterEqual,);
    assert_eq!(nx.start, Pos::at(2, 1, 3));
    assert_eq!(nx.end, Pos::at(4, 1, 5));
    assert_eq!(
        tt.next().unwrap().unwrap().value,
        TKind::Num("54".to_string())
    );
}

#[test]
fn test_new_lines_positions() {
    let s = "hit\nbet dog";
    let mut tt = TestTok::new(s);
    //hit
    let nx = tt.next().unwrap().unwrap();
    assert_eq!(nx.start, Pos::at(0, 1, 1));
    assert_eq!(nx.end, Pos::at(3, 2, 0)); //newline starts at \n
    let nx = tt.next().unwrap().unwrap();
    assert_eq!(nx.start, Pos::at(4, 2, 1));
    assert_eq!(nx.end, Pos::at(7, 2, 4));
    let nx = tt.next().unwrap().unwrap();
    assert_eq!(nx.start, Pos::at(8, 2, 5));
    assert_eq!(nx.end, Pos::at(11, 2, 8));
}

#[test]
fn scenario_tokens_of_comparison() {
    let mut tt = TestTok::new("a >= 54");
    let a = tt.next().unwrap().unwrap();
    assert_eq!(a.s, "a");
    assert_eq!(a.start, Pos::at(0, 1, 1));
    assert_eq!(a.end, Pos::at(1, 1, 2));
    let ge = tt.next().unwrap().unwrap();
    assert_eq!(ge.s, ">=");
    let n = tt.next().unwrap().unwrap();
    assert_eq!(n.s, "54");
    assert_eq!(n.start, Pos::at(5, 1, 6));
    assert_eq!(n.end, Pos::at(7, 1, 8));
}

#[test]
fn scenario_texts_across_lines() {
    let mut tt = TestTok::new("hit\nbet dog");
    assert_eq!(tt.next().unwrap().unwrap().s, "hit");
    assert_eq!(tt.next().unwrap().unwrap().s, "bet");
    assert_eq!(tt.next().unwrap().unwrap().s, "dog");
}

#[test]
fn legal_token_expected_at_end() {
    let mut tt = TestTok::new("ab ");
    tt.next().unwrap().unwrap();
    let e = tt.next().unwrap_err();
    assert_eq!(e.exp, "A legal token");
    assert_eq!(e.got, None);
    assert_eq!(e.pos, Pos::at(3, 1, 4));
}

#[test]
fn follow_on_empty_input_reports_end() {
    let mut tk = InnerTokenizer::new("");
    let e: TErr = tk.follow('x', 0u8).unwrap_err();
    assert_eq!(e.got, None);
    assert_eq!(e.pos.i, 0);
    assert_eq!(e.pos, Pos::at(0, 1, 1));
    assert_eq!(e.exp, "Char 'x'");
}

#[test]
fn follow_mismatch_reports_failing_char() {
    let mut tk = InnerTokenizer::new(">x y");
    tk.start_token();
    let e = tk.follow('=', 1u8).unwrap_err();
    assert_eq!(e.exp, "Char '='");
    assert_eq!(e.got, Some('x'));
    assert_eq!(e.pos, Pos::at(1, 1, 2));
    assert_eq!(tk.peek(), Some((2, ' ')));
    let mut tk = InnerTokenizer::new("xy");
    let e = tk.follow('=', 1u8).unwrap_err();
    assert_eq!(e.got, Some('x'));
    assert_eq!(e.pos, Pos::at(0, 1, 1));
}

#[test]
fn follow_with_char_set() {
    let mut tk = InnerTokenizer::new("<=");
    tk.start_token();
    let t = tk.follow("=>", 'L').unwrap().unwrap();
    assert_eq!(t.s, "<=");
    assert_eq!(t.value, 'L');
    let mut tk = InnerTokenizer::new("<a");
    tk.start_token();
    let e = tk.follow("=>", 'L').unwrap_err();
    assert_eq!(e.exp, "One of '=>'");
    assert_eq!(e.got, Some('a'));
    assert_eq!(e.pos, Pos::at(1, 1, 2));
}

#[test]
fn predicate_descriptions() {
    assert_eq!('q'.expects(), "Char 'q'");
    assert_eq!("abc".expects(), "One of 'abc'");
    assert_eq!(num_digit.expects(), "A char passing the test");
    assert!("abc".cb('b'));
    assert!(!"abc".cb('d'));
    assert!('q'.cb('q'));
    assert!(!'q'.cb('r'));
    assert!(num_digit.cb('7'));
}

#[test]
fn follow_fn_maps_or_fails() {
    let pick = |c: char| match c {
        '>' => Ok(1u8),
        '=' => Ok(2u8),
        _ => Err("Arrow or double equals".to_string()),
    };
    let mut tk = InnerTokenizer::new("==x");
    tk.start_token();
    let t = tk.follow_fn(pick).unwrap().unwrap();
    assert_eq!(t.value, 2);
    assert_eq!(t.s, "==");
    assert_eq!(t.end, Pos::at(2, 1, 3));

    let mut tk = InnerTokenizer::new("=x");
    tk.start_token();
    let e = tk.follow_fn(pick).unwrap_err();
    assert_eq!(e.exp, "Arrow or double equals");
    assert_eq!(e.got, Some('x'));
    assert_eq!(e.pos, Pos::at(1, 1, 2));
    assert_eq!(tk.peek(), None);

    let mut tk = InnerTokenizer::new("x=");
    let e = tk.follow_fn(pick).unwrap_err();
    assert_eq!(e.got, Some('x'));
    assert_eq!(e.pos, Pos::at(0, 1, 1));

    let mut tk = InnerTokenizer::new("=");
    tk.start_token();
    let e = tk.follow_fn(pick).unwrap_err();
    assert_eq!(e.exp, "Not EOI");
    assert_eq!(e.got, None);
    assert_eq!(e.pos, Pos::at(1, 1, 2));
}

#[test]
fn follow_fn_or_takes_mapped_char() {
    let mut tk = InnerTokenizer::new(">=1");
    tk.start_token();
    let t = tk
        .follow_fn_or(|c| if c == '=' { Some("ge") } else { None }, "gt")
        .unwrap()
        .unwrap();
    assert_eq!(t.value, "ge");
    assert_eq!(t.s, ">=");
    assert_eq!(tk.peek_char(), Some('1'));
}

#[test]
fn follow_fn_or_leaves_unmapped_char() {
    let mut tk = InnerTokenizer::new(">1");
    tk.start_token();
    let t = tk
        .follow_fn_or(|c| if c == '=' { Some("ge") } else { None }, "gt")
        .unwrap()
        .unwrap();
    assert_eq!(t.value, "gt");
    assert_eq!(t.s, ">");
    assert_eq!(t.end, Pos::at(1, 1, 2));
    assert_eq!(tk.peek(), Some((1, '1')));
    let next = tk.take_while(num_digit, |s| s.to_string()).unwrap().unwrap();
    assert_eq!(next.s, "1");
    assert_eq!(next.start, Pos::at(1, 1, 2));
}

#[test]
fn follow_fn_or_never_mapping_matches_closing() {
    let mut a = InnerTokenizer::new("+-x");
    a.start_token();
    let ta = a.follow_fn_or(|_| None::<u8>, 9).unwrap().unwrap();
    let mut b = InnerTokenizer::new("+-x");
    b.start_token();
    let tb = b.token_res(9u8, true).unwrap().unwrap();
    assert_eq!(ta.s, tb.s);
    assert_eq!(ta.start, tb.start);
    assert_eq!(ta.end, tb.end);
    assert_eq!(ta.s, "+");
    assert_eq!(a.peek(), b.peek());
    assert_eq!(a.peek_pos(), b.peek_pos());
}

#[test]
fn follow_fn_or_at_end_gives_default() {
    let mut tk = InnerTokenizer::new("!");
    tk.start_token();
    let t = tk.follow_fn_or(|_| Some(1u8), 0).unwrap().unwrap();
    assert_eq!(t.value, 0);
    assert_eq!(t.s, "!");
    assert_eq!(t.end, Pos::at(1, 1, 2));
}

#[test]
fn peek_is_idempotent() {
    let mut tk = InnerTokenizer::new("xy");
    let a = tk.peek();
    let b = tk.peek();
    let c = tk.peek_char();
    let d = tk.peek_index();
    assert_eq!(a, Some((0, 'x')));
    assert_eq!(a, b);
    assert_eq!(c, Some('x'));
    assert_eq!(d, 0);
    assert_eq!(tk.next(), Some((0, 'x')));
    assert_eq!(tk.peek(), Some((1, 'y')));
    assert_eq!(tk.peek(), Some((1, 'y')));
}

#[test]
fn next_walks_source_then_stops() {
    let mut tk = InnerTokenizer::new("ab");
    assert_eq!(tk.next(), Some((0, 'a')));
    assert_eq!(tk.next(), Some((1, 'b')));
    assert_eq!(tk.next(), None);
    assert_eq!(tk.next(), None);
    assert_eq!(tk.peek(), None);
    assert_eq!(tk.peek_index(), 2);
}

#[test]
fn tokens_cover_the_source() {
    let src = "ab c\nd\u{e9}";
    let mut tk = InnerTokenizer::new(src);
    let mut joined = String::new();
    let sizes = [2usize, 1, 0, 3, 1];
    for n in sizes {
        for _ in 0..n {
            tk.next();
        }
        let t = tk.make_token(n);
        joined.push_str(t.s);
    }
    let rest = tk.take_while(|_: char| true, |s| s.len()).unwrap().unwrap();
    joined.push_str(rest.s);
    assert_eq!(joined, src);
}

#[test]
fn lines_and_columns_follow_newlines() {
    let mut tk = InnerTokenizer::new("a\n\nbc\nd");
    assert_eq!(tk.peek_pos(), Pos::at(0, 1, 1));
    tk.next();
    assert_eq!(tk.peek_pos(), Pos::at(1, 2, 0));
    tk.next();
    assert_eq!(tk.peek_pos(), Pos::at(2, 3, 0));
    tk.next();
    tk.next();
    assert_eq!(tk.peek_pos(), Pos::at(4, 3, 2));
    tk.next();
    tk.next();
    assert_eq!(tk.peek_pos(), Pos::at(6, 4, 1));
    tk.next();
    assert_eq!(tk.peek_pos(), Pos::at(7, 4, 2));
}

#[test]
fn take_while_matching_nothing() {
    let mut tk = InnerTokenizer::new("ab");
    tk.next();
    tk.start_token();
    let before = tk.peek_pos();
    let t = tk.take_while(num_digit, |s| s.len()).unwrap().unwrap();
    assert_eq!(t.s, "");
    assert_eq!(t.value, 0);
    assert_eq!(t.start, before);
    assert_eq!(t.end, before);
    assert_eq!(tk.peek(), Some((1, 'b')));
    assert_eq!(tk.peek_pos(), before);
}

#[test]
fn take_while_on_empty_input() {
    let mut tk = InnerTokenizer::new("");
    tk.start_token();
    let t = tk.take_while("abc", |s| s.to_string()).unwrap().unwrap();
    assert_eq!(t.s, "");
    assert_eq!(t.value, "");
    assert_eq!(t.start, Pos::at(0, 1, 1));
}

#[test]
fn take_while_passes_only_the_run() {
    let mut tk = InnerTokenizer::new("x123y");
    tk.start_token();
    tk.next();
    let t = tk.take_while(num_digit, |s| s.to_string()).unwrap().unwrap();
    assert_eq!(t.value, "123");
    assert_eq!(t.s, "x123");
    assert_eq!(tk.peek_char(), Some('y'));
}

#[test]
fn white_space_skips_unicode_spaces() {
    let mut tk = InnerTokenizer::new("\t \u{a0}\n x");
    tk.white_space();
    assert_eq!(tk.peek(), Some((6, 'x')));
    assert_eq!(tk.peek_pos(), Pos::at(6, 2, 2));
    tk.white_space();
    assert_eq!(tk.peek(), Some((6, 'x')));
    let mut tk = InnerTokenizer::new("x ");
    tk.white_space();
    assert_eq!(tk.peek_index(), 0);
}

#[test]
fn byte_offsets_count_utf8_widths() {
    let mut tk = InnerTokenizer::new("\u{e9}\u{20ac}\u{1f600}z");
    assert_eq!(tk.next(), Some((0, '\u{e9}')));
    assert_eq!(tk.next(), Some((2, '\u{20ac}')));
    assert_eq!(tk.next(), Some((5, '\u{1f600}')));
    assert_eq!(tk.peek_pos(), Pos::at(9, 1, 4));
    tk.next();
    assert_eq!(tk.peek_index(), 10);
    assert_eq!(tk.peek_pos(), Pos::at(10, 1, 5));
}

#[test]
fn token_res_with_and_without_unpeek() {
    let mut tk = InnerTokenizer::new("ab");
    tk.start_token();
    tk.peek();
    let t = tk.token_res('k', true).unwrap().unwrap();
    assert_eq!(t.s, "a");
    let mut tk = InnerTokenizer::new("ab");
    tk.start_token();
    tk.peek();
    let t = tk.token_res('k', false).unwrap().unwrap();
    assert_eq!(t.s, "");
    assert_eq!(t.start, Pos::at(0, 1, 1));
}

#[test]
fn unpeek_counts_the_dropped_char() {
    let mut tk = InnerTokenizer::new("\nq");
    tk.peek();
    tk.unpeek();
    assert_eq!(tk.peek_pos(), Pos::at(1, 2, 1));
    tk.unpeek();
    tk.unpeek();
    assert_eq!(tk.peek(), None);
    assert_eq!(tk.peek_pos(), Pos::at(2, 2, 2));
}

#[test]
fn positions_start_at_line_one() {
    assert_eq!(Pos::new(), Pos::at(0, 1, 0));
    let p = Pos::new().stepped('\n', 0);
    assert_eq!(p, Pos::at(0, 2, 0));
    let p = p.stepped('a', 1);
    assert_eq!(p, Pos::at(1, 2, 1));
    let mut q = p;
    q.step('b', 2);
    assert_eq!(q, Pos::at(2, 2, 2));
}

#[test]
fn error_message_names_expectation_and_place() {
    let mut tk = InnerTokenizer::new("ab\n\ncd>");
    for _ in 0..6 {
        tk.next();
    }
    let e = tk.follow('=', 0u8).unwrap_err();
    assert_eq!(e.message(), "Expected 'Char '=''  but got > at (3,3)");
    let mut tk = InnerTokenizer::new("?!");
    let e: TErr = tk.expected::<u8>("digit".to_string()).unwrap_err();
    assert_eq!(e.message(), "Expected 'digit'  but got ? at (1,1)");
}

#[test]
fn error_message_writes_large_numbers() {
    let e = TErr {
        pos: Pos::at(0, 1203, 90),
        exp: "x".to_string(),
        got: Some('y'),
    };
    assert_eq!(e.message(), "Expected 'x'  but got y at (1203,90)");
}

#[test]
fn error_message_at_end_of_input() {
    let mut tk = InnerTokenizer::new("ab\n");
    tk.next();
    tk.next();
    let e = tk.follow('=', 0u8).unwrap_err();
    assert_eq!(e.message(), "Expected 'Char '=''  but got \n at (2,0)");
    let e = tk.follow('=', 0u8).unwrap_err();
    assert_eq!(e.message(), "Expected 'Char '=''  but got EOI at (2,1)");
}

#[test]
fn token_offsets_match_token_text() {
    let src = "\u{e9}t\u{20ac} 12";
    let mut tk = InnerTokenizer::new(src);
    tk.start_token();
    let w = tk.take_while(|c: char| !c.is_whitespace(), |s| s.len()).unwrap().unwrap();
    assert_eq!(w.s, "\u{e9}t\u{20ac}");
    assert_eq!(w.value, 6);
    assert_eq!(&src[w.start.i..w.end.i], w.s);
    tk.white_space();
    tk.start_token();
    let n = tk.take_while(num_digit, |s| s.to_string()).unwrap().unwrap();
    assert_eq!(&src[n.start.i..n.end.i], n.s);
    assert_eq!(n.s, "12");
    assert_eq!(n.start, Pos::at(7, 1, 5));
}
