use jobshell::readline::keymap::{At, CharSearch, Movement, Word};
use jobshell::readline::line_buffer::{
    is_end_of_word, is_other_char, is_start_of_word, is_vi_word_char, is_word_char, utf8_len, LineBuffer,
    WordAction, MAX_LINE,
};

#[test]
fn cursor_moves_by_grapheme_clusters() {
    let s = LineBuffer::init("\u{f6}\u{332}g\u{308}", 0);
    assert_eq!(s.len(), 7);
    assert_eq!(s.next_pos(1), Some(4));
    assert_eq!(s.next_pos(2), Some(7));
    assert_eq!(s.next_pos(9), Some(7));
    assert_eq!(s.next_pos(0), None);
    assert_eq!(s.grapheme_at_cursor(), Some("\u{f6}\u{332}"));
    let t = LineBuffer::init("\u{f6}\u{332}g\u{308}", 4);
    assert_eq!(t.prev_pos(1), Some(0));
    assert_eq!(t.next_pos(1), Some(7));
    let u = LineBuffer::init("ab", 2);
    assert_eq!(u.next_pos(1), None);
    assert_eq!(u.grapheme_at_cursor(), None);
    assert_eq!(u.prev_pos(1), Some(1));
    assert_eq!(u.prev_pos(5), Some(0));
    assert_eq!(LineBuffer::init("ab", 0).prev_pos(1), None);
}

#[test]
fn a_new_buffer_is_empty() {
    let s = LineBuffer::with_capacity(MAX_LINE);
    assert!(s.is_empty());
    assert_eq!(s.len(), 0);
    assert_eq!(s.pos(), 0);
    assert_eq!(s.as_str(), "");
    assert_eq!(MAX_LINE, 4096);
    assert_eq!(utf8_len('a'), 1);
    assert_eq!(utf8_len('ß'), 2);
    assert_eq!(utf8_len('日'), 3);
    assert_eq!(utf8_len('🦀'), 4);
}

#[test]
fn insert_puts_characters_at_the_cursor() {
    let mut s = LineBuffer::with_capacity(MAX_LINE);
    assert_eq!(s.insert('α', 1), Some(true));
    assert_eq!(s.as_str(), "α");
    assert_eq!(s.pos(), 2);
    assert_eq!(s.insert('ß', 1), Some(true));
    assert_eq!(s.as_str(), "αß");
    assert_eq!(s.pos(), 4);
    s.set_pos(0);
    assert_eq!(s.insert('γ', 1), Some(false));
    assert_eq!(s.as_str(), "γαß");
    assert_eq!(s.pos(), 2);
    assert_eq!(s.insert('x', 3), Some(false));
    assert_eq!(s.as_str(), "γxxxαß");
    assert_eq!(s.pos(), 5);
}

#[test]
fn insert_and_yank_respect_the_capacity() {
    let mut s = LineBuffer::with_capacity(3);
    assert_eq!(s.insert('α', 2), None);
    assert_eq!(s.as_str(), "");
    assert_eq!(s.insert('a', 3), Some(true));
    assert_eq!(s.insert('b', 1), None);
    assert_eq!(s.yank("c", 1), None);
    assert_eq!(s.into_string(), "aaa");
    let mut t = LineBuffer::with_capacity(4);
    assert_eq!(t.yank("ab", 3), None);
    assert_eq!(t.yank("ab", 2), Some(true));
    assert_eq!(t.yank("", 1), None);
}

#[test]
fn yank_puts_text_at_the_cursor() {
    let mut s = LineBuffer::init("αß", 2);
    assert_eq!(s.yank("γδε", 1), Some(false));
    assert_eq!(s.as_str(), "αγδεß");
    assert_eq!(s.pos(), 8);
    let mut t = LineBuffer::init("αß", 4);
    assert_eq!(t.yank("ab", 2), Some(true));
    assert_eq!(t.as_str(), "αßabab");
    assert_eq!(t.pos(), 8);
    let mut u = LineBuffer::init("abXYcd", 4);
    assert_eq!(u.yank_pop(2, "Z12"), Some(false));
    assert_eq!(u.as_str(), "abZ12cd");
    assert_eq!(u.pos(), 5);
}

#[test]
fn moves_to_the_ends() {
    let mut s = LineBuffer::init("αß", 4);
    assert!(s.move_backward(1));
    assert_eq!(s.pos(), 2);
    assert!(s.move_forward(1));
    assert_eq!(s.pos(), 4);
    assert!(!s.move_forward(1));
    assert!(s.move_home());
    assert_eq!(s.pos(), 0);
    assert!(!s.move_home());
    assert!(!s.move_backward(1));
    assert!(s.move_end());
    assert_eq!(s.pos(), 4);
    assert!(!s.move_end());
    let mut t = LineBuffer::init("ag\u{308}", 4);
    assert!(t.move_backward(1));
    assert_eq!(t.pos(), 1);
    assert!(t.move_forward(1));
    assert_eq!(t.pos(), 4);
}

#[test]
fn delete_and_backspace_take_out_clusters() {
    let mut s = LineBuffer::init("αß", 2);
    assert_eq!(s.delete(1), Some("ß".to_string()));
    assert_eq!(s.as_str(), "α");
    assert_eq!(s.pos(), 2);
    assert_eq!(s.delete(1), None);
    assert_eq!(s.backspace(1), Some("α".to_string()));
    assert_eq!(s.as_str(), "");
    assert_eq!(s.pos(), 0);
    assert_eq!(s.backspace(1), None);
    let mut t = LineBuffer::init("abcdef", 3);
    assert_eq!(t.delete(2), Some("de".to_string()));
    assert_eq!(t.backspace(2), Some("bc".to_string()));
    assert_eq!(t.as_str(), "af");
    assert_eq!(t.pos(), 1);
}

#[test]
fn kill_and_discard_take_out_the_rest_of_the_line() {
    let mut s = LineBuffer::init("αßγδε", 6);
    assert_eq!(s.kill_line(), Some("δε".to_string()));
    assert_eq!(s.as_str(), "αßγ");
    assert_eq!(s.pos(), 6);
    assert_eq!(s.kill_line(), None);
    s.set_pos(4);
    assert_eq!(s.discard_line(), Some("αß".to_string()));
    assert_eq!(s.as_str(), "γ");
    assert_eq!(s.pos(), 0);
    assert_eq!(s.discard_line(), None);
}

#[test]
fn transpose_chars_exchanges_two_clusters() {
    let mut s = LineBuffer::init("aßc", 1);
    assert!(s.transpose_chars());
    assert_eq!(s.as_str(), "ßac");
    assert_eq!(s.pos(), 3);
    let mut t = LineBuffer::init("aßc", 3);
    assert!(t.transpose_chars());
    assert_eq!(t.as_str(), "acß");
    assert_eq!(t.pos(), 4);
    let mut u = LineBuffer::init("aßc", 4);
    assert!(u.transpose_chars());
    assert_eq!(u.as_str(), "acß");
    assert_eq!(u.pos(), 4);
    let mut v = LineBuffer::init("aßc", 0);
    assert!(!v.transpose_chars());
    let mut w = LineBuffer::init("a", 1);
    assert!(!w.transpose_chars());
    assert_eq!(w.as_str(), "a");
}

#[test]
fn moves_and_deletes_by_words() {
    let mut s = LineBuffer::init("a ß  c", 6);
    assert!(s.move_to_prev_word(Word::Emacs, 1));
    assert_eq!(s.pos(), 2);
    assert_eq!(s.prev_word_pos(2, Word::Emacs, 1), Some(0));
    assert_eq!(s.prev_word_pos(0, Word::Emacs, 1), None);
    assert_eq!(s.prev_word_pos(6, Word::Emacs, 2), Some(2));
    assert_eq!(LineBuffer::init("ab cd ef", 8).prev_word_pos(8, Word::Emacs, 2), Some(3));
    assert_eq!(LineBuffer::init("ab  cd  ef", 10).prev_word_pos(10, Word::Emacs, 2), Some(4));
    assert_eq!(LineBuffer::init("ab  cd  ef", 10).prev_word_pos(10, Word::Emacs, 3), Some(4));
    assert_eq!(s.prev_word_pos(6, Word::Emacs, 0), Some(0));
    let mut t = LineBuffer::init("a ß  c", 6);
    assert_eq!(t.delete_prev_word(Word::Emacs, 1), Some("ß  ".to_string()));
    assert_eq!(t.as_str(), "a c");
    assert_eq!(t.pos(), 2);
    let mut u = LineBuffer::init("a ß  c", 1);
    assert!(u.move_to_next_word(At::AfterEnd, Word::Emacs, 1));
    assert_eq!(u.pos(), 4);
    assert!(u.move_to_next_word(At::AfterEnd, Word::Emacs, 1));
    assert_eq!(u.pos(), 7);
    assert!(!u.move_to_next_word(At::AfterEnd, Word::Emacs, 1));
    let mut v = LineBuffer::init("a ß  c", 2);
    assert!(v.move_to_next_word(At::Start, Word::Emacs, 1));
    assert_eq!(v.pos(), 6);
    assert_eq!(v.next_word_pos(2, At::BeforeEnd, Word::Vi, 1), Some(6));
    let mut w = LineBuffer::init("a ß  c", 1);
    assert_eq!(w.delete_word(At::AfterEnd, Word::Emacs, 1), Some(" ß".to_string()));
    assert_eq!(w.as_str(), "a  c");
    assert_eq!(w.pos(), 1);
    let x = LineBuffer::init("foo.bar baz", 0);
    assert_eq!(x.next_word_pos(0, At::Start, Word::Vi, 1), Some(3));
    assert_eq!(x.next_word_pos(0, At::Start, Word::Big, 1), Some(8));
    assert_eq!(x.next_word_pos(0, At::BeforeEnd, Word::Vi, 1), Some(2));
    assert_eq!(x.next_word_pos(0, At::AfterEnd, Word::Vi, 2), Some(7));
    assert_eq!(x.next_word_pos(11, At::Start, Word::Vi, 1), None);
}

#[test]
fn searches_for_characters() {
    let mut s = LineBuffer::init("hello world", 5);
    assert_eq!(s.search_char_pos(&CharSearch::Forward('r'), 1), Some(8));
    assert_eq!(s.search_char_pos(&CharSearch::ForwardBefore('r'), 1), Some(7));
    assert_eq!(s.search_char_pos(&CharSearch::Forward('o'), 1), Some(7));
    assert_eq!(s.search_char_pos(&CharSearch::Forward('l'), 5), Some(9));
    assert_eq!(s.search_char_pos(&CharSearch::Forward('z'), 1), None);
    assert_eq!(s.search_char_pos(&CharSearch::Forward(' '), 1), None);
    assert_eq!(s.search_char_pos(&CharSearch::Backward('l'), 1), Some(3));
    assert_eq!(s.search_char_pos(&CharSearch::Backward('l'), 2), Some(2));
    assert_eq!(s.search_char_pos(&CharSearch::Backward('l'), 9), Some(2));
    assert_eq!(s.search_char_pos(&CharSearch::BackwardAfter('e'), 1), Some(2));
    assert_eq!(s.search_char_pos(&CharSearch::Backward('w'), 1), None);
    assert_eq!(s.search_char_pos(&CharSearch::Backward('l'), 0), None);
    assert!(s.move_to(CharSearch::Forward('w'), 1));
    assert_eq!(s.pos(), 6);
    assert!(!s.move_to(CharSearch::Forward('w'), 1));
    assert_eq!(s.delete_to(CharSearch::Forward('l'), 1), Some("worl".to_string()));
    assert_eq!(s.as_str(), "hello d");
    assert_eq!(s.delete_to(CharSearch::Backward('e'), 1), Some("ello ".to_string()));
    assert_eq!(s.as_str(), "hd");
    assert_eq!(s.pos(), 1);
    let mut t = LineBuffer::init("hello world", 0);
    assert_eq!(t.delete_to(CharSearch::ForwardBefore('o'), 2), Some("hello w".to_string()));
    assert_eq!(t.as_str(), "orld");
    assert_eq!(t.delete_to(CharSearch::Forward('x'), 1), None);
}

#[test]
fn edit_word_changes_the_letters_of_the_next_word() {
    let mut s = LineBuffer::init("a ßeta  c", 1);
    assert!(s.edit_word(WordAction::UPPERCASE));
    assert_eq!(s.as_str(), "a SSETA  c");
    assert_eq!(s.pos(), 7);
    let mut t = LineBuffer::init("a ßETA  c", 1);
    assert!(t.edit_word(WordAction::LOWERCASE));
    assert_eq!(t.as_str(), "a ßeta  c");
    assert_eq!(t.pos(), 7);
    let mut u = LineBuffer::init("a ßeta  c", 1);
    assert!(u.edit_word(WordAction::CAPITALIZE));
    assert_eq!(u.as_str(), "a SSeta  c");
    assert_eq!(u.pos(), 7);
    let mut v = LineBuffer::init("a  ", 1);
    assert!(!v.edit_word(WordAction::UPPERCASE));
    assert_eq!(v.as_str(), "a  ");
    assert_eq!(LineBuffer::init("  a1 b", 0).skip_whitespace(), Some(2));
    assert_eq!(LineBuffer::init("  ", 0).skip_whitespace(), None);
    assert_eq!(LineBuffer::init("ab", 2).skip_whitespace(), None);
}

#[test]
fn transpose_words_exchanges_two_words() {
    let mut s = LineBuffer::init("hello world", 11);
    assert!(s.transpose_words(1));
    assert_eq!(s.as_str(), "world hello");
    assert_eq!(s.pos(), 11);
    let mut t = LineBuffer::init("one two three", 5);
    assert!(t.transpose_words(1));
    assert_eq!(t.as_str(), "two one three");
    assert_eq!(t.pos(), 7);
    let mut u = LineBuffer::init("alone", 5);
    assert!(!u.transpose_words(1));
    assert_eq!(u.as_str(), "alone");
}

#[test]
fn replace_update_and_backup() {
    let mut s = LineBuffer::init("abcd", 2);
    s.replace(1..3, "XYZ");
    assert_eq!(s.as_str(), "aXYZd");
    assert_eq!(s.pos(), 4);
    assert!(!s.insert_str(1, "--"));
    assert_eq!(s.as_str(), "a--XYZd");
    assert_eq!(s.pos(), 4);
    assert!(s.insert_str(7, "!"));
    let mut t = LineBuffer::with_capacity(5);
    t.update("abcdefgh", 8);
    assert_eq!(t.as_str(), "abcde");
    assert_eq!(t.pos(), 5);
    t.update("αβγ", 2);
    assert_eq!(t.as_str(), "αβ");
    assert_eq!(t.pos(), 2);
    t.update("xy", 1);
    assert_eq!(t.as_str(), "xy");
    assert_eq!(t.pos(), 1);
    let mut copy = LineBuffer::with_capacity(MAX_LINE);
    copy.backup(&s);
    assert_eq!(copy.as_str(), "a--XYZd!");
    assert_eq!(copy.pos(), s.pos());
}

#[test]
fn copy_returns_what_a_movement_passes_over() {
    let s = LineBuffer::init("hello world", 5);
    let text = |m: Movement| s.copy(m);
    assert_eq!(text(Movement::WholeLine), Some("hello world".to_string()));
    assert_eq!(text(Movement::BeginningOfLine), Some("hello".to_string()));
    assert_eq!(text(Movement::EndOfLine), Some(" world".to_string()));
    assert_eq!(text(Movement::ForwardChar(1)), Some(" ".to_string()));
    assert_eq!(text(Movement::BackwardChar(2)), Some("lo".to_string()));
    assert_eq!(text(Movement::BackwardWord(1, Word::Emacs)), Some("hello".to_string()));
    assert_eq!(text(Movement::ForwardWord(1, At::AfterEnd, Word::Emacs)), Some(" world".to_string()));
    assert_eq!(text(Movement::ViCharSearch(1, CharSearch::Forward('r'))), Some(" wor".to_string()));
    assert_eq!(text(Movement::ViCharSearch(1, CharSearch::ForwardBefore('r'))), Some(" wo".to_string()));
    assert_eq!(text(Movement::ViCharSearch(1, CharSearch::Backward('e'))), Some("ello".to_string()));
    assert_eq!(text(Movement::ViCharSearch(1, CharSearch::BackwardAfter('e'))), Some("llo".to_string()));
    assert_eq!(text(Movement::ViCharSearch(1, CharSearch::Forward('z'))), None);
    assert_eq!(LineBuffer::init("  abc", 5).copy(Movement::ViFirstPrint), Some("abc".to_string()));
    assert_eq!(LineBuffer::init("  abc", 1).copy(Movement::ViFirstPrint), None);
    assert_eq!(LineBuffer::init("abc", 0).copy(Movement::BeginningOfLine), None);
    assert_eq!(LineBuffer::init("abc", 3).copy(Movement::EndOfLine), None);
    assert_eq!(LineBuffer::init("", 0).copy(Movement::WholeLine), None);
}

#[test]
fn word_characters() {
    assert!(is_word_char(Word::Emacs, "a"));
    assert!(!is_word_char(Word::Emacs, "_"));
    assert!(is_word_char(Word::Vi, "_"));
    assert!(is_word_char(Word::Big, "."));
    assert!(!is_word_char(Word::Big, " "));
    assert!(is_vi_word_char("é"));
    assert!(!is_vi_word_char("."));
    assert!(is_other_char("."));
    assert!(!is_other_char(" "));
    assert!(!is_other_char("a"));
    assert!(is_start_of_word(Word::Emacs, " ", "a"));
    assert!(!is_start_of_word(Word::Emacs, "a", "b"));
    assert!(is_start_of_word(Word::Vi, "a", "."));
    assert!(!is_start_of_word(Word::Emacs, "a", "."));
    assert!(is_end_of_word(Word::Emacs, "a", " "));
    assert!(is_end_of_word(Word::Vi, ".", "a"));
    assert!(!is_end_of_word(Word::Big, ".", "a"));
}
