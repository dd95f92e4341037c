use toast::compiler::codegen::prompt::{PromptKind, PromptState};
use toast::repl::util::{BorrowedFilter, BorrowedFilterMap};
use toast::stream::{CharStream, PeekWhile};

#[test]
fn borrowed_filter_stops_at_the_first_failure() {
    let mut f = BorrowedFilter::new(CharStream::new("ab1 cd"), |c: char| c.is_alphabetic());
    assert_eq!(f.next(), Some('a'));
    assert_eq!(f.next(), Some('b'));
    assert_eq!(f.next(), None);
    assert_eq!(f.next(), None);
    assert_eq!(f.into_inner().remaining(), "1 cd");
}

#[test]
fn borrowed_filter_on_an_empty_stream() {
    let mut f = BorrowedFilter::new(CharStream::new(""), |_c: char| true);
    assert_eq!(f.next(), None);
}

#[test]
fn borrowed_filter_map_gives_images() {
    let mut f = BorrowedFilterMap::new(CharStream::new("12a"), |c: char| c.to_digit(10));
    assert_eq!(f.next(), Some(1));
    assert_eq!(f.next(), Some(2));
    assert_eq!(f.next(), None);
    assert_eq!(f.into_inner().remaining(), "a");
}

#[test]
fn peek_while_leaves_the_first_unmapped_item() {
    let mut p = PeekWhile::new(CharStream::new("  x "), |c: char| if c == ' ' { Some(()) } else { None });
    assert_eq!(p.next(), Some(()));
    assert_eq!(p.next(), Some(()));
    assert_eq!(p.next(), None);
    let rest = p.into_inner();
    assert_eq!(rest.index(), 2);
    assert_eq!(rest.remaining(), "x ");
}

#[test]
fn stream_basics() {
    let mut s = CharStream::new("a b");
    assert_eq!(s.peek(), Some('a'));
    assert_eq!(s.advance(), Some('a'));
    s.skip_whitespace();
    assert_eq!(s.index(), 2);
    assert_eq!(s.advance(), Some('b'));
    assert_eq!(s.advance(), None);
    assert_eq!(s.peek(), None);
    let t = CharStream::from_chars(vec!['x', 'y']);
    assert_eq!(t.remaining(), "xy");
}

#[test]
fn prompts_of_a_session() {
    let mut p = PromptState::new();
    assert_eq!(p.next_line(), PromptKind::New);
    assert_eq!(p.next_line(), PromptKind::Continue);
    assert_eq!(p.next_line(), PromptKind::Continue);
    p.expression_processed();
    assert_eq!(p.next_line(), PromptKind::New);
}

#[test]
fn collecting_a_borrowed_filter_takes_while_the_test_holds() {
    let mut f = BorrowedFilter::new(CharStream::new("ab1 cd"), |c: char| c.is_alphabetic());
    assert_eq!(f.collect(), vec!['a', 'b']);
    assert_eq!(f.collect(), Vec::<char>::new());
    assert_eq!(f.into_inner().remaining(), "1 cd");
}

#[test]
fn collecting_a_borrowed_filter_can_take_everything() {
    let mut f = BorrowedFilter::new(CharStream::new("abc"), |c: char| c.is_alphabetic());
    assert_eq!(f.collect(), vec!['a', 'b', 'c']);
    assert_eq!(f.into_inner().remaining(), "");
}
