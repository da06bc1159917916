use dungen::pipe::{Changelist, GridChange};
use dungen::util::extmap::FakeService;
use dungen::util::TriState;

#[test]
fn changelist_keeps_order() {
    let a = GridChange { row: 0, col: 1, prev_value: TriState::False, new_value: TriState::True };
    let b = GridChange { row: 2, col: 3, prev_value: TriState::True, new_value: TriState::Invalid };
    let list = Changelist::from_changes(vec![a, b]);
    assert_eq!(list.data(), &vec![a, b]);
    let mut list = Changelist::new();
    list.add_change(b);
    list.add_change_from(0, 1, TriState::False, TriState::True);
    assert_eq!(list.data(), &vec![b, a]);
}

#[test]
fn fake_service_counts() {
    let mut s = FakeService::new();
    assert_eq!(s.get(), 1);
    assert_eq!(s.get(), 2);
}

#[test]
fn unicode_whitespace_splits_words() {
    let text: Vec<char> = "a\u{3000}b\u{85}c\u{2028}d e\u{00A0}f".chars().collect();
    let words = dungen::util::text::ws_words_exec(&text);
    assert_eq!(words.len(), 6);
    let trimmed = dungen::util::text::trim_exec(&"\u{2003} x \u{205F}".chars().collect::<Vec<char>>());
    assert_eq!(trimmed, vec!['x']);
}
