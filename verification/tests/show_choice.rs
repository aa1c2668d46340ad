use jasshaus::card::{Card, Cardset};
use jasshaus::show_choice::{extract_show, get_player_pos};
use jasshaus::card::Show;

fn set_of(ids: &[u8]) -> Cardset {
    Cardset::new(ids.iter().map(|&i| Card::from_id(i)).collect())
}

#[test]
fn picked_cards_become_a_show() {
    let hand = set_of(&[9, 10, 11, 20, 5, 14, 23, 32]);
    assert_eq!(extract_show(&set_of(&[9, 10, 11]), &hand), Ok(Show::new(1, 0, 3)));
    assert_eq!(extract_show(&set_of(&[5, 14, 23, 32]), &hand), Ok(Show::new(0, 5, 1)));
}

#[test]
fn picked_cards_are_refused() {
    let hand = set_of(&[9, 10, 11, 12, 5, 14, 23]);
    assert_eq!(extract_show(&set_of(&[9, 10]), &hand), Err("Zu kurz!"));
    assert_eq!(extract_show(&set_of(&[9, 10, 12]), &hand), Err("Illegaler Weis!"));
    assert_eq!(extract_show(&set_of(&[5, 14, 23]), &hand), Err("Illegaler Weis!"));
    assert_eq!(extract_show(&set_of(&[9, 10, 11]), &hand), Err("Du kannst mehr weisen ;)"));
    // four equal cards that are not in the hand
    assert_eq!(extract_show(&set_of(&[4, 13, 22, 31]), &hand), Err("Illegaler Weis!"));
}

#[test]
fn seats_seen_from_a_player() {
    assert_eq!(get_player_pos(2, 2), 0);
    assert_eq!(get_player_pos(2, 3), 1);
    assert_eq!(get_player_pos(2, 0), 2);
    assert_eq!(get_player_pos(0, 3), 3);
}
