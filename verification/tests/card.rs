use jasshaus::card::{Card, Cardset, Show, ShowError};

fn set_of(ids: &[u8]) -> Cardset {
    Cardset::new(ids.iter().map(|&i| Card::from_id(i)).collect())
}

#[test]
fn card_ids_round_trip() {
    for i in 0..36u8 {
        let c = Card::from_id(i);
        assert_eq!(c.color, i / 9);
        assert_eq!(c.number, i % 9);
        assert_eq!(c.get_id(), i);
    }
    assert_eq!(Card::new(3, 8).get_id(), 35);
    assert_eq!(Card::default(), Card::new(4, 2));
}

#[test]
fn cardset_insert_erase_toggle() {
    let mut s = Cardset::default();
    assert!(!s.contains(Card::new(1, 2)));
    s.insert(Card::new(1, 2));
    assert!(s.contains(Card::new(1, 2)));
    assert!(!s.contains(Card::new(2, 1)));
    s.toggle(Card::new(2, 1));
    assert!(s.contains(Card::new(2, 1)));
    s.toggle(Card::new(2, 1));
    assert!(!s.contains(Card::new(2, 1)));
    s.erase(Card::new(1, 2));
    assert!(!s.contains(Card::new(1, 2)));
    assert_eq!(s, Cardset::default());
    s.insert(Card::new(0, 0));
    s.clear();
    assert_eq!(s, Cardset::default());
}

#[test]
fn cardset_colors() {
    let s = set_of(&[9, 12, 17]);
    assert!(s.has_color(1));
    assert!(!s.has_color(0));
    assert!(!s.has_color(2));
    assert!(s.only_has_color(1));
    assert!(!s.only_has_color(0));
    assert_eq!(s.count_color(1), 3);
    assert_eq!(s.count_color(3), 0);
    let t = set_of(&[9, 30]);
    assert!(!t.only_has_color(1));
    assert_eq!(t.count_color(3), 1);
}

#[test]
fn cardset_as_bytes() {
    let s = set_of(&[0, 8, 35]);
    // bits 0, 8 and 35: bytes from the most significant one
    assert_eq!(s.as_bytes(), [0x08, 0x00, 0x00, 0x01, 0x01]);
    assert_eq!(Cardset::default().as_bytes(), [0; 5]);
}

#[test]
fn cardset_as_vec_and_new() {
    let s = set_of(&[20, 3, 35, 0]);
    let v = s.as_vec();
    let ids: Vec<u8> = v.iter().map(|c| c.get_id()).collect();
    assert_eq!(ids, vec![0, 3, 20, 35]);
    assert_eq!(Cardset::new(v), s);
    assert_eq!(Cardset::from_bits(s.to_bits()), s);
}

#[test]
fn cardset_stronger_trumpf() {
    // Hand holds the Nine (3) of colour 2.
    let s = set_of(&[2 * 9 + 3]);
    assert!(s.has_stronger_trumpf(Card::new(2, 8))); // Nine beats the Ace
    assert!(!s.has_stronger_trumpf(Card::new(2, 5))); // nothing beats the Jack
    assert!(!s.has_stronger_trumpf(Card::new(1, 0))); // other colour
    let j = set_of(&[2 * 9 + 5]);
    assert!(j.has_stronger_trumpf(Card::new(2, 3))); // Jack beats the Nine
    assert!(!j.has_stronger_trumpf(Card::new(2, 9)));
}

#[test]
fn cardset_has_show() {
    // Four Jacks
    let four = set_of(&[5, 14, 23, 32]);
    assert_eq!(four.has_show(Show::new(0, 5, 1)), Ok(()));
    assert_eq!(four.has_show(Show::new(0, 4, 1)), Err(ShowError::DoesNotContain));
    // A run of three: 6, 7, 8 of colour 1
    let run = set_of(&[9, 10, 11]);
    assert_eq!(run.has_show(Show::new(1, 0, 3)), Ok(()));
    assert_eq!(run.has_show(Show::new(1, 1, 3)), Err(ShowError::DoesNotContain));
    // A run of four shown as three is refused as a subset, both ways
    let run4 = set_of(&[9, 10, 11, 12]);
    assert_eq!(run4.has_show(Show::new(1, 0, 3)), Err(ShowError::IsSubset));
    assert_eq!(run4.has_show(Show::new(1, 1, 3)), Err(ShowError::IsSubset));
    assert_eq!(run4.has_show(Show::new(1, 0, 4)), Ok(()));
    // Illegal rows
    assert_eq!(run4.has_show(Show::new(1, 0, 2)), Err(ShowError::Illegal));
    assert_eq!(run4.has_show(Show::new(1, 0, 0)), Err(ShowError::Illegal));
    assert_eq!(run4.has_show(Show::new(1, 7, 3)), Err(ShowError::Illegal));
    // A run ending at the Ace
    let top = set_of(&[33, 34, 35]);
    assert_eq!(top.has_show(Show::new(3, 6, 3)), Ok(()));
}

#[test]
fn show_as_cards() {
    let four = Show::new(0, 5, 1).as_cards();
    assert_eq!(four, vec![Card::new(0, 5), Card::new(1, 5), Card::new(2, 5), Card::new(3, 5)]);
    let run = Show::new(2, 3, 3).as_cards();
    assert_eq!(run, vec![Card::new(2, 3), Card::new(2, 4), Card::new(2, 5)]);
    assert!(Show::default().as_cards().is_empty());
    assert_eq!(Show::default(), Show::new(4, 2, 0));
}
