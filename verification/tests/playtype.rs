use jasshaus::card::{Card, Show};
use jasshaus::playtype::{Playtype, BELL, DOWNUP, NONE, ROSE, SHIELD, UPDOWN};

fn mode(playtype: u8, ruletype: u8) -> Playtype {
    Playtype { playtype, ruletype, misere: false, passed: false }
}

#[test]
fn playtype_default() {
    let p = Playtype::new();
    assert_eq!(p.playtype, NONE);
    assert_eq!(p.ruletype, NONE);
    assert!(!p.misere && !p.passed);
    assert!(!p.is_trumpf());
}

#[test]
fn trumpf_colors() {
    let p = mode(ROSE, ROSE);
    assert!(p.is_trumpf());
    assert_eq!(p.get_trumpf_color(), 2);
    assert!(p.is_color_trumpf(2));
    assert!(!p.is_color_trumpf(1));
    assert!(!mode(UPDOWN, UPDOWN).is_trumpf());
}

#[test]
fn card_strength() {
    let up = mode(UPDOWN, UPDOWN);
    assert!(up.is_card_stronger(Card::new(0, 3), Card::new(0, 8)));
    assert!(!up.is_card_stronger(Card::new(0, 3), Card::new(1, 8)));
    let down = mode(DOWNUP, DOWNUP);
    assert!(down.is_card_stronger(Card::new(0, 3), Card::new(0, 0)));
    let t = mode(SHIELD, SHIELD);
    // Jack of trump beats the Nine of trump, which beats the Ace of trump
    assert!(t.is_card_stronger(Card::new(0, 3), Card::new(0, 5)));
    assert!(t.is_card_stronger(Card::new(0, 8), Card::new(0, 3)));
    // Any trump beats a non-trump card, not the other way round
    assert!(t.is_card_stronger(Card::new(1, 8), Card::new(0, 0)));
    assert!(!t.is_card_stronger(Card::new(0, 0), Card::new(1, 8)));
    assert!(!mode(NONE, NONE).is_card_stronger(Card::new(0, 0), Card::new(0, 1)));
}

#[test]
fn card_values() {
    let up = mode(UPDOWN, UPDOWN);
    assert_eq!(up.get_card_value(Card::new(0, 8)), 11);
    assert_eq!(up.get_card_value(Card::new(0, 2)), 8);
    let down = mode(DOWNUP, DOWNUP);
    assert_eq!(down.get_card_value(Card::new(0, 0)), 11);
    assert_eq!(down.get_card_value(Card::new(0, 8)), 0);
    let t = mode(BELL, BELL);
    assert_eq!(t.get_card_value(Card::new(3, 5)), 20);
    assert_eq!(t.get_card_value(Card::new(3, 3)), 14);
    assert_eq!(t.get_card_value(Card::new(2, 5)), 2);
    assert_eq!(t.get_card_value(Card::new(2, 3)), 0);
    assert_eq!(mode(NONE, NONE).get_card_value(Card::new(0, 8)), 0);
}

#[test]
fn deck_is_worth_152_in_every_mode() {
    for p in 0..10u8 {
        let pt = mode(p, p);
        let sum: u16 = (0..36u8).map(|i| pt.get_card_value(Card::from_id(i))).sum();
        assert_eq!(sum, 152);
    }
}

#[test]
fn show_values_and_strength() {
    let pt = mode(SHIELD, SHIELD);
    assert_eq!(pt.get_show_value(Show::new(0, 3, 1)), 150);
    assert_eq!(pt.get_show_value(Show::new(0, 5, 1)), 200);
    assert_eq!(pt.get_show_value(Show::new(0, 8, 1)), 100);
    assert_eq!(pt.get_show_value(Show::new(0, 0, 3)), 20);
    assert_eq!(pt.get_show_value(Show::new(0, 0, 4)), 50);
    assert_eq!(pt.get_show_value(Show::new(0, 0, 5)), 100);
    assert_eq!(pt.get_show_value(Show::default()), 0);
    // more points win
    assert!(pt.is_show_stronger(Show::new(1, 0, 3), Show::new(1, 0, 4)));
    // a higher run wins among equal values
    assert!(pt.is_show_stronger(Show::new(1, 0, 3), Show::new(1, 4, 3)));
    // in down-up the lower run wins
    let down = mode(DOWNUP, DOWNUP);
    assert!(down.is_show_stronger(Show::new(1, 4, 3), Show::new(1, 0, 3)));
    // the trump colour wins among otherwise equal runs
    assert!(pt.is_show_stronger(Show::new(1, 2, 3), Show::new(0, 2, 3)));
    assert!(!pt.is_show_stronger(Show::new(0, 2, 3), Show::new(1, 2, 3)));
}
