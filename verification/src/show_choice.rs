//! Turning the cards a player picked into a show, and the seat of a player as seen
//! from another.
use vstd::prelude::*;

use crate::card::{cards_below, show_check, Card, Cardset, Show, ShowError};

verus! {

/// Whether the picked cards, in increasing order, form a run of one colour.
pub open spec fn is_run(cards: Seq<Card>) -> bool {
    forall|i: int|
        0 <= i < cards.len() - 1 ==> #[trigger] cards[i].color == cards[i + 1].color && cards[i].number
            + 1 == cards[i + 1].number
}

/// Whether four picked cards, in increasing order, are one number in four colours.
pub open spec fn is_four_equal(cards: Seq<Card>) -> bool {
    forall|i: int|
        0 <= i < 3 ==> #[trigger] cards[i].color != cards[i + 1].color && cards[i].number
            == cards[i + 1].number
}

/// The show that the picked cards describe, if they describe one.
pub open spec fn picked_show(cards: Seq<Card>) -> Option<Show> {
    if cards.len() < 3 {
        None
    } else if cards[0].color == cards[1].color {
        if is_run(cards) {
            Some(Show { color: cards[0].color, number: cards[0].number, row: cards.len() as u8 })
        } else {
            None
        }
    } else if cards.len() == 4 && is_four_equal(cards) {
        Some(Show { color: cards[0].color, number: cards[0].number, row: 1 })
    } else {
        None
    }
}

/// What the player is told about the picked cards: the show, or why it is refused.
pub open spec fn extract_show_spec(toshow: Set<int>, hand: Set<int>) -> Result<Show, &'static str> {
    let cards = cards_below(toshow, 36);
    if cards.len() < 3 {
        Err("Zu kurz!")
    } else {
        match picked_show(cards) {
            None => Err("Illegaler Weis!"),
            Some(s) => match show_check(hand, s) {
                Ok(_) => Ok(s),
                Err(ShowError::IsSubset) => Err("Du kannst mehr weisen ;)"),
                Err(_) => Err("Illegaler Weis!"),
            },
        }
    }
}

/// The cards of the deck in a set have colour below 4 and number below 9.
proof fn lemma_cards_below_valid(s: Set<int>, n: int)
    requires
        0 <= n <= 36,
    ensures
        cards_below(s, n).len() <= n,
        forall|k: int|
            0 <= k < cards_below(s, n).len() ==> (#[trigger] cards_below(s, n)[k]).color < 4
                && cards_below(s, n)[k].number < 9,
    decreases n,
{
    if n > 0 {
        lemma_cards_below_valid(s, n - 1);
    }
}

/// The show that the picked cards `toshow` form, checked against the hand; the
/// message to the player when they form none the hand may make.
pub fn extract_show(toshow: &Cardset, hand: &Cardset) -> (r: Result<Show, &'static str>)
    ensures
        r == extract_show_spec(toshow@, hand@),
{
    let cards = toshow.as_vec();
    proof {
        lemma_cards_below_valid(toshow@, 36);
    }
    if cards.len() < 3 {
        return Err("Zu kurz!");
    }
    // The player wants to make a run
    let res: Option<Show> = if cards[0].color == cards[1].color {
        let mut i: usize = 0;
        let mut ok = true;
        while i < cards.len() - 1
            invariant
                cards.len() >= 3,
                cards.len() <= 36,
                i <= cards.len() - 1,
                forall|k: int| 0 <= k < cards@.len() ==> (#[trigger] cards@[k]).number < 9,
                ok ==> forall|k: int|
                    0 <= k < i ==> #[trigger] cards@[k].color == cards@[k + 1].color
                        && cards@[k].number + 1 == cards@[k + 1].number,
                !ok ==> exists|k: int|
                    0 <= k < i && !(#[trigger] cards@[k].color == cards@[k + 1].color
                        && cards@[k].number + 1 == cards@[k + 1].number),
            decreases cards.len() - 1 - i,
        {
            let ghost ii = i as int;
            let ghost was = ok;
            if cards[i].color != cards[i + 1].color || cards[i].number + 1 != cards[i + 1].number {
                ok = false;
                assert(!(cards@[ii].color == cards@[ii + 1].color && cards@[ii].number + 1
                    == cards@[ii + 1].number));
            } else {
                proof {
                    if !was {
                        let w = choose|k: int|
                            0 <= k < i && !(#[trigger] cards@[k].color == cards@[k + 1].color
                                && cards@[k].number + 1 == cards@[k + 1].number);
                        assert(0 <= w < i + 1);
                    }
                }
            }
            i += 1;
        }
        assert(ok == is_run(cards@));
        if ok {
            Some(Show::new(cards[0].color, cards[0].number, cards.len() as u8))
        } else {
            None
        }
    } else if cards.len() != 4 {
        None
    } else {
        let mut ok = true;
        let mut i: usize = 0;
        while i < 3
            invariant
                cards.len() == 4,
                i <= 3,
                ok ==> forall|k: int|
                    0 <= k < i ==> #[trigger] cards@[k].color != cards@[k + 1].color
                        && cards@[k].number == cards@[k + 1].number,
                !ok ==> exists|k: int|
                    0 <= k < i && !(#[trigger] cards@[k].color != cards@[k + 1].color
                        && cards@[k].number == cards@[k + 1].number),
            decreases 3 - i,
        {
            let ghost ii = i as int;
            let ghost was = ok;
            if cards[i].color == cards[i + 1].color || cards[i].number != cards[i + 1].number {
                ok = false;
                assert(!(cards@[ii].color != cards@[ii + 1].color && cards@[ii].number
                    == cards@[ii + 1].number));
            } else {
                proof {
                    if !was {
                        let w = choose|k: int|
                            0 <= k < i && !(#[trigger] cards@[k].color != cards@[k + 1].color
                                && cards@[k].number == cards@[k + 1].number);
                        assert(0 <= w < i + 1);
                    }
                }
            }
            i += 1;
        }
        assert(ok == is_four_equal(cards@));
        if ok {
            Some(Show::new(cards[0].color, cards[0].number, 1))
        } else {
            None
        }
    };
    assert(res == picked_show(cards@));
    match res {
        None => Err("Illegaler Weis!"),
        Some(s) => {
            match hand.has_show(s) {
                Ok(_) => Ok(s),
                Err(e) => match e {
                    ShowError::IsSubset => Err("Du kannst mehr weisen ;)"),
                    _ => Err("Illegaler Weis!"),
                },
            }
        },
    }
}

proof fn lemma_run_cards(cards: Seq<Card>, i: int)
    requires
        is_run(cards),
        0 <= i < cards.len(),
    ensures
        cards[i].color == cards[0].color && cards[i].number == cards[0].number + i,
    decreases i,
{
    if i > 0 {
        lemma_run_cards(cards, i - 1);
        assert(cards[i - 1].color == cards[i].color && cards[i - 1].number + 1 == cards[i].number);
    }
}

/// The card `i` places after `first` in the colour of `first`.
pub open spec fn run_card(first: Card, i: int) -> Card {
    Card { color: first.color, number: (first.number + i) as u8 }
}

/// The first card of a show.
pub open spec fn show_start(s: Show) -> Card {
    Card { color: s.color, number: s.number }
}

/// Three or more picked cards form a run exactly when they are consecutive cards of one
/// colour; the run is then the show of that colour from the lowest card, as long as
/// the cards picked.
pub proof fn law_picked_run(cards: Seq<Card>)
    requires
        3 <= cards.len(),
        cards[0].number + cards.len() <= 255,
    ensures
        (forall|i: int| 0 <= i < cards.len() ==> #[trigger] cards[i] == run_card(cards[0], i)) ==> picked_show(cards) == Some(
            (Show { color: cards[0].color, number: cards[0].number, row: cards.len() as u8 }),
        ),
        (picked_show(cards) is Some) && picked_show(cards).unwrap().row != 1 ==> picked_show(
            cards,
        ).unwrap().row == cards.len() && forall|i: int|
            0 <= i < cards.len() ==> #[trigger] cards[i] == run_card(
                show_start(picked_show(cards).unwrap()),
                i,
            ),
{
    if forall|i: int| 0 <= i < cards.len() ==> #[trigger] cards[i] == run_card(cards[0], i) {
        assert(cards[1] == run_card(cards[0], 1));
        assert forall|i: int| 0 <= i < cards.len() - 1 implies #[trigger] cards[i].color == cards[i
            + 1].color && cards[i].number + 1 == cards[i + 1].number by {
            assert(cards[i] == run_card(cards[0], i));
            assert(cards[i + 1] == run_card(cards[0], i + 1));
            assert(cards[i].number == cards[0].number + i);
            assert(cards[i + 1].number == cards[0].number + i + 1);
        }
    }
    if (picked_show(cards) is Some) && picked_show(cards).unwrap().row != 1 {
        assert forall|i: int| 0 <= i < cards.len() implies #[trigger] cards[i] == run_card(
            show_start(picked_show(cards).unwrap()),
            i,
        ) by {
            lemma_run_cards(cards, i);
        }
    }
}

/// Four picked cards of one number form the show of four of that number, and only
/// four cards alike in number and each of another colour than the next form it.
pub proof fn law_picked_four(cards: Seq<Card>)
    requires
        cards.len() == 4,
        cards[0].color != cards[1].color,
    ensures
        (picked_show(cards) is Some) ==> picked_show(cards).unwrap().row == 1 && picked_show(
            cards,
        ).unwrap().number == cards[0].number && forall|i: int|
            0 <= i < 4 ==> #[trigger] cards[i].number == cards[0].number,
        (forall|i: int| 0 <= i < 3 ==> #[trigger] cards[i].color != cards[i + 1].color
            && cards[i].number == cards[i + 1].number) ==> picked_show(cards) == Some(
            (Show { color: cards[0].color, number: cards[0].number, row: 1 }),
        ),
{
    if picked_show(cards) is Some {
        assert(cards[0].number == cards[1].number);
        assert(cards[1].number == cards[2].number);
        assert(cards[2].number == cards[3].number);
    }
}

/// The seat of player `id` as seen from player `host_id`: 0 for the host, then around
/// the table.
pub fn get_player_pos(host_id: u8, id: u8) -> (r: u8)
    requires
        id <= 251,
        host_id <= id + 4,
    ensures
        r == (id + 4 - host_id) % 4,
{
    (id + 4 - host_id) % 4
}

} // verus!
