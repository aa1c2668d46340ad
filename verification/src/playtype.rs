//! The game modes ("playtypes") and the rules that depend on them.
use vstd::prelude::*;

use crate::card::{Card, Show, card_of_id, has_stronger_trumpf_spec, trumpf_rank};

verus! {

pub const UPDOWN: u8 = 0;

pub const DOWNUP: u8 = 1;

pub const SHIELD: u8 = 2;

pub const ACORN: u8 = 3;

pub const ROSE: u8 = 4;

pub const BELL: u8 = 5;

pub const SLALOMUPDOWN: u8 = 6;

pub const SLALOMDOWNUP: u8 = 7;

pub const GUSCHTI: u8 = 8;

pub const MARY: u8 = 9;

pub const PASS: u8 = 10;

pub const NONE: u8 = 255;

pub const NUM_PLAYTYPES: usize = 10;

/// The announced game mode. `ruletype` is the mode whose card order is in force
/// (slalom modes switch it between up-down and down-up).
#[derive(Clone, Copy, PartialEq, Eq, Debug, Structural)]
pub struct Playtype {
    pub playtype: u8,
    pub ruletype: u8,
    pub misere: bool,
    pub passed: bool,
}

/// Points of each number when the highest card wins (up-down modes).
pub open spec fn updown_value(number: int) -> int {
    seq![0int, 0, 8, 0, 10, 2, 3, 4, 11][number]
}

/// Points of each number when the lowest card wins (down-up modes).
pub open spec fn downup_value(number: int) -> int {
    seq![11int, 0, 8, 0, 10, 2, 3, 4, 0][number]
}

/// Points of each number in a trump mode; `trumpf` tells whether the card is trump.
pub open spec fn trumpf_value(number: int, trumpf: bool) -> int {
    if trumpf {
        seq![0int, 0, 0, 14, 10, 20, 3, 4, 11][number]
    } else {
        seq![0int, 0, 0, 0, 10, 2, 3, 4, 11][number]
    }
}

/// The points a show is worth.
pub open spec fn show_value(show: Show) -> int {
    if show.row == 0 {
        0
    } else if show.row == 1 {
        if show.number == 3 {
            150
        } else if show.number == 5 {
            200
        } else {
            100
        }
    } else if show.row <= 3 {
        20
    } else {
        50 * (show.row - 3)
    }
}

impl Playtype {
    pub open spec fn is_trumpf_spec(self) -> bool {
        SHIELD <= self.playtype <= BELL
    }

    pub open spec fn is_color_trumpf_spec(self, color: u8) -> bool {
        color + 2 == self.playtype
    }

    /// Whether `new` beats `current` under the rules in force.
    pub open spec fn card_stronger(self, current: Card, new: Card) -> bool {
        if self.ruletype == UPDOWN {
            current.color == new.color && current.number < new.number
        } else if self.ruletype == DOWNUP {
            current.color == new.color && current.number > new.number
        } else if SHIELD <= self.ruletype <= BELL {
            let tcur = self.is_color_trumpf_spec(current.color);
            let tnew = self.is_color_trumpf_spec(new.color);
            if !tcur && !tnew {
                current.color == new.color && current.number < new.number
            } else if tcur != tnew {
                tnew
            } else {
                trumpf_rank(current.number as int) < trumpf_rank(new.number as int)
            }
        } else {
            false
        }
    }

    /// The inputs on which `is_card_stronger` neither overflows nor indexes out of range.
    pub open spec fn card_stronger_defined(self, current: Card, new: Card) -> bool {
        SHIELD <= self.ruletype <= BELL ==> {
            &&& current.color <= 253
            &&& new.color <= 253
            &&& (self.is_color_trumpf_spec(current.color) && self.is_color_trumpf_spec(new.color)
                ==> current.number < 9 && new.number < 9)
        }
    }

    /// The points `card` is worth.
    pub open spec fn card_value(self, card: Card) -> int {
        let p = self.playtype;
        if p == UPDOWN || p == SLALOMUPDOWN || p == GUSCHTI {
            updown_value(card.number as int)
        } else if p == DOWNUP || p == SLALOMDOWNUP || p == MARY {
            downup_value(card.number as int)
        } else if SHIELD <= p <= BELL {
            trumpf_value(card.number as int, self.is_color_trumpf_spec(card.color))
        } else {
            0
        }
    }

    /// No card is worth more than 20 points.
    pub proof fn lemma_card_value_bound(self, card: Card)
        requires
            self.card_value_defined(card),
        ensures
            0 <= self.card_value(card) <= 20,
    {
    }

    /// The inputs on which `get_card_value` neither overflows nor indexes out of range.
    pub open spec fn card_value_defined(self, card: Card) -> bool {
        &&& (self.playtype < 10 ==> card.number < 9)
        &&& (SHIELD <= self.playtype <= BELL ==> card.color <= 253)
    }

    /// Whether `new` is a better show than `current`.
    pub open spec fn show_stronger(self, current: Show, new: Show) -> bool {
        let pcur = show_value(current);
        let pnew = show_value(new);
        if pcur != pnew {
            pcur < pnew
        } else if current.row != new.row {
            current.row < new.row
        } else if current.number != new.number {
            if self.playtype == DOWNUP || self.playtype == SLALOMDOWNUP || self.playtype == MARY {
                current.number > new.number
            } else {
                current.number < new.number
            }
        } else {
            self.is_color_trumpf_spec(new.color)
        }
    }

    /// The inputs on which `is_show_stronger` does not overflow.
    pub open spec fn show_stronger_defined(self, current: Show, new: Show) -> bool {
        (show_value(current) == show_value(new) && current.row == new.row && current.number
            == new.number) ==> new.color <= 253
    }

    pub fn new() -> (p: Self)
        ensures
            p == (Playtype { playtype: NONE, ruletype: NONE, misere: false, passed: false }),
    {
        Self::default()
    }

    pub fn is_trumpf(&self) -> (r: bool)
        ensures
            r == self.is_trumpf_spec(),
    {
        SHIELD <= self.playtype && self.playtype <= BELL
    }

    pub fn get_trumpf_color(&self) -> (r: u8)
        requires
            self.playtype >= 2,
        ensures
            r == self.playtype - 2,
    {
        self.playtype - 2
    }

    pub fn is_color_trumpf(&self, color: u8) -> (r: bool)
        requires
            color <= 253,
        ensures
            r == self.is_color_trumpf_spec(color),
    {
        color + 2 == self.playtype
    }

    pub fn is_card_stronger(&self, current: Card, new: Card) -> (r: bool)
        requires
            self.card_stronger_defined(current, new),
        ensures
            r == self.card_stronger(current, new),
    {
        match self.ruletype {
            UPDOWN => { current.color == new.color && current.number < new.number },
            DOWNUP => { current.color == new.color && current.number > new.number },
            SHIELD | ACORN | ROSE | BELL => {
                let tcur = self.is_color_trumpf(current.color);
                let tnew = self.is_color_trumpf(new.color);

                if !tcur && !tnew {
                    current.color == new.color && current.number < new.number
                } else if tcur != tnew {
                    tnew
                } else {
                    // both are trump: the trump order decides
                    let order: [u8; 9] = [0, 1, 2, 7, 3, 8, 4, 5, 6];
                    let a = order[current.number as usize];
                    let b = order[new.number as usize];
                    proof {
                        assert(order@ =~= seq![0u8, 1, 2, 7, 3, 8, 4, 5, 6]);
                    }
                    a < b
                }
            },
            _ => false,
        }
    }

    pub fn get_card_value(&self, card: Card) -> (r: u16)
        requires
            self.card_value_defined(card),
        ensures
            r == self.card_value(card),
    {
        match self.playtype {
            UPDOWN | SLALOMUPDOWN | GUSCHTI => {
                let values: [u16; 9] = [0, 0, 8, 0, 10, 2, 3, 4, 11];
                proof {
                    assert(values@ =~= seq![0u16, 0, 8, 0, 10, 2, 3, 4, 11]);
                }
                values[card.number as usize]
            },
            DOWNUP | SLALOMDOWNUP | MARY => {
                let values: [u16; 9] = [11, 0, 8, 0, 10, 2, 3, 4, 0];
                proof {
                    assert(values@ =~= seq![11u16, 0, 8, 0, 10, 2, 3, 4, 0]);
                }
                values[card.number as usize]
            },
            SHIELD | ACORN | ROSE | BELL => {
                let trumpf: u16 = if self.is_color_trumpf(card.color) {
                    1
                } else {
                    0
                };
                let values: [u16; 9] = [0, 0, 0, 14 * trumpf, 10, 2 + 18 * trumpf, 3, 4, 11];
                proof {
                    assert(values@ =~= seq![0u16, 0, 0, (14 * trumpf) as u16, 10, (2 + 18 * trumpf) as u16, 3, 4, 11]);
                }
                values[card.number as usize]
            },
            _ => 0,
        }
    }

    pub fn is_show_stronger(&self, current: Show, new: Show) -> (r: bool)
        requires
            self.show_stronger_defined(current, new),
        ensures
            r == self.show_stronger(current, new),
    {
        let pcur = self.get_show_value(current);
        let pnew = self.get_show_value(new);
        if pcur != pnew {
            return pcur < pnew;
        }
        // The shows are worth the same
        if current.row != new.row {
            return current.row < new.row;
        }
        // The shows are equally long
        if current.number != new.number {
            return match self.playtype {
                DOWNUP | SLALOMDOWNUP | MARY => current.number > new.number,
                _ => current.number < new.number,
            };
        }
        // Only the colour differs: a trump colour is better
        return self.is_color_trumpf(new.color);
    }

    pub fn get_show_value(&self, show: Show) -> (r: u16)
        ensures
            r == show_value(show),
    {
        match show.row {
            0 => 0,
            1 => {
                match show.number {
                    3 => 150,
                    5 => 200,
                    _ => 100,
                }
            },
            2 | 3 => 20,
            x => 50 * (x as u16 - 3),
        }
    }
}

impl Default for Playtype {
    fn default() -> (p: Self)
        ensures
            p == (Playtype { playtype: NONE, ruletype: NONE, misere: false, passed: false }),
    {
        Playtype { playtype: NONE, ruletype: NONE, misere: false, passed: false }
    }
}

/// The points of the cards with identifiers below `n`.
pub open spec fn deck_points(pt: Playtype, n: int) -> int
    decreases n,
{
    if n <= 0 {
        0
    } else {
        deck_points(pt, n - 1) + pt.card_value(card_of_id(n - 1))
    }
}

/// No card beats itself, and of two cards at most one beats the other.
pub proof fn law_card_stronger_asymmetric(pt: Playtype, a: Card, b: Card)
    ensures
        !pt.card_stronger(a, a),
        !(pt.card_stronger(a, b) && pt.card_stronger(b, a)),
{
}

/// A card that beats one that beats a third card beats the third.
pub proof fn law_card_stronger_transitive(pt: Playtype, a: Card, b: Card, c: Card)
    requires
        pt.card_stronger(a, b),
        pt.card_stronger(b, c),
    ensures
        pt.card_stronger(a, c),
{
}

/// Of two different shows, at most one is better than the other.
pub proof fn law_show_stronger_asymmetric(pt: Playtype, a: Show, b: Show)
    requires
        a != b,
    ensures
        !(pt.show_stronger(a, b) && pt.show_stronger(b, a)),
{
}

/// The cards of the deck are worth 152 points in every game mode.
pub proof fn law_deck_points(pt: Playtype)
    requires
        pt.playtype < 10,
    ensures
        deck_points(pt, 36) == 152,
{
    reveal_with_fuel(deck_points, 37);
}

/// The numbers of the trump cards from the weakest to the strongest: Six, Seven, Eight,
/// Ten, Queen, King, Ace, Nine, Jack.
pub open spec fn trump_order() -> Seq<u8> {
    seq![0u8, 1, 2, 4, 6, 7, 8, 3, 5]
}

/// In a trump mode, of two trump cards the one later in the trump order takes the
/// trick: it beats the earlier one, and the earlier one does not beat it.
pub proof fn law_trump_order(pt: Playtype, i: int, j: int)
    requires
        SHIELD <= pt.playtype <= BELL,
        pt.ruletype == pt.playtype,
        0 <= i < j < 9,
    ensures
        pt.card_stronger(
            Card { color: (pt.playtype - 2) as u8, number: trump_order()[i] },
            Card { color: (pt.playtype - 2) as u8, number: trump_order()[j] },
        ),
        !pt.card_stronger(
            Card { color: (pt.playtype - 2) as u8, number: trump_order()[j] },
            Card { color: (pt.playtype - 2) as u8, number: trump_order()[i] },
        ),
{
    assert(trump_order().len() == 9);
}

/// In a trump mode a trump beats any card of another colour, and no such card beats a
/// trump.
pub proof fn law_trump_beats_others(pt: Playtype, t: Card, c: Card)
    requires
        SHIELD <= pt.playtype <= BELL,
        pt.ruletype == pt.playtype,
        t.color + 2 == pt.playtype,
        c.color != t.color,
    ensures
        pt.card_stronger(c, t),
        !pt.card_stronger(t, c),
{
}

/// A run of four or more cards is worth 50 for each card beyond three, so each further
/// card of a run adds 50.
pub proof fn law_run_value(s: Show)
    requires
        s.row >= 4,
    ensures
        show_value(s) == 50 * (s.row - 3),
        s.row < 255 ==> show_value(Show { row: (s.row + 1) as u8, ..s }) == show_value(s) + 50,
        show_value(s) >= 50,
{
}

/// A run of three cards is worth 20; four cards of one number are worth 100, four
/// Nines 150 and four Jacks 200; an empty slot is worth nothing.
pub proof fn law_small_show_values(s: Show)
    ensures
        s.row == 0 ==> show_value(s) == 0,
        s.row == 2 || s.row == 3 ==> show_value(s) == 20,
        s.row == 1 ==> show_value(s) == if s.number == 3 {
            150int
        } else if s.number == 5 {
            200int
        } else {
            100int
        },
{
}

/// Top-down and bottom-up value every card alike but the Six and the Ace, whose values
/// swap: the Ace is worth 11 top-down and nothing bottom-up, the Six the other way round.
/// The Slalom modes and Guschti value cards top-down, Mary bottom-up.
pub proof fn law_card_values_plain(up: Playtype, down: Playtype, c: Card)
    requires
        up.playtype == UPDOWN || up.playtype == SLALOMUPDOWN || up.playtype == GUSCHTI,
        down.playtype == DOWNUP || down.playtype == SLALOMDOWNUP || down.playtype == MARY,
        c.number < 9,
    ensures
        c.number != 0 && c.number != 8 ==> up.card_value(c) == down.card_value(c),
        c.number == 8 ==> up.card_value(c) == 11 && down.card_value(c) == 0,
        c.number == 0 ==> up.card_value(c) == 0 && down.card_value(c) == 11,
{
}

/// In a trump mode a card that is not trump is worth what it is worth top-down, but
/// for the Eight, which is worth nothing; a trump is worth the same, but the trump Nine
/// is worth 14 and the trump Jack 20.
pub proof fn law_card_values_trump(pt: Playtype, up: Playtype, c: Card)
    requires
        SHIELD <= pt.playtype <= BELL,
        up.playtype == UPDOWN,
        c.number < 9,
    ensures
        c.number != 2 ==> (c.color + 2 != pt.playtype || (c.number != 3 && c.number != 5))
            ==> pt.card_value(c) == up.card_value(c),
        c.number == 2 ==> pt.card_value(c) == 0,
        c.color + 2 == pt.playtype && c.number == 3 ==> pt.card_value(c) == 14,
        c.color + 2 == pt.playtype && c.number == 5 ==> pt.card_value(c) == 20,
{
}

/// Top-down the higher card of the same colour wins; bottom-up the lower one; a card of
/// another colour never wins in either. So the two orders are each other's reverse.
pub proof fn law_plain_orders(up: Playtype, down: Playtype, a: Card, b: Card)
    requires
        up.ruletype == UPDOWN,
        down.ruletype == DOWNUP,
    ensures
        up.card_stronger(a, b) <==> (a.color == b.color && a.number < b.number),
        down.card_stronger(a, b) <==> (a.color == b.color && a.number > b.number),
        up.card_stronger(a, b) <==> down.card_stronger(b, a),
{
}

/// A show worth more beats one worth less. Of two shows worth the same, the longer one
/// wins; of two as long, the higher one, or the lower one in the bottom-up modes; of two
/// alike but for the colour, the one in the trump colour.
pub proof fn law_show_order(pt: Playtype, a: Show, b: Show)
    ensures
        show_value(a) < show_value(b) ==> pt.show_stronger(a, b) && !pt.show_stronger(b, a),
        show_value(a) == show_value(b) && a.row < b.row ==> pt.show_stronger(a, b)
            && !pt.show_stronger(b, a),
        show_value(a) == show_value(b) && a.row == b.row && a.number != b.number ==> (pt.show_stronger(
            a,
            b,
        ) <==> if pt.playtype == DOWNUP || pt.playtype == SLALOMDOWNUP || pt.playtype == MARY {
            b.number < a.number
        } else {
            a.number < b.number
        }),
        show_value(a) == show_value(b) && a.row == b.row && a.number == b.number ==> (pt.show_stronger(
            a,
            b,
        ) <==> b.color + 2 == pt.playtype),
{
}

/// In a trump mode, a hand holds a trump stronger than a trump card exactly when it holds
/// a trump that beats that card.
pub proof fn law_stronger_trump_held(pt: Playtype, s: Set<int>, c: Card)
    requires
        SHIELD <= pt.playtype <= BELL,
        pt.ruletype == pt.playtype,
        c.color + 2 == pt.playtype,
        c.number < 9,
    ensures
        has_stronger_trumpf_spec(s, c) <==> exists|n: int|
            0 <= n < 9 && #[trigger] s.contains(c.color * 9 + n) && pt.card_stronger(
                c,
                Card { color: c.color, number: n as u8 },
            ),
{
    if has_stronger_trumpf_spec(s, c) {
        let n = choose|n: int|
            0 <= n < 9 && trumpf_rank(n) > trumpf_rank(c.number as int) && #[trigger] s.contains(
                c.color * 9 + n,
            );
        assert(pt.card_stronger(c, Card { color: c.color, number: n as u8 }));
    }
    if exists|n: int|
        0 <= n < 9 && #[trigger] s.contains(c.color * 9 + n) && pt.card_stronger(
            c,
            Card { color: c.color, number: n as u8 },
        ) {
        let n = choose|n: int|
            0 <= n < 9 && #[trigger] s.contains(c.color * 9 + n) && pt.card_stronger(
                c,
                Card { color: c.color, number: n as u8 },
            );
        assert(trumpf_rank(n) > trumpf_rank(c.number as int));
    }
}

} // verus!
