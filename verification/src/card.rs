//! Cards, shows (runs of cards a player announces) and sets of cards.
use vstd::prelude::*;

use crate::bits::{
    bit_of, lemma_set_of_bits_and, lemma_set_of_bits_and_not, lemma_set_of_bits_finite,
    lemma_set_of_bits_injective, lemma_set_of_bits_nonzero, lemma_set_of_bits_one_shl,
    lemma_set_of_bits_or, lemma_set_of_bits_run, lemma_set_of_bits_shl, lemma_set_of_bits_shr1,
    lemma_set_of_bits_xor, lemma_set_of_bits_zero, set_of_bits,
};

verus! {

/// A card of the 36-card deck: four colours, nine numbers each.
#[derive(Clone, Copy, PartialEq, Eq, Debug, Structural)]
pub struct Card {
    pub color: u8,
    pub number: u8,
}

/// The card whose identifier is `i`.
pub open spec fn card_of_id(i: int) -> Card {
    Card { color: (i / 9) as u8, number: (i % 9) as u8 }
}

impl Card {
    /// A card's identifier: its colour times nine plus its number.
    pub open spec fn id(self) -> int {
        self.color * 9 + self.number
    }

    pub fn new(color: u8, number: u8) -> (c: Self)
        ensures
            c.color == color,
            c.number == number,
    {
        Card { color, number }
    }

    pub fn from_id(card_id: u8) -> (c: Self)
        ensures
            c == card_of_id(card_id as int),
            c.id() == card_id,
    {
        Card { color: card_id / 9, number: card_id % 9 }
    }

    pub fn get_id(&self) -> (r: u8)
        requires
            self.id() <= u8::MAX,
        ensures
            r == self.id(),
    {
        self.color * 9 + self.number
    }
}

impl Default for Card {
    fn default() -> (c: Self)
        ensures
            c == (Card { color: 4, number: 2 }),
    {
        Card { color: 4, number: 2 }
    }
}

/// A show: four equal numbers (`row == 1`) or a run of `row` cards of one colour
/// starting at `number`. Colour 4 marks an empty slot.
#[derive(Clone, Copy, PartialEq, Eq, Debug, Structural)]
pub struct Show {
    pub color: u8,
    pub number: u8,
    pub row: u8,
}

impl Show {
    /// The cards that make up the show.
    pub open spec fn cards(self) -> Seq<Card> {
        if self.row == 1 {
            Seq::new(4, |i: int| Card { color: i as u8, number: self.number })
        } else {
            Seq::new(
                self.row as nat,
                |i: int| Card { color: self.color, number: (self.number + i) as u8 },
            )
        }
    }

    pub fn new(color: u8, number: u8, row: u8) -> (s: Self)
        ensures
            s.color == color,
            s.number == number,
            s.row == row,
    {
        Show { color, number, row }
    }

    /// Whether `Cardset::has_show` can judge this show without overflow.
    pub fn checkable(&self) -> (r: bool)
        ensures
            r == show_check_defined(*self),
    {
        let legal = 1 <= self.row && self.row <= 9 && self.row != 2;
        if !legal {
            return true;
        }
        if self.row == 1 {
            return self.number < 64;
        }
        if self.number as u16 + self.row as u16 > 255 {
            return false;
        }
        if self.number + self.row > 9 {
            return true;
        }
        (self.color as u16) * 9 + self.number as u16 + self.row as u16 <= 63
    }

    pub fn as_cards(&self) -> (v: Vec<Card>)
        requires
            self.row == 1 || self.number + self.row <= 256,
        ensures
            v@ == self.cards(),
    {
        let mut out: Vec<Card> = Vec::new();
        if self.row == 1 {
            let mut i: u8 = 0;
            while i < 4
                invariant
                    i <= 4,
                    self.row == 1,
                    out@ == self.cards().take(i as int),
                decreases 4 - i,
            {
                out.push(Card::new(i, self.number));
                i += 1;
                assert(out@ =~= self.cards().take(i as int));
            }
            assert(out@ =~= self.cards());
        } else {
            let mut i: u8 = 0;
            while i < self.row
                invariant
                    i <= self.row,
                    self.row != 1,
                    self.number + self.row <= 256,
                    out@ == self.cards().take(i as int),
                decreases self.row - i,
            {
                out.push(Card::new(self.color, self.number + i));
                i += 1;
                assert(out@ =~= self.cards().take(i as int));
            }
            assert(out@ =~= self.cards());
        }
        out
    }
}

impl Default for Show {
    fn default() -> (s: Self)
        ensures
            s == (Show { color: 4, number: 2, row: 0 }),
    {
        Show { color: 4, number: 2, row: 0 }
    }
}

/// Why a player may not make a show.
#[derive(Clone, Copy, PartialEq, Eq, Debug, Structural)]
pub enum ShowError {
    Illegal,
    DoesNotContain,
    IsSubset,
}

/// The rank of a number within the trump colour, lowest first:
/// 6, 7, 8, 10, Queen, King, Ace, Nine, Jack.
pub open spec fn trumpf_rank(number: int) -> int {
    if number == 3 {
        7
    } else if number == 5 {
        8
    } else if number == 4 {
        3
    } else if number >= 6 {
        number - 2
    } else {
        number
    }
}

/// Whether `s` holds a card of the colour of `card` that ranks above it as trump.
pub open spec fn has_stronger_trumpf_spec(s: Set<int>, card: Card) -> bool {
    card.number < 9 && exists|m: int|
        0 <= m < 9 && trumpf_rank(m) > trumpf_rank(card.number as int) && #[trigger] s.contains(
            card.color * 9 + m,
        )
}

/// Whether `s` holds a card of the given colour.
pub open spec fn has_color_spec(s: Set<int>, color: int) -> bool {
    exists|n: int| 0 <= n < 9 && #[trigger] s.contains(color * 9 + n)
}

/// Whether every card of `s` has the given colour.
pub open spec fn only_has_color_spec(s: Set<int>, color: int) -> bool {
    forall|i: int| #[trigger] s.contains(i) ==> color * 9 <= i < color * 9 + 9
}

/// How many of the `n` identifiers from `lo` on are in `s`.
pub open spec fn count_run(s: Set<int>, lo: int, n: nat) -> nat
    decreases n,
{
    if n == 0 {
        0
    } else {
        count_run(s, lo, (n - 1) as nat) + if s.contains(lo + n - 1) {
            1nat
        } else {
            0nat
        }
    }
}

/// The cards of `s` with identifier below `n`, in increasing order.
pub open spec fn cards_below(s: Set<int>, n: int) -> Seq<Card>
    decreases n,
{
    if n <= 0 {
        seq![]
    } else if s.contains(n - 1) {
        cards_below(s, n - 1).push(card_of_id(n - 1))
    } else {
        cards_below(s, n - 1)
    }
}

/// The identifiers of the given cards.
pub open spec fn ids_of(cards: Seq<Card>) -> Set<int> {
    Set::new(|i: int| exists|k: int| 0 <= k < cards.len() && #[trigger] cards[k].id() == i)
}

/// `s` with `i` added when absent and removed when present.
pub open spec fn toggled(s: Set<int>, i: int) -> Set<int> {
    if s.contains(i) {
        s.remove(i)
    } else {
        s.insert(i)
    }
}

/// Whether bit `j` of a byte is set.
pub open spec fn byte_bit(b: u8, j: u8) -> bool {
    (b >> j) & 1u8 == 1u8
}

/// The shows that `has_show` can judge without overflow.
pub open spec fn show_check_defined(show: Show) -> bool {
    let legal = 1 <= show.row <= 9 && show.row != 2;
    &&& (legal && show.row == 1 ==> show.number < 64)
    &&& (legal && show.row != 1 ==> show.number + show.row <= 255)
    &&& (legal && show.row != 1 && show.number + show.row <= 9 ==> show.color * 9 + show.number
        + show.row < 64)
}

/// The verdict on whether the hand `s` may make `show`.
pub open spec fn show_check(s: Set<int>, show: Show) -> Result<(), ShowError> {
    let row = show.row as int;
    let number = show.number as int;
    let p = show.color * 9 + number;
    if row < 1 || 9 < row || row == 2 {
        Err(ShowError::Illegal)
    } else if row != 1 && number + row > 9 {
        Err(ShowError::Illegal)
    } else if row == 1 {
        if forall|c: int| 0 <= c < 4 && number + 9 * c < 64 ==> #[trigger] s.contains(number + 9 * c) {
            Ok(())
        } else {
            Err(ShowError::DoesNotContain)
        }
    } else if !(forall|k: int| 0 <= k < row ==> #[trigger] s.contains(p + k)) {
        Err(ShowError::DoesNotContain)
    } else if number > 0 && s.contains(p - 1) {
        Err(ShowError::IsSubset)
    } else if number + row != 9 && s.contains(p + row) {
        Err(ShowError::IsSubset)
    } else {
        Ok(())
    }
}

/// The bits of the masks used on card sets.
proof fn lemma_mask_constants(j: u64)
    requires
        j < 64,
    ensures
        bit_of(0x01FFu64, j) == (j < 9),
        bit_of(0x0008040201u64, j) == (j == 0 || j == 9 || j == 18 || j == 27),
        bit_of(0b111111110u64, j) == (1 <= j <= 8),
        bit_of(0b111111100u64, j) == (2 <= j <= 8),
        bit_of(0b111111000u64, j) == (3 <= j <= 8),
        bit_of(0b000100000u64, j) == (j == 5),
        bit_of(0b111101000u64, j) == (j == 3 || 5 <= j <= 8),
        bit_of(0b110101000u64, j) == (j == 3 || j == 5 || j == 7 || j == 8),
        bit_of(0b100101000u64, j) == (j == 3 || j == 5 || j == 8),
        bit_of(0b000101000u64, j) == (j == 3 || j == 5),
{
    assert(((0x01FFu64 >> j) & 1u64 == 1u64) == (j < 9) && ((0x0008040201u64 >> j) & 1u64 == 1u64)
        == (j == 0 || j == 9 || j == 18 || j == 27) && ((0b111111110u64 >> j) & 1u64 == 1u64) == (1
        <= j && j <= 8) && ((0b111111100u64 >> j) & 1u64 == 1u64) == (2 <= j && j <= 8) && ((
    0b111111000u64 >> j) & 1u64 == 1u64) == (3 <= j && j <= 8) && ((0b000100000u64 >> j) & 1u64
        == 1u64) == (j == 5) && ((0b111101000u64 >> j) & 1u64 == 1u64) == (j == 3 || (5 <= j && j
        <= 8)) && ((0b110101000u64 >> j) & 1u64 == 1u64) == (j == 3 || j == 5 || j == 7 || j == 8)
        && ((0b100101000u64 >> j) & 1u64 == 1u64) == (j == 3 || j == 5 || j == 8) && ((
    0b000101000u64 >> j) & 1u64 == 1u64) == (j == 3 || j == 5)) by (bit_vector)
        requires
            j < 64,
    ;
}

/// `x & (mask << s)` is nonzero exactly when `x` holds a position of the shifted mask.
proof fn lemma_masked_hit(x: u64, mask: u64, s: u64)
    requires
        s < 64,
    ensures
        (x & (mask << s) != 0) == exists|m: int|
            0 <= m < 64 && #[trigger] set_of_bits(mask).contains(m) && set_of_bits(x).contains(
                s + m,
            ),
{
    lemma_set_of_bits_and(x, mask << s);
    lemma_set_of_bits_shl(mask, s);
    lemma_set_of_bits_nonzero(x & (mask << s));
    if x & (mask << s) != 0 {
        let both = set_of_bits(x & (mask << s));
        if forall|i: int| !#[trigger] both.contains(i) {
            assert(both =~= Set::<int>::empty());
        }
        let i = choose|i: int| #[trigger] both.contains(i);
        let m = i - s;
        assert(set_of_bits(mask << s).contains(i));
        assert(set_of_bits(mask).contains(m));
    } else {
        if exists|m: int|
            0 <= m < 64 && #[trigger] set_of_bits(mask).contains(m) && set_of_bits(x).contains(
                s + m,
            ) {
            let m = choose|m: int|
                0 <= m < 64 && #[trigger] set_of_bits(mask).contains(m) && set_of_bits(x).contains(
                    s + m,
                );
            assert(set_of_bits(mask << s).contains(s + m));
            assert(set_of_bits(x & (mask << s)).contains(s + m));
        }
    }
}

/// `x & m == m` exactly when the bits of `m` are among those of `x`.
proof fn lemma_and_eq_right(x: u64, m: u64)
    ensures
        (x & m == m) == set_of_bits(m).subset_of(set_of_bits(x)),
        (x & m == x) == set_of_bits(x).subset_of(set_of_bits(m)),
{
    lemma_set_of_bits_and(x, m);
    lemma_set_of_bits_injective(x & m, m);
    lemma_set_of_bits_injective(x & m, x);
    if set_of_bits(m).subset_of(set_of_bits(x)) {
        assert(set_of_bits(x).intersect(set_of_bits(m)) =~= set_of_bits(m));
    }
    if set_of_bits(x).subset_of(set_of_bits(m)) {
        assert(set_of_bits(x).intersect(set_of_bits(m)) =~= set_of_bits(x));
    }
}

/// A set of cards of the deck, one bit per card identifier.
#[derive(Clone, Copy, PartialEq, Eq, Debug, Structural)]
pub struct Cardset {
    list: u64,
}

impl View for Cardset {
    type V = Set<int>;

    closed spec fn view(&self) -> Set<int> {
        set_of_bits(self.list)
    }
}

impl Default for Cardset {
    fn default() -> (s: Self)
        ensures
            s@ == Set::<int>::empty(),
    {
        proof {
            lemma_set_of_bits_zero();
        }
        Cardset { list: 0 }
    }
}

impl Cardset {
    /// The word that stores the set.
    pub closed spec fn bits(self) -> u64 {
        self.list
    }

    /// A card set holds identifiers of the 64 bits only, and is determined by them.
    pub proof fn lemma_view(self)
        ensures
            self@.finite(),
            forall|i: int| #[trigger] self@.contains(i) ==> 0 <= i < 64,
            self@ == set_of_bits(self.bits()),
    {
        lemma_set_of_bits_finite(self.list);
    }

    /// Two card sets with the same cards are equal.
    pub proof fn lemma_view_injective(a: Cardset, b: Cardset)
        ensures
            (a == b) == (a@ == b@),
    {
        lemma_set_of_bits_injective(a.list, b.list);
    }

    /// The card set stored in the word `bits`.
    pub fn from_bits(bits: u64) -> (s: Self)
        ensures
            s@ == set_of_bits(bits),
            s.bits() == bits,
    {
        Cardset { list: bits }
    }

    /// The word that stores the set.
    pub fn to_bits(&self) -> (bits: u64)
        ensures
            bits == self.bits(),
            set_of_bits(bits) == self@,
    {
        self.list
    }

    pub fn insert(&mut self, card: Card)
        requires
            card.id() < 64,
        ensures
            final(self)@ == old(self)@.insert(card.id()),
    {
        let id = card.get_id();
        proof {
            lemma_set_of_bits_or(self.list, 1u64 << (id as u64));
            lemma_set_of_bits_one_shl(id as u64);
        }
        self.list = self.list | (1u64 << (id as u64));
        assert(self@ =~= old(self)@.insert(card.id()));
    }

    pub fn erase(&mut self, card: Card)
        requires
            card.id() < 64,
        ensures
            final(self)@ == old(self)@.remove(card.id()),
    {
        let id = card.get_id();
        proof {
            lemma_set_of_bits_and_not(self.list, 1u64 << (id as u64));
            lemma_set_of_bits_one_shl(id as u64);
        }
        self.list = self.list & !(1u64 << (id as u64));
        assert(self@ =~= old(self)@.remove(card.id()));
    }

    /// Inserts the card when it is absent, and removes it otherwise.
    pub fn toggle(&mut self, card: Card)
        requires
            card.id() < 64,
        ensures
            final(self)@ == toggled(old(self)@, card.id()),
    {
        let id = card.get_id();
        proof {
            lemma_set_of_bits_xor(self.list, 1u64 << (id as u64));
            lemma_set_of_bits_one_shl(id as u64);
        }
        self.list = self.list ^ (1u64 << (id as u64));
        assert(self@ =~= toggled(old(self)@, card.id()));
    }

    pub fn clear(&mut self)
        ensures
            final(self)@ == Set::<int>::empty(),
    {
        proof {
            lemma_set_of_bits_zero();
        }
        self.list = 0;
    }

    pub fn contains(&self, card: Card) -> (r: bool)
        requires
            card.id() < 64,
        ensures
            r == self@.contains(card.id()),
    {
        let id = card.get_id();
        proof {
            lemma_set_of_bits_and(self.list, 1u64 << (id as u64));
            lemma_set_of_bits_one_shl(id as u64);
            lemma_set_of_bits_nonzero(self.list & (1u64 << (id as u64)));
            let both = set_of_bits(self.list & (1u64 << (id as u64)));
            if forall|i: int| !#[trigger] both.contains(i) {
                assert(both =~= Set::<int>::empty());
            }
            if self@.contains(card.id()) {
                assert(set_of_bits(self.list & (1u64 << (id as u64))).contains(card.id()));
            }
        }
        self.list & (1u64 << (id as u64)) != 0
    }

    pub fn has_color(&self, color: u8) -> (r: bool)
        requires
            color < 8,
        ensures
            r == has_color_spec(self@, color as int),
    {
        let shift: u64 = (color * 9) as u64;
        proof {
            lemma_masked_hit(self.list, 0x01FFu64, shift);
            assert forall|m: int| 0 <= m < 64 implies #[trigger] set_of_bits(0x01FFu64).contains(m)
                == (m < 9) by {
                lemma_mask_constants(m as u64);
            }
            if has_color_spec(self@, color as int) {
                let n = choose|n: int| 0 <= n < 9 && #[trigger] self@.contains(color * 9 + n);
                assert(set_of_bits(0x01FFu64).contains(n));
            }
        }
        self.list & (0x01FFu64 << shift) != 0
    }

    pub fn only_has_color(&self, color: u8) -> (r: bool)
        requires
            color < 8,
        ensures
            r == only_has_color_spec(self@, color as int),
    {
        let shift: u64 = (color * 9) as u64;
        proof {
            lemma_and_eq_right(self.list, 0x01FFu64 << shift);
            lemma_set_of_bits_shl(0x01FFu64, shift);
            assert forall|m: int| 0 <= m < 64 implies #[trigger] set_of_bits(0x01FFu64).contains(m)
                == (m < 9) by {
                lemma_mask_constants(m as u64);
            }
            if only_has_color_spec(self@, color as int) {
                assert(set_of_bits(self.list).subset_of(set_of_bits(0x01FFu64 << shift)));
            }
        }
        self.list & (0x01FFu64 << shift) == self.list
    }

    /// The low 40 bits of the set, most significant byte first.
    pub fn as_bytes(&self) -> (out: [u8; 5])
        ensures
            forall|k: int, j: u8|
                0 <= k < 5 && j < 8 ==> #[trigger] byte_bit(out[k], j) == self@.contains(
                    8 * (4 - k) + j,
                ),
    {
        let mut out: [u8; 5] = [0;5];
        let mut i: usize = 0;
        while i < 5
            invariant
                i <= 5,
                forall|k: int, j: u8|
                    4 - i < k < 5 && j < 8 ==> #[trigger] byte_bit(out[k], j) == self@.contains(
                        8 * (4 - k) + j,
                    ),
            decreases 5 - i,
        {
            let x = self.list;
            let s: u64 = (i * 8) as u64;
            let b: u8 = ((x >> s) % 0x100) as u8;
            proof {
                assert forall|j: u8| j < 8 implies #[trigger] byte_bit(b, j) == bit_of(
                    x,
                    (s + j) as u64,
                ) by {
                    let t: u64 = (s + j) as u64;
                    assert(((b >> j) & 1u8 == 1u8) == ((x >> t) & 1u64 == 1u64)) by (bit_vector)
                        requires
                            s <= 32,
                            j < 8,
                            t == s + j,
                            b == ((x >> s) % 0x100) as u8,
                    ;
                }
            }
            out[4 - i] = b;
            i += 1;
        }
        out
    }

    /// How many cards of the given colour the set holds.
    pub fn count_color(&self, color: u8) -> (r: u32)
        requires
            color < 8,
        ensures
            r == count_run(self@, color * 9, 9),
    {
        let base: u64 = (color as u64) * 9;
        let mut count: u32 = 0;
        let mut n: u64 = 0;
        while n < 9
            invariant
                n <= 9,
                base == color * 9,
                base < 64,
                count == count_run(self@, base as int, n as nat),
                count <= n,
            decreases 9 - n,
        {
            let id = base + n;
            if id < 64 && (self.list >> id) & 1u64 == 1u64 {
                count += 1;
            }
            n += 1;
        }
        count
    }

    pub fn has_stronger_trumpf(&self, card: Card) -> (r: bool)
        requires
            card.color < 8,
        ensures
            r == has_stronger_trumpf_spec(self@, card),
    {
        // Each card with a higher trump rank is marked with 1.
        let mask: u64 = match card.number {
            0 => 0b111111110,
            1 => 0b111111100,
            2 => 0b111111000,
            3 => 0b000100000,
            4 => 0b111101000,
            5 => 0,
            6 => 0b110101000,
            7 => 0b100101000,
            8 => 0b000101000,
            _ => 0,
        };
        let shift: u64 = (card.color * 9) as u64;
        proof {
            lemma_masked_hit(self.list, mask, shift);
            lemma_set_of_bits_zero();
            assert forall|m: int| 0 <= m < 64 implies #[trigger] set_of_bits(mask).contains(m) == (
            card.number < 9 && m < 9 && trumpf_rank(m) > trumpf_rank(card.number as int)) by {
                lemma_mask_constants(m as u64);
            }
            if has_stronger_trumpf_spec(self@, card) {
                let m = choose|m: int|
                    0 <= m < 9 && trumpf_rank(m) > trumpf_rank(card.number as int)
                        && #[trigger] self@.contains(card.color * 9 + m);
                assert(set_of_bits(mask).contains(m));
            }
        }
        self.list & (mask << shift) != 0
    }

    /// Whether the set holds `show`, and holds no longer run that contains it.
    pub fn has_show(&self, show: Show) -> (r: Result<(), ShowError>)
        requires
            show_check_defined(show),
        ensures
            r == show_check(self@, show),
    {
        // Rows that do not exist are not legal
        if show.row < 1 || 9 < show.row || show.row == 2 {
            return Err(ShowError::Illegal);
        }
        if show.row != 1 && show.number + show.row > 9 {
            return Err(ShowError::Illegal);
        }
        // Four equal numbers
        if show.row == 1 {
            let mask: u64 = 0x0008040201u64 << (show.number as u64);
            proof {
                lemma_and_eq_right(self.list, mask);
                lemma_set_of_bits_shl(0x0008040201u64, show.number as u64);
                assert forall|m: int| 0 <= m < 64 implies #[trigger] set_of_bits(
                    0x0008040201u64,
                ).contains(m) == (m == 0 || m == 9 || m == 18 || m == 27) by {
                    lemma_mask_constants(m as u64);
                }
                let number = show.number as int;
                if forall|c: int|
                    0 <= c < 4 && number + 9 * c < 64 ==> #[trigger] self@.contains(number + 9 * c) {
                    assert forall|i: int| #[trigger]
                        set_of_bits(mask).contains(i) implies set_of_bits(self.list).contains(i) by {
                        let c = (i - number) / 9;
                        assert(self@.contains(number + 9 * c));
                    }
                } else {
                    let c = choose|c: int|
                        !(0 <= c < 4 && number + 9 * c < 64 ==> #[trigger] self@.contains(
                            number + 9 * c,
                        ));
                    assert(set_of_bits(mask).contains(number + 9 * c));
                }
            }
            return if self.list & mask == mask {
                Ok(())
            } else {
                Err(ShowError::DoesNotContain)
            };
        }
        // A run of `row` cards: the mask looks like 0000111000...
        let p: u64 = (show.color * 9 + show.number) as u64;
        let r: u64 = show.row as u64;
        let tmp: u64 = 1u64 << p;
        proof {
            lemma_set_of_bits_run(p, r);
        }
        let mask: u64 = (tmp << r) - tmp;
        proof {
            lemma_and_eq_right(self.list, mask);
            if !(forall|k: int| 0 <= k < r ==> #[trigger] self@.contains(p + k)) {
                let k = choose|k: int| !(0 <= k < r ==> #[trigger] self@.contains(p + k));
                assert(set_of_bits(mask).contains(p + k));
            } else {
                assert forall|i: int| #[trigger]
                    set_of_bits(mask).contains(i) implies set_of_bits(self.list).contains(i) by {
                    assert(self@.contains(p + (i - p)));
                }
            }
        }
        if self.list & mask != mask {
            return Err(ShowError::DoesNotContain);
        }
        // The run could be one of a longer run: check one card below...
        if show.number > 0 {
            proof {
                lemma_set_of_bits_shr1(mask);
                lemma_and_eq_right(self.list, mask >> 1u64);
                if self@.contains(p - 1) {
                    assert(set_of_bits(mask >> 1u64).subset_of(set_of_bits(self.list)));
                } else {
                    assert(set_of_bits(mask >> 1u64).contains(p - 1));
                }
            }
            if self.list & (mask >> 1u64) == (mask >> 1u64) {
                return Err(ShowError::IsSubset);
            }
        }
        // ... and one card above.
        if show.number + show.row == 9 {
            Ok(())
        } else {
            proof {
                lemma_set_of_bits_shl(mask, 1u64);
                lemma_and_eq_right(self.list, mask << 1u64);
                if self@.contains(p + r) {
                    assert forall|i: int| #[trigger]
                        set_of_bits(mask << 1u64).contains(i) implies set_of_bits(
                        self.list,
                    ).contains(i) by {
                        assert(set_of_bits(mask).contains(i - 1));
                    }
                } else {
                    assert(set_of_bits(mask << 1u64).contains(p + r));
                }
            }
            if self.list & (mask << 1u64) == mask << 1u64 {
                Err(ShowError::IsSubset)
            } else {
                Ok(())
            }
        }
    }

    /// The cards of the deck that the set holds, in increasing identifier order.
    pub fn as_vec(&self) -> (v: Vec<Card>)
        ensures
            v@ == cards_below(self@, 36),
    {
        let mut out: Vec<Card> = Vec::new();
        let mut i: u8 = 0;
        while i < 36
            invariant
                i <= 36,
                out@ == cards_below(self@, i as int),
            decreases 36 - i,
        {
            let card = Card::new(i / 9, i % 9);
            assert(card == card_of_id(i as int));
            if self.contains(card) {
                out.push(card);
            }
            i += 1;
        }
        out
    }

    pub fn new(init_list: Vec<Card>) -> (s: Self)
        requires
            forall|k: int| 0 <= k < init_list@.len() ==> #[trigger] init_list@[k].id() < 64,
        ensures
            s@ == ids_of(init_list@),
    {
        let mut list: u64 = 0;
        let mut k: usize = 0;
        proof {
            lemma_set_of_bits_zero();
            assert(ids_of(init_list@.take(0)) =~= Set::<int>::empty());
        }
        while k < init_list.len()
            invariant
                k <= init_list@.len(),
                forall|k: int| 0 <= k < init_list@.len() ==> #[trigger] init_list@[k].id() < 64,
                set_of_bits(list) == ids_of(init_list@.take(k as int)),
            decreases init_list@.len() - k,
        {
            let card = init_list[k];
            let id = card.get_id();
            proof {
                lemma_set_of_bits_or(list, 1u64 << (id as u64));
                lemma_set_of_bits_one_shl(id as u64);
            }
            list = list | (1u64 << (id as u64));
            k += 1;
            proof {
                let t = init_list@.take(k as int);
                assert forall|i: int| #[trigger]
                    ids_of(t).contains(i) == set_of_bits(list).contains(i) by {
                    if ids_of(t).contains(i) {
                        let j = choose|j: int| 0 <= j < t.len() && #[trigger] t[j].id() == i;
                        if j < k - 1 {
                            assert(init_list@.take(k - 1)[j] == t[j]);
                        }
                    }
                    if set_of_bits(list).contains(i) && i != id {
                        let pre = init_list@.take(k - 1);
                        let j = choose|j: int| 0 <= j < pre.len() && #[trigger] pre[j].id() == i;
                        assert(t[j] == pre[j]);
                    }
                    if i == id {
                        assert(t[k - 1].id() == i);
                    }
                }
                assert(ids_of(t) =~= set_of_bits(list));
            }
        }
        assert(init_list@.take(k as int) =~= init_list@);
        Cardset { list }
    }
}

/// A card made from an identifier has that identifier: `Card::from_id(i).get_id() == i`.
pub proof fn law_from_id_get_id(i: u8)
    ensures
        card_of_id(i as int).id() == i,
        card_of_id(i as int).number < 9,
{
}

/// A card of the deck is the card made from its identifier.
pub proof fn law_get_id_from_id(c: Card)
    requires
        c.number < 9,
        c.id() <= u8::MAX,
    ensures
        card_of_id(c.id()) == c,
{
}

/// Toggling a card twice leaves a set as it was.
pub proof fn law_toggle_twice(s: Set<int>, i: int)
    ensures
        toggled(toggled(s, i), i) == s,
{
    assert(toggled(toggled(s, i), i) =~= s);
}

/// The cards below `n` of a set are sorted by identifier and lie below `n`.
proof fn lemma_cards_below(s: Set<int>, n: int)
    requires
        0 <= n <= 36,
    ensures
        ids_of(cards_below(s, n)) == s.intersect(Set::new(|i: int| 0 <= i < n)),
        forall|k: int|
            0 <= k < cards_below(s, n).len() ==> 0 <= #[trigger] cards_below(s, n)[k].id() < n,
        forall|a: int, b: int|
            0 <= a < b < cards_below(s, n).len() ==> #[trigger] cards_below(s, n)[a].id()
                < #[trigger] cards_below(s, n)[b].id(),
    decreases n,
{
    if n > 0 {
        lemma_cards_below(s, n - 1);
        let prev = cards_below(s, n - 1);
        let c = card_of_id(n - 1);
        assert(c.id() == n - 1);
        if s.contains(n - 1) {
            assert forall|i: int| #[trigger] ids_of(prev.push(c)).contains(i) == ids_of(
                prev,
            ).insert(c.id()).contains(i) by {
                let t = prev.push(c);
                if ids_of(t).contains(i) {
                    let k = choose|k: int| 0 <= k < t.len() && #[trigger] t[k].id() == i;
                    if k < prev.len() {
                        assert(prev[k].id() == i);
                    }
                }
                if ids_of(prev).contains(i) {
                    let k = choose|k: int| 0 <= k < prev.len() && #[trigger] prev[k].id() == i;
                    assert(t[k].id() == i);
                }
                if i == c.id() {
                    assert(t[prev.len() as int].id() == i);
                }
            }
            assert(ids_of(prev.push(c)) =~= ids_of(prev).insert(c.id()));
        }
        assert(ids_of(cards_below(s, n)) =~= s.intersect(Set::new(|i: int| 0 <= i < n)));
    } else {
        assert(ids_of(cards_below(s, n)) =~= s.intersect(Set::new(|i: int| 0 <= i < n)));
    }
}

/// `as_vec` lists the cards of the deck that a set holds, in increasing order, and
/// `Cardset::new` of that list gives back those cards.
pub proof fn law_as_vec_new(s: Set<int>)
    ensures
        ids_of(cards_below(s, 36)) == s.intersect(Set::new(|i: int| 0 <= i < 36)),
        forall|a: int, b: int|
            0 <= a < b < cards_below(s, 36).len() ==> #[trigger] cards_below(s, 36)[a].id()
                < #[trigger] cards_below(s, 36)[b].id(),
        forall|k: int|
            0 <= k < cards_below(s, 36).len() ==> #[trigger] cards_below(s, 36)[k].id() < 36,
{
    lemma_cards_below(s, 36);
}

/// A run accepted as a show lies in the hand, and is the longest run there: the same run
/// one card longer, at either end, is not in the hand.
pub proof fn law_show_run_held(s: Set<int>, show: Show)
    requires
        show.row >= 3,
        show.color < 4,
        show_check(s, show) == Ok::<(), ShowError>(()),
    ensures
        forall|k: int| 0 <= k < show.row ==> #[trigger] s.contains(show.color * 9 + show.number + k),
        show.number + show.row < 9 && show.row < 255 ==> show_check(
            s,
            Show { row: (show.row + 1) as u8, ..show },
        ) != Ok::<(), ShowError>(()),
        show.number > 0 && show.row < 255 ==> show_check(
            s,
            Show { number: (show.number - 1) as u8, row: (show.row + 1) as u8, ..show },
        ) != Ok::<(), ShowError>(()),
{
    let p = show.color * 9 + show.number;
    if show.number + show.row < 9 && show.row < 255 {
        let longer = Show { row: (show.row + 1) as u8, ..show };
        if show_check(s, longer) == Ok::<(), ShowError>(()) {
            assert(s.contains(p + show.row));
        }
    }
    if show.number > 0 && show.row < 255 {
        let longer = Show { number: (show.number - 1) as u8, row: (show.row + 1) as u8, ..show };
        if show_check(s, longer) == Ok::<(), ShowError>(()) {
            assert(s.contains(longer.color * 9 + longer.number + 0));
        }
    }
}

/// Four cards of one number are accepted as a show only when the hand holds that number
/// in all four colours.
pub proof fn law_show_four_held(s: Set<int>, show: Show)
    requires
        show.row == 1,
        show.number < 9,
    ensures
        show_check(s, show) == Ok::<(), ShowError>(()) <==> forall|c: int|
            0 <= c < 4 ==> #[trigger] s.contains(show.number + 9 * c),
{
}

/// `count_run` counts the members of the set among the `n` identifiers from `lo` on.
pub proof fn law_count_run_size(s: Set<int>, lo: int, n: nat)
    ensures
        count_run(s, lo, n) == s.intersect(Set::new(|i: int| lo <= i < lo + n)).len(),
        s.intersect(Set::new(|i: int| lo <= i < lo + n)).finite(),
    decreases n,
{
    let r = Set::new(|i: int| lo <= i < lo + n);
    let cut = s.intersect(r);
    if n == 0 {
        assert(cut =~= Set::empty());
    } else {
        law_count_run_size(s, lo, (n - 1) as nat);
        let r0 = Set::new(|i: int| lo <= i < lo + (n - 1));
        let cut0 = s.intersect(r0);
        let last = lo + n - 1;
        if s.contains(last) {
            assert(cut =~= cut0.insert(last));
        } else {
            assert(cut =~= cut0);
        }
    }
}

} // verus!
