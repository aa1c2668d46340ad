//! What a player's screen shows of a game: the cards on the table and where they lie,
//! the cards each team has won in the round, the shows that may be seen, the seats
//! once the teams are chosen, and the points a team had before the round.
use vstd::prelude::*;

use crate::card::{ids_of, Card, Cardset, Show};
use crate::game::{Game, GameModel};
use crate::playtype::{Playtype, NONE};
use crate::show_choice::get_player_pos;

verus! {

/// A card on the table, as a player's screen shows it.
#[derive(Clone, Copy, PartialEq, Eq, Debug, Structural)]
pub struct CarpetCard {
    pub card: Card,
    /// The seat of the player who played it, as seen from the viewer.
    pub pos: u8,
    /// Whether it is the best card of its trick.
    pub best: bool,
    /// Whether its trick is complete and it did not take it.
    pub dimmed: bool,
}

/// The first entry of the history that lies on the table: the start of the current
/// trick, or, while a complete trick is still shown, the start of that trick.
pub open spec fn carpet_start(history_index: int) -> int {
    if history_index % 4 == 0 && history_index > 0 {
        history_index - 4
    } else {
        history_index / 4 * 4
    }
}

/// The seat, as seen from player `id`, of the player who opened the trick on the table.
pub open spec fn carpet_start_pos(m: GameModel, id: int) -> int {
    let begin = (m.beginplayer() + 4 - id) % 4;
    if m.history_index % 4 == 0 && m.history_index > 0 {
        (begin + 4 - m.bestcard_index % 4) % 4
    } else {
        begin
    }
}

/// The cards on the table as player `id` sees them, in the order they were played.
pub open spec fn carpet(m: GameModel, id: int) -> Seq<CarpetCard> {
    let start = carpet_start(m.history_index);
    let n = m.history_index - start;
    Seq::new(
        n as nat,
        |k: int|
            CarpetCard {
                card: m.history[start + k],
                pos: ((carpet_start_pos(m, id) + start + k) % 4) as u8,
                best: start + k == m.bestcard_index,
                dimmed: n == 4 && start + k != m.bestcard_index,
            },
    )
}

/// The cards on the table as player `id` sees them.
pub fn get_carpet(game: &Game, id: u8) -> (v: Vec<CarpetCard>)
    requires
        game.history_index <= 36,
        game.current_player <= 251,
        id < 4,
    ensures
        v@ == carpet(game@, id as int),
{
    let hi = game.history_index;
    let complete = hi % 4 == 0 && hi > 0;
    let start: u8 = if complete {
        hi - 4
    } else {
        hi / 4 * 4
    };
    let begin = get_player_pos(id, game.get_beginplayer());
    let start_pos: u8 = if complete {
        (begin + 4 - game.bestcard_index % 4) % 4
    } else {
        begin
    };
    let cards = hi - start;
    let ghost target = carpet(game@, id as int);
    let mut v: Vec<CarpetCard> = Vec::new();
    let mut i: u8 = start;
    while i < hi
        invariant
            start <= i <= hi <= 36,
            start == carpet_start(hi as int),
            start_pos == carpet_start_pos(game@, id as int),
            start_pos < 4,
            cards == hi - start,
            hi == game.history_index,
            target == carpet(game@, id as int),
            v@ == target.subrange(0, i - start),
        decreases hi - i,
    {
        let c = CarpetCard {
            card: game.history[i as usize],
            pos: (start_pos + i) % 4,
            best: i == game.bestcard_index,
            dimmed: cards == 4 && i != game.bestcard_index,
        };
        v.push(c);
        proof {
            assert(target[i - start] == c);
            assert(v@ =~= target.subrange(0, i + 1 - start));
        }
        i += 1;
    }
    assert(v@ =~= target);
    v
}

/// Adds the four cards of the trick just completed to those won by the team of the
/// player who took it (the player to play next).
pub fn collect_trick(woncards: &mut [Cardset; 2], game: &Game)
    requires
        4 <= game.history_index <= 36,
        game.history_index % 4 == 0,
        forall|k: int|
            game.history_index - 4 <= k < game.history_index ==> #[trigger] game.history@[k].id()
                < 64,
    ensures
        final(woncards)@[game.current_player as int % 2]@ == old(woncards)@[game.current_player as int
            % 2]@.union(ids_of(game.history@.subrange(game.history_index - 4, game.history_index as int))),
        final(woncards)@[1 - game.current_player % 2] == old(woncards)@[1 - game.current_player % 2],
{
    let team = game.current_player as usize % 2;
    let hi = game.history_index as usize;
    let ghost before = woncards@[team as int]@;
    let ghost trick = game.history@.subrange(hi - 4, hi as int);
    let mut won = woncards[team];
    let mut i: usize = hi - 4;
    while i < hi
        invariant
            4 <= hi <= 36,
            hi - 4 <= i <= hi,
            hi == game.history_index,
            trick == game.history@.subrange(hi - 4, hi as int),
            forall|k: int| hi - 4 <= k < hi ==> #[trigger] game.history@[k].id() < 64,
            won@ == before.union(ids_of(game.history@.subrange(hi - 4, i as int))),
        decreases hi - i,
    {
        won.insert(game.history[i]);
        proof {
            let done = game.history@.subrange(hi - 4, i as int);
            let next = game.history@.subrange(hi - 4, i + 1);
            assert(next =~= done.push(game.history@[i as int]));
            assert(ids_of(next) =~= ids_of(done).insert(game.history@[i as int].id())) by {
                assert forall|x: int| ids_of(next).contains(x) implies ids_of(done).insert(
                    game.history@[i as int].id(),
                ).contains(x) by {
                    let k = choose|k: int| 0 <= k < next.len() && #[trigger] next[k].id() == x;
                    if k < done.len() {
                        assert(done[k] == next[k]);
                    }
                }
                assert forall|x: int| ids_of(done).insert(game.history@[i as int].id()).contains(
                    x,
                ) implies ids_of(next).contains(x) by {
                    if x == game.history@[i as int].id() {
                        assert(next[done.len() as int] == game.history@[i as int]);
                    } else {
                        let k = choose|k: int| 0 <= k < done.len() && #[trigger] done[k].id() == x;
                        assert(next[k] == done[k]);
                    }
                }
            }
            assert(won@ =~= before.union(ids_of(next)));
        }
        i += 1;
    }
    woncards[team] = won;
}

/// The shows of a player that are shown on the screen: the slots that hold a show.
pub fn visible_shows(shows: &[Show; 3]) -> (v: Vec<Show>)
    ensures
        v@ == shows@.filter(|s: Show| s.color < 4),
{
    let ghost pred = |s: Show| s.color < 4;
    let mut v: Vec<Show> = Vec::new();
    let mut i: usize = 0;
    while i < 3
        invariant
            i <= 3,
            pred == (|s: Show| s.color < 4),
            v@ == shows@.subrange(0, i as int).filter(pred),
        decreases 3 - i,
    {
        proof {
            reveal(Seq::filter);
            let next = shows@.subrange(0, i + 1);
            assert(next.drop_last() =~= shows@.subrange(0, i as int));
            assert(next.last() == shows@[i as int]);
        }
        if shows[i].color < 4 {
            v.push(shows[i]);
        }
        i += 1;
    }
    assert(shows@.subrange(0, 3) =~= shows@);
    v
}

/// The last position before `n` at which `order` names seat `j`, or -1.
pub open spec fn last_seat(order: Seq<usize>, j: int, n: int) -> int
    decreases n,
{
    if n <= 0 {
        -1
    } else if order[n - 1] == j {
        n - 1
    } else {
        last_seat(order, j, n - 1)
    }
}

/// For each old seat, the new seat of its player, where `order[i]` is the old seat of the
/// player who now sits at seat `i`. A seat that `order` does not name keeps 0.
pub fn invert_order(order: &[usize; 4]) -> (r: [usize; 4])
    requires
        forall|i: int| 0 <= i < 4 ==> #[trigger] order@[i] < 4,
    ensures
        forall|j: int|
            0 <= j < 4 ==> #[trigger] r@[j] == if last_seat(order@, j, 4) >= 0 {
                last_seat(order@, j, 4)
            } else {
                0
            },
        forall|i: int|
            0 <= i < 4 ==> i <= #[trigger] r@[order@[i] as int] < 4 && order@[r@[order@[i] as int] as int]
                == order@[i],
        (forall|a: int, b: int| 0 <= a < b < 4 ==> order@[a] != order@[b]) ==> forall|i: int|
            0 <= i < 4 ==> #[trigger] r@[order@[i] as int] == i,
{
    let mut becomes: [usize; 4] = [0;4];
    let mut i: usize = 0;
    while i < 4
        invariant
            i <= 4,
            forall|k: int| 0 <= k < 4 ==> #[trigger] order@[k] < 4,
            forall|j: int|
                0 <= j < 4 ==> #[trigger] becomes@[j] == if last_seat(order@, j, i as int) >= 0 {
                    last_seat(order@, j, i as int)
                } else {
                    0
                },
        decreases 4 - i,
    {
        becomes[order[i]] = i;
        i += 1;
    }
    proof {
        assert forall|i: int| 0 <= i < 4 implies i <= #[trigger] becomes@[order@[i] as int] < 4
            && order@[becomes@[order@[i] as int] as int] == order@[i] by {
            reveal_with_fuel(last_seat, 5);
        }
        if forall|a: int, b: int| 0 <= a < b < 4 ==> order@[a] != order@[b] {
            assert forall|i: int| 0 <= i < 4 implies #[trigger] becomes@[order@[i] as int] == i by {
                reveal_with_fuel(last_seat, 5);
            }
        }
    }
    becomes
}

/// The points team `team` had before the round: its points now, less what it won in
/// tricks and shows during the round.
pub fn points_before_round(game: &Game, team: usize) -> (r: u16)
    requires
        team < 2,
        game.won_points@[team as int] + game.show_points@[team as int] <= game.points@[team as int],
    ensures
        r == game.points@[team as int] - game.won_points@[team as int] - game.show_points@[team as int],
{
    game.points[team] - game.won_points[team] - game.show_points[team]
}

/// The game a client holds after it receives the announcement `pt`: an announcement
/// after a mode was already announced opens a new round first.
pub open spec fn announced_state(m: GameModel, pt: Playtype) -> GameModel {
    if m.playtype.playtype != NONE {
        m.start_new_round().announce(pt)
    } else {
        m.announce(pt)
    }
}

/// A client receives the announcement `pt`. When a mode was already announced, a new
/// round begins first and the cards won so far are forgotten.
pub fn receive_announce(game: &mut Game, woncards: &mut [Cardset; 2], pt: Playtype)
    requires
        old(game).playtype.playtype != NONE ==> old(game).announce_player <= 254,
        old(game).playtype.playtype != NONE ==> old(game)@.start_new_round().announce_defined(pt),
        old(game).playtype.playtype == NONE ==> old(game)@.announce_defined(pt),
    ensures
        final(game)@ == announced_state(old(game)@, pt),
        old(game).playtype.playtype != NONE ==> final(woncards)@[0]@ == Set::<int>::empty()
            && final(woncards)@[1]@ == Set::<int>::empty(),
        old(game).playtype.playtype == NONE ==> *final(woncards) == *old(woncards),
{
    if game.is_announced() {
        game.start_new_round();
        *woncards = [Cardset::default(), Cardset::default()];
    }
    game.announce(pt);
}

} // verus!
