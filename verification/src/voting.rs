//! Votes of the players, such as on a revanche.
use vstd::prelude::*;

verus! {

/// What a vote is about.
#[derive(Clone, Copy, PartialEq, Eq, Debug, Structural)]
pub enum Votingtype {
    /// There is no vote.
    NONE,
    /// Another game.
    REVANCHE,
}

impl Default for Votingtype {
    fn default() -> (v: Self)
        ensures
            v == Votingtype::NONE,
    {
        Votingtype::NONE
    }
}

#[derive(Clone, Copy, PartialEq, Eq, Debug, Structural)]
pub enum Vote {
    NONE,
    AGREE,
    DECLINE,
    NEUTRAL,
}

/// The sum of the votes: one for each agreement, minus one for each refusal.
pub open spec fn vote_score(votes: Seq<Vote>) -> int
    decreases votes.len(),
{
    if votes.len() == 0 {
        0
    } else {
        vote_score(votes.drop_last()) + match votes.last() {
            Vote::AGREE => 1int,
            Vote::DECLINE => -1int,
            _ => 0int,
        }
    }
}

/// How many of the votes have been cast.
pub open spec fn votes_cast(votes: Seq<Vote>) -> nat
    decreases votes.len(),
{
    if votes.len() == 0 {
        0
    } else {
        votes_cast(votes.drop_last()) + if votes.last() != Vote::NONE {
            1nat
        } else {
            0nat
        }
    }
}

/// A vote among the players on a subject.
#[derive(Clone)]
pub struct Votinghandler<Votetype> where Votetype: PartialEq + Clone + Default {
    /// How many players have voted.
    pub ready: usize,
    pub subject: Votetype,
    pub vote: Vec<Vote>,
}

impl<Votetype> Votinghandler<Votetype> where Votetype: PartialEq + Clone + Default {
    /// Whether `ready` counts the votes cast.
    pub open spec fn counts_votes(self) -> bool {
        self.ready == votes_cast(self.vote@)
    }

    pub fn new(num_players: usize) -> (h: Self)
        ensures
            h.ready == 0,
            call_ensures(Votetype::default, (), h.subject),
            h.vote@ == Seq::new(num_players as nat, |i: int| Vote::NONE),
    {
        Votinghandler { ready: 0, subject: Votetype::default(), vote: none_votes(num_players) }
    }

    /// Records the vote of a player; `ready` grows when the player casts a first vote.
    pub fn set_vote(&mut self, client_id: usize, vote: Vote)
        requires
            client_id < old(self).vote@.len(),
            old(self).vote@[client_id as int] == Vote::NONE && vote != Vote::NONE
                ==> old(self).ready < usize::MAX,
        ensures
            final(self).ready == old(self).ready + if old(self).vote@[client_id as int] == Vote::NONE
                && vote != Vote::NONE {
                1int
            } else {
                0int
            },
            final(self).vote@ == old(self).vote@.update(client_id as int, vote),
            final(self).subject == old(self).subject,
    {
        if self.vote[client_id] == Vote::NONE && vote != Vote::NONE {
            self.ready = self.ready + 1;
        }
        self.vote.set(client_id, vote);
    }

    pub fn agree(&mut self, client_id: usize)
        requires
            client_id < old(self).vote@.len(),
            old(self).vote@[client_id as int] == Vote::NONE ==> old(self).ready < usize::MAX,
        ensures
            final(self).ready == old(self).ready + if old(self).vote@[client_id as int] == Vote::NONE {
                1int
            } else {
                0int
            },
            final(self).vote@ == old(self).vote@.update(client_id as int, Vote::AGREE),
            final(self).subject == old(self).subject,
    {
        self.set_vote(client_id, Vote::AGREE);
    }

    pub fn decline(&mut self, client_id: usize)
        requires
            client_id < old(self).vote@.len(),
            old(self).vote@[client_id as int] == Vote::NONE ==> old(self).ready < usize::MAX,
        ensures
            final(self).ready == old(self).ready + if old(self).vote@[client_id as int] == Vote::NONE {
                1int
            } else {
                0int
            },
            final(self).vote@ == old(self).vote@.update(client_id as int, Vote::DECLINE),
            final(self).subject == old(self).subject,
    {
        self.set_vote(client_id, Vote::DECLINE);
    }

    /// Whether every player has voted.
    pub fn all_ready(&self) -> (r: bool)
        ensures
            r == (self.ready == self.vote@.len()),
    {
        self.ready == self.vote.len()
    }

    /// Whether more of the first four players agree than decline.
    pub fn is_accepted(&self) -> (r: bool)
        requires
            self.vote@.len() >= 4,
        ensures
            r == (vote_score(self.vote@.take(4)) > 0),
    {
        let mut sum: i64 = 0;
        let mut i: usize = 0;
        while i < 4
            invariant
                i <= 4,
                self.vote@.len() >= 4,
                sum == vote_score(self.vote@.take(i as int)),
                -(i as int) <= sum <= i,
            decreases 4 - i,
        {
            proof {
                assert(self.vote@.take(i + 1).drop_last() =~= self.vote@.take(i as int));
            }
            sum = sum + match self.vote[i] {
                Vote::AGREE => 1,
                Vote::DECLINE => -1,
                _ => 0,
            };
            i += 1;
        }
        sum > 0
    }

    /// Starts a vote on a new subject: nobody has voted.
    pub fn set_subject(&mut self, subject: Votetype)
        ensures
            final(self).ready == 0,
            final(self).subject == subject,
            final(self).vote@ == Seq::new(old(self).vote@.len(), |i: int| Vote::NONE),
    {
        self.ready = 0;
        self.subject = subject;
        self.vote = none_votes(self.vote.len());
    }
}

/// `n` votes not cast yet.
fn none_votes(n: usize) -> (v: Vec<Vote>)
    ensures
        v@ == Seq::new(n as nat, |i: int| Vote::NONE),
{
    let mut v: Vec<Vote> = Vec::new();
    let mut i: usize = 0;
    while i < n
        invariant
            i <= n,
            v@ == Seq::new(i as nat, |k: int| Vote::NONE),
        decreases n - i,
    {
        v.push(Vote::NONE);
        i += 1;
        assert(v@ =~= Seq::new(i as nat, |k: int| Vote::NONE));
    }
    v
}

/// Replacing one vote changes the count of votes cast by the difference it makes.
proof fn lemma_votes_cast_update(votes: Seq<Vote>, c: int, v: Vote)
    requires
        0 <= c < votes.len(),
    ensures
        votes_cast(votes.update(c, v)) + (if votes[c] != Vote::NONE {
            1int
        } else {
            0int
        }) == votes_cast(votes) + (if v != Vote::NONE {
            1int
        } else {
            0int
        }),
    decreases votes.len(),
{
    let u = votes.update(c, v);
    if c == votes.len() - 1 {
        assert(u.drop_last() =~= votes.drop_last());
    } else {
        assert(u.drop_last() =~= votes.drop_last().update(c, v));
        lemma_votes_cast_update(votes.drop_last(), c, v);
    }
}

/// The votes cast are at most all votes, and all of them exactly when none is missing.
proof fn lemma_votes_cast_all(votes: Seq<Vote>)
    ensures
        votes_cast(votes) <= votes.len(),
        (votes_cast(votes) == votes.len()) == (forall|i: int|
            0 <= i < votes.len() ==> #[trigger] votes[i] != Vote::NONE),
    decreases votes.len(),
{
    if votes.len() > 0 {
        let d = votes.drop_last();
        lemma_votes_cast_all(d);
        if forall|i: int| 0 <= i < votes.len() ==> #[trigger] votes[i] != Vote::NONE {
            assert forall|i: int| 0 <= i < d.len() implies #[trigger] d[i] != Vote::NONE by {
                assert(d[i] == votes[i]);
            }
        }
        if votes_cast(votes) == votes.len() {
            assert forall|i: int| 0 <= i < votes.len() implies #[trigger] votes[i] != Vote::NONE by {
                if i < d.len() {
                    assert(d[i] == votes[i]);
                }
            }
        }
    }
}

/// A vote that has just been opened counts no votes, as nobody has voted.
pub proof fn law_new_vote_counts(n: nat)
    ensures
        votes_cast(Seq::new(n, |i: int| Vote::NONE)) == 0,
    decreases n,
{
    if n > 0 {
        assert(Seq::new(n, |i: int| Vote::NONE).drop_last() =~= Seq::new(
            (n - 1) as nat,
            |i: int| Vote::NONE,
        ));
        law_new_vote_counts((n - 1) as nat);
    }
}

/// Casting a vote keeps `ready` equal to the number of votes cast.
pub proof fn law_set_vote_counts(votes: Seq<Vote>, ready: int, c: int, v: Vote)
    requires
        ready == votes_cast(votes),
        0 <= c < votes.len(),
        v != Vote::NONE,
    ensures
        ready + (if votes[c] == Vote::NONE {
            1int
        } else {
            0int
        }) == votes_cast(votes.update(c, v)),
{
    lemma_votes_cast_update(votes, c, v);
}

/// When `ready` counts the votes cast, everyone is ready exactly when everyone voted.
pub proof fn law_all_ready(votes: Seq<Vote>, ready: int)
    requires
        ready == votes_cast(votes),
    ensures
        (ready == votes.len()) == (forall|i: int|
            0 <= i < votes.len() ==> #[trigger] votes[i] != Vote::NONE),
{
    lemma_votes_cast_all(votes);
}

/// How many of the votes are `v`.
pub open spec fn count_vote(votes: Seq<Vote>, v: Vote) -> int
    decreases votes.len(),
{
    if votes.len() == 0 {
        0
    } else {
        count_vote(votes.drop_last(), v) + if votes.last() == v {
            1int
        } else {
            0int
        }
    }
}

proof fn lemma_vote_score_counts(votes: Seq<Vote>)
    ensures
        vote_score(votes) == count_vote(votes, Vote::AGREE) - count_vote(votes, Vote::DECLINE),
    decreases votes.len(),
{
    if votes.len() > 0 {
        lemma_vote_score_counts(votes.drop_last());
    }
}

/// The score of the votes is the number of agreements less the number of refusals; so a
/// vote is accepted exactly when more of the first four players agree than decline, and
/// a tie is not accepted.
pub proof fn law_vote_score(votes: Seq<Vote>)
    ensures
        vote_score(votes) == count_vote(votes, Vote::AGREE) - count_vote(votes, Vote::DECLINE),
        votes.len() >= 4 ==> (vote_score(votes.take(4)) > 0 <==> count_vote(votes.take(4), Vote::AGREE)
            > count_vote(votes.take(4), Vote::DECLINE)),
{
    lemma_vote_score_counts(votes);
    lemma_vote_score_counts(votes.take(4));
}

} // verus!
