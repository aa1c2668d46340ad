use jasshaus::voting::{Vote, Votinghandler, Votingtype};

#[test]
fn votes_are_counted() {
    let mut v: Votinghandler<Votingtype> = Votinghandler::new(4);
    assert_eq!(v.ready, 0);
    assert_eq!(v.subject, Votingtype::NONE);
    assert_eq!(v.vote, vec![Vote::NONE; 4]);
    v.agree(0);
    v.decline(1);
    v.agree(2);
    assert_eq!(v.ready, 3);
    assert!(!v.all_ready());
    v.set_vote(3, Vote::AGREE);
    assert_eq!(v.ready, 4);
    assert!(v.all_ready());
    assert!(v.is_accepted());
    // changing a vote does not count twice
    v.set_vote(0, Vote::DECLINE);
    assert_eq!(v.ready, 4);
    assert!(!v.is_accepted());
}

#[test]
fn a_tie_is_not_accepted() {
    let mut v: Votinghandler<Votingtype> = Votinghandler::new(4);
    v.agree(0);
    v.decline(1);
    v.set_vote(2, Vote::NEUTRAL);
    v.set_vote(3, Vote::NEUTRAL);
    assert!(v.all_ready());
    assert!(!v.is_accepted());
}

#[test]
fn a_new_subject_resets_the_votes() {
    let mut v: Votinghandler<Votingtype> = Votinghandler::new(4);
    v.agree(1);
    v.set_subject(Votingtype::REVANCHE);
    assert_eq!(v.ready, 0);
    assert_eq!(v.subject, Votingtype::REVANCHE);
    assert_eq!(v.vote, vec![Vote::NONE; 4]);
}
