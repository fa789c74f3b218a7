//! The follow mission.

use ra_engine::follow::{follow_action, FollowAction, FollowFacts};

fn follower() -> FollowFacts {
    FollowFacts {
        following: true,
        alive: true,
        target: Some(9),
        target_alive: true,
        target_cell: Some((4, 4)),
        cell: Some((1, 1)),
        destination: None,
        has_route: false,
    }
}

#[test]
fn follower_chases_until_target_is_gone() {
    let f = follower();
    assert_eq!(follow_action(&f), FollowAction::Chase { x: 4, y: 4 });
    assert_eq!(follow_action(&FollowFacts { destination: Some((Some(4), Some(4))), ..f }), FollowAction::Nothing);
    assert_eq!(follow_action(&FollowFacts { cell: Some((4, 4)), ..f }), FollowAction::Nothing);
    assert_eq!(follow_action(&FollowFacts { cell: Some((4, 4)), has_route: true, ..f }), FollowAction::HoldHere);
    assert_eq!(
        follow_action(&FollowFacts { cell: Some((4, 4)), destination: Some((Some(1), None)), ..f }),
        FollowAction::HoldHere
    );
    assert_eq!(follow_action(&FollowFacts { target_alive: false, ..f }), FollowAction::StopFollowing);
    assert_eq!(follow_action(&FollowFacts { target_cell: None, ..f }), FollowAction::StopFollowing);
    assert_eq!(follow_action(&FollowFacts { target: None, ..f }), FollowAction::EndMission);
    assert_eq!(follow_action(&FollowFacts { following: false, ..f }), FollowAction::Nothing);
    assert_eq!(follow_action(&FollowFacts { alive: false, ..f }), FollowAction::Nothing);
    assert_eq!(follow_action(&FollowFacts { cell: None, ..f }), FollowAction::Nothing);
}
