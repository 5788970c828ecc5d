use whistbook::error::WhistError;
use whistbook::whist::{duo_bids, solo_bids, Bid, Deal, Team};

fn points(bid: Bid, achieved: i16) -> i16 {
    bid.points(achieved)
}

#[test]
fn literal_table_checks() {
    assert_eq!(points(Bid::Solo(5), 5), 3);
    assert_eq!(points(Bid::Solo(5), 4), -4);
    assert_eq!(points(Bid::Duo(8), 13), 30);
    assert_eq!(points(Bid::Duo(8), 8), 8);
    assert_eq!(points(Bid::Duo(8), 7), -11);
    assert_eq!(points(Bid::GrandSlam, 13), 60);
    assert_eq!(points(Bid::GrandSlam, 12), -60);
    assert_eq!(points(Bid::Trull, 8), 16);
    assert_eq!(points(Bid::Trull, 7), -16);
}

#[test]
fn solo_rows() {
    assert_eq!(points(Bid::Solo(5), 13), 6);
    assert_eq!(points(Bid::Solo(6), 6), 4);
    assert_eq!(points(Bid::Solo(6), 5), -4);
    assert_eq!(points(Bid::Solo(7), 7), 5);
    assert_eq!(points(Bid::Solo(7), 6), -4);
    assert_eq!(points(Bid::Solo(8), 8), 7);
    assert_eq!(points(Bid::Solo(8), 13), 7);
    assert_eq!(points(Bid::Solo(8), 7), -8);
    assert_eq!(points(Bid::Solo(8), 0), -15);
}

#[test]
fn duo_rows() {
    assert_eq!(points(Bid::Duo(9), 9), 11);
    assert_eq!(points(Bid::Duo(9), 10), 14);
    assert_eq!(points(Bid::Duo(9), 8), -14);
    assert_eq!(points(Bid::Duo(10), 10), 14);
    assert_eq!(points(Bid::Duo(10), 9), -17);
    assert_eq!(points(Bid::Duo(11), 11), 17);
    assert_eq!(points(Bid::Duo(11), 12), 20);
    assert_eq!(points(Bid::Duo(12), 13), 30);
    assert_eq!(points(Bid::Duo(12), 12), 20);
    assert_eq!(points(Bid::Duo(12), 11), -23);
    assert_eq!(points(Bid::Duo(13), 13), 30);
    assert_eq!(points(Bid::Duo(13), 12), -26);
    assert_eq!(points(Bid::Duo(13), 0), -62);
}

#[test]
fn abondance_rows() {
    assert_eq!(points(Bid::Abondance(9), 9), 10);
    assert_eq!(points(Bid::Abondance(9), 10), 15);
    assert_eq!(points(Bid::Abondance(9), 11), 20);
    assert_eq!(points(Bid::Abondance(9), 12), 30);
    assert_eq!(points(Bid::Abondance(9), 13), 60);
    assert_eq!(points(Bid::Abondance(9), 8), -10);
    assert_eq!(points(Bid::Abondance(10), 10), 15);
    assert_eq!(points(Bid::Abondance(10), 9), -15);
    assert_eq!(points(Bid::Abondance(11), 11), 20);
    assert_eq!(points(Bid::Abondance(11), 10), -20);
    assert_eq!(points(Bid::Abondance(12), 12), 30);
    assert_eq!(points(Bid::Abondance(12), 13), 60);
    assert_eq!(points(Bid::Abondance(12), 11), -30);
}

#[test]
fn misery_and_slam_rows() {
    assert_eq!(points(Bid::SmallMisery, 0), 6);
    assert_eq!(points(Bid::SmallMisery, 1), -6);
    assert_eq!(points(Bid::LargeMisery, 0), 12);
    assert_eq!(points(Bid::LargeMisery, 13), -12);
    assert_eq!(points(Bid::OpenMisery, 0), 24);
    assert_eq!(points(Bid::OpenMisery, 2), -24);
    assert_eq!(points(Bid::Trull, 13), 16);
    assert_eq!(points(Bid::GrandSlam, 0), -60);
}

#[test]
fn points_is_deterministic() {
    for achieved in 0..=13 {
        assert_eq!(points(Bid::Duo(9), achieved), points(Bid::Duo(9), achieved));
        assert_eq!(points(Bid::Trull, achieved), points(Bid::Trull, achieved));
    }
}

#[test]
fn parse_canonical_labels() {
    assert_eq!(Bid::parse("Solo 5"), Ok(Bid::Solo(5)));
    assert_eq!(Bid::parse("Solo 6"), Ok(Bid::Solo(6)));
    assert_eq!(Bid::parse("Solo 7"), Ok(Bid::Solo(7)));
    assert_eq!(Bid::parse("Solo 8"), Ok(Bid::Solo(8)));
    assert_eq!(Bid::parse("Samen 8"), Ok(Bid::Duo(8)));
    assert_eq!(Bid::parse("Samen 9"), Ok(Bid::Duo(9)));
    assert_eq!(Bid::parse("Samen 10"), Ok(Bid::Duo(10)));
    assert_eq!(Bid::parse("Samen 11"), Ok(Bid::Duo(11)));
    assert_eq!(Bid::parse("Samen 12"), Ok(Bid::Duo(12)));
    assert_eq!(Bid::parse("Samen 13"), Ok(Bid::Duo(13)));
    assert_eq!(Bid::parse("Abondance 9"), Ok(Bid::Abondance(9)));
    assert_eq!(Bid::parse("Abondance 10"), Ok(Bid::Abondance(10)));
    assert_eq!(Bid::parse("Abondance 11"), Ok(Bid::Abondance(11)));
    assert_eq!(Bid::parse("Abondance 12"), Ok(Bid::Abondance(12)));
    assert_eq!(Bid::parse("Solo Slim"), Ok(Bid::GrandSlam));
    assert_eq!(Bid::parse("Kleine Miserie"), Ok(Bid::SmallMisery));
    assert_eq!(Bid::parse("Grote Miserie"), Ok(Bid::LargeMisery));
    assert_eq!(Bid::parse("Open Miserie"), Ok(Bid::OpenMisery));
    assert_eq!(Bid::parse("Troel"), Ok(Bid::Trull));
}

#[test]
fn parse_is_case_insensitive() {
    assert_eq!(Bid::parse("sOLO 5"), Ok(Bid::Solo(5)));
    assert_eq!(Bid::parse("SAMEN 13"), Ok(Bid::Duo(13)));
    assert_eq!(Bid::parse("abondance 12"), Ok(Bid::Abondance(12)));
    assert_eq!(Bid::parse("troel"), Ok(Bid::Trull));
    assert_eq!(Bid::parse("kleine miserie"), Ok(Bid::SmallMisery));
}

#[test]
fn parse_rejects_unknown_labels() {
    assert_eq!(Bid::parse(""), Err(WhistError::UnknownBid));
    assert_eq!(Bid::parse("Solo 9"), Err(WhistError::UnknownBid));
    assert_eq!(Bid::parse("Abondance 13"), Err(WhistError::UnknownBid));
    assert_eq!(Bid::parse("Samen  8"), Err(WhistError::UnknownBid));
    assert_eq!(Bid::parse("piccolo"), Err(WhistError::UnknownBid));
    assert_eq!(Bid::parse("Solo 5 "), Err(WhistError::UnknownBid));
}

#[test]
fn catalogue_lists() {
    let solo = solo_bids();
    assert_eq!(solo.len(), 12);
    assert_eq!(solo[0], "Solo 5");
    assert_eq!(solo[3], "Solo 8");
    assert_eq!(solo[4], "Kleine Miserie");
    assert_eq!(solo[6], "Open Miserie");
    assert_eq!(solo[7], "Abondance 9");
    assert_eq!(solo[11], "Solo Slim");
    let duo = duo_bids();
    assert_eq!(duo.len(), 7);
    assert_eq!(duo[0], "Samen 8");
    assert_eq!(duo[5], "Samen 13");
    assert_eq!(duo[6], "Troel");
    for label in solo.iter().chain(duo.iter()) {
        assert!(Bid::parse(label).is_ok(), "catalogue label must parse: {label}");
    }
}

#[test]
fn team_construction_checks_partition() {
    assert!(Team::new_solo(0, (1, 2, 3), 4).is_ok());
    assert!(Team::new_duo((1, 2), (0, 3), 4).is_ok());
    assert_eq!(
        Team::new_solo(0, (1, 2, 2), 4),
        Err(WhistError::InvalidTeamComposition)
    );
    assert_eq!(
        Team::new_solo(1, (1, 2, 3), 4),
        Err(WhistError::InvalidTeamComposition)
    );
    assert_eq!(
        Team::new_solo(0, (1, 2, 4), 4),
        Err(WhistError::InvalidTeamComposition)
    );
    assert_eq!(
        Team::new_solo(0, (1, 2, 3), 5),
        Err(WhistError::InvalidTeamComposition)
    );
    assert_eq!(
        Team::new_duo((0, 0), (1, 2), 4),
        Err(WhistError::InvalidTeamComposition)
    );
    assert_eq!(
        Team::new_duo((0, 1), (2, 2), 4),
        Err(WhistError::InvalidTeamComposition)
    );
    assert_eq!(
        Team::new_duo((0, 1), (1, 2), 4),
        Err(WhistError::InvalidTeamComposition)
    );
}

fn ok_team(r: Result<Team, WhistError>) -> Team {
    match r {
        Ok(t) => t,
        Err(e) => panic!("expected a team, got {e:?}"),
    }
}

#[test]
fn deal_validation() {
    let solo_team = ok_team(Team::new_solo(0, (1, 2, 3), 4));
    let duo_team = ok_team(Team::new_duo((0, 1), (2, 3), 4));
    assert!(Deal::new(solo_team, Bid::Solo(5), 6, 4).is_ok());
    assert!(Deal::new(duo_team, Bid::Duo(8), 9, 4).is_ok());
    assert_eq!(
        Deal::new(solo_team, Bid::Solo(9), 6, 4).unwrap_err(),
        WhistError::UnknownBid
    );
    assert_eq!(
        Deal::new(solo_team, Bid::Solo(5), 14, 4).unwrap_err(),
        WhistError::OutOfRangeTricks
    );
    assert_eq!(
        Deal::new(solo_team, Bid::Solo(5), -1, 4).unwrap_err(),
        WhistError::OutOfRangeTricks
    );
    assert_eq!(
        Deal::new(solo_team, Bid::Duo(8), 9, 4).unwrap_err(),
        WhistError::InvalidTeamComposition
    );
    assert_eq!(
        Deal::new(duo_team, Bid::GrandSlam, 13, 4).unwrap_err(),
        WhistError::InvalidTeamComposition
    );
    assert_eq!(
        Deal::new(solo_team, Bid::Trull, 8, 4).unwrap_err(),
        WhistError::InvalidTeamComposition
    );
}

#[test]
fn distribution_is_zero_sum() {
    let solo_team = ok_team(Team::new_solo(2, (0, 1, 3), 4));
    let duo_team = ok_team(Team::new_duo((3, 0), (1, 2), 4));
    for achieved in 0..=13 {
        let d = Deal::new(solo_team, Bid::Abondance(10), achieved, 4).unwrap();
        assert_eq!(d.to_points(4).total(), 0);
        let d = Deal::new(duo_team, Bid::Duo(11), achieved, 4).unwrap();
        assert_eq!(d.to_points(4).total(), 0);
    }
}

#[test]
fn distribution_triples_the_lone_declarer() {
    let team = ok_team(Team::new_solo(1, (0, 2, 3), 4));
    let deal = Deal::new(team, Bid::Solo(5), 6, 4).unwrap();
    let delta = deal.to_points(4);
    assert_eq!(delta.get(1), 12);
    assert_eq!(delta.get(0), -4);
    assert_eq!(delta.get(2), -4);
    assert_eq!(delta.get(3), -4);
}

#[test]
fn distribution_splits_between_partners() {
    let team = ok_team(Team::new_duo((1, 2), (0, 3), 4));
    let deal = Deal::new(team, Bid::Duo(8), 9, 4).unwrap();
    let delta = deal.to_points(4);
    assert_eq!(delta.get(0), -11);
    assert_eq!(delta.get(1), 11);
    assert_eq!(delta.get(2), 11);
    assert_eq!(delta.get(3), -11);
}

#[test]
fn error_messages() {
    assert_eq!(WhistError::UnknownBid.message(), "unknown bid");
    assert_eq!(
        WhistError::InvalidTeamComposition.message(),
        "invalid team composition"
    );
    assert_eq!(
        WhistError::OutOfRangeTricks.message(),
        "achieved tricks out of range"
    );
    assert_eq!(WhistError::DiffOutOfRange.message(), "diff index out of range");
    assert_eq!(
        WhistError::ScoreOverflow.message(),
        "score out of representable range"
    );
}
