//! The selection engine: a weighted random draw over the roster.
//!
//! Friends whose chance has decayed below the floor — one text event's worth
//! of weight, 0.25 points — are excluded from suggestion; a friend with chance
//! exactly at the floor is still eligible. Over the eligible friends the draw
//! weights each by `max(chance, 0)`: a negative chance is a legitimate
//! outcome of repeated heavy contact and counts as zero probability mass, it
//! never makes selection fail. Selection fails only when nobody is eligible
//! (`NoEligibleFriend`) or every eligible chance is non-positive
//! (`DegenerateWeights`).

use vstd::prelude::*;

use crate::errors::AkcError;
use crate::projection::REDUCTION_TEXT;
use crate::roster::AkcConfig;
use crate::roster::FriendInfo;
use crate::roster::FriendModel;
use crate::roster::friends_view;

verus! {

/// The friends whose chance reaches the floor, in roster order.
pub open spec fn eligible_model(roster: Seq<FriendModel>, minimum_chance: int) -> Seq<FriendModel> {
    roster.filter(|f: FriendModel| f.chance >= minimum_chance)
}

/// A chance clamped below at zero: the probability mass a friend carries.
pub open spec fn mass_of(chance: int) -> int {
    if chance > 0 {
        chance
    } else {
        0
    }
}

/// Total probability mass of a sequence of friends.
pub open spec fn positive_mass(roster: Seq<FriendModel>) -> int
    decreases roster.len(),
{
    if roster.len() == 0 {
        0
    } else {
        positive_mass(roster.drop_last()) + mass_of(roster.last().chance)
    }
}

/// `pick` falls in the mass interval of the friend at `i`: the prefix mass
/// before `i` covers at most `pick`, and `i`'s own mass covers the rest.
/// Exactly one index of a sequence satisfies this for a given `pick` below
/// the total mass.
pub open spec fn selects(eligible: Seq<FriendModel>, pick: int, i: int) -> bool {
    &&& 0 <= i < eligible.len()
    &&& eligible[i].chance > 0
    &&& positive_mass(eligible.take(i)) <= pick
    &&& pick < positive_mass(eligible.take(i)) + eligible[i].chance
}

/// Prefix masses never decrease.
proof fn lemma_positive_mass_monotone(roster: Seq<FriendModel>, a: int, b: int)
    requires
        0 <= a <= b <= roster.len(),
    ensures
        positive_mass(roster.take(a)) <= positive_mass(roster.take(b)),
    decreases b - a,
{
    if a < b {
        lemma_positive_mass_monotone(roster, a, b - 1);
        assert(roster.take(b).drop_last() =~= roster.take(b - 1));
    }
}

/// The draw is deterministic in `pick`: no two indices own the same point of
/// the mass line.
pub proof fn lemma_selects_unique(eligible: Seq<FriendModel>, pick: int, i: int, j: int)
    requires
        selects(eligible, pick, i),
        selects(eligible, pick, j),
    ensures
        i == j,
{
    if i < j {
        lemma_positive_mass_monotone(eligible, i + 1, j);
        assert(eligible.take(i + 1).drop_last() =~= eligible.take(i));
        assert(eligible.take(i + 1).last() == eligible[i]);
    } else if j < i {
        lemma_positive_mass_monotone(eligible, j + 1, i);
        assert(eligible.take(j + 1).drop_last() =~= eligible.take(j));
        assert(eligible.take(j + 1).last() == eligible[j]);
    }
}

/// The mass of `n` friends with representable chances is at most `n` times
/// the largest chance.
proof fn lemma_positive_mass_bound(roster: Seq<FriendModel>)
    requires
        crate::roster::chances_representable(roster),
    ensures
        0 <= positive_mass(roster) <= roster.len() * (i64::MAX as int),
    decreases roster.len(),
{
    if roster.len() > 0 {
        let rest = roster.drop_last();
        assert forall|i: int| 0 <= i < rest.len() implies i64::MIN <= (#[trigger] rest[i]).chance
            <= i64::MAX by {
            assert(rest[i] == roster[i]);
        }
        lemma_positive_mass_bound(rest);
        assert(roster[roster.len() - 1] == roster.last());
    }
}

/// Chances read off friend records are representable.
proof fn lemma_friends_chances_representable(friends: Seq<FriendInfo>)
    ensures
        crate::roster::chances_representable(friends_view(friends)),
{
    assert forall|i: int| 0 <= i < friends_view(friends).len() implies i64::MIN <= (#[trigger]
    friends_view(friends)[i]).chance <= i64::MAX by {
        assert(friends_view(friends)[i] == friends[i]@);
    }
}

/// The friends whose chance reaches the given floor, in roster order.
#[verifier::loop_isolation(false)]
fn filter_by_minimum_chance(config: &AkcConfig, minimum_chance: i64) -> (eligible: Vec<FriendInfo>)
    ensures
        friends_view(eligible@) == eligible_model(config@, minimum_chance as int),
{
    let mut eligible: Vec<FriendInfo> = Vec::new();
    let mut i: usize = 0;
    while i < config.friends.len()
        invariant
            i <= config.friends@.len(),
            friends_view(eligible@) == eligible_model(config@.take(i as int), minimum_chance as int),
        decreases config.friends@.len() - i,
    {
        proof {
            reveal_with_fuel(Seq::filter, 2);
            assert(config@.take(i as int + 1).drop_last() =~= config@.take(i as int));
            assert(config@.take(i as int + 1).last() == config@[i as int]);
            assert(eligible_model(config@.take(i as int + 1), minimum_chance as int)
                == if config@[i as int].chance >= minimum_chance {
                eligible_model(config@.take(i as int), minimum_chance as int).push(
                    config@[i as int],
                )
            } else {
                eligible_model(config@.take(i as int), minimum_chance as int)
            });
        }
        let f: &FriendInfo = &config.friends[i];
        proof {
            assert(f@ == config@[i as int]);
        }
        if f.chance >= minimum_chance {
            let ghost prev = eligible@;
            eligible.push(f.clone());
            proof {
                assert forall|j: int| 0 <= j < prev.len() implies friends_view(eligible@)[j]
                    == friends_view(prev)[j] by {
                    assert(eligible@[j] == prev[j]);
                }
                assert(friends_view(eligible@) =~= eligible_model(
                    config@.take(i as int + 1),
                    minimum_chance as int,
                ));
            }
        }
        i += 1;
    }
    proof {
        assert(config@.take(config@.len() as int) =~= config@);
    }
    eligible
}

/// The friends the suggestion draw may return: those whose chance is at
/// least one text event's reduction.
pub fn filter_config_by_enough_chance(config: &AkcConfig) -> (eligible: Vec<FriendInfo>)
    ensures
        friends_view(eligible@) == eligible_model(config@, REDUCTION_TEXT as int),
{
    filter_by_minimum_chance(config, REDUCTION_TEXT)
}

/// Total probability mass carried by these friends.
#[verifier::loop_isolation(false)]
fn compute_positive_mass(eligible: &Vec<FriendInfo>) -> (mass: u128)
    ensures
        mass as int == positive_mass(friends_view(eligible@)),
{
    proof {
        lemma_friends_chances_representable(eligible@);
    }
    let ghost el = friends_view(eligible@);
    let mut mass: u128 = 0;
    let mut i: usize = 0;
    while i < eligible.len()
        invariant
            i <= eligible@.len(),
            mass as int == positive_mass(el.take(i as int)),
        decreases eligible@.len() - i,
    {
        proof {
            assert(el.take(i as int + 1).drop_last() =~= el.take(i as int));
            assert(el.take(i as int + 1).last() == el[i as int]);
            assert forall|k: int| 0 <= k < el.take(i as int).len() implies i64::MIN <= (#[trigger]
            el.take(i as int)[k]).chance <= i64::MAX by {
                assert(el.take(i as int)[k] == el[k]);
            }
            lemma_positive_mass_bound(el.take(i as int));
        }
        let f: &FriendInfo = &eligible[i];
        proof {
            assert(f@ == el[i as int]);
        }
        if f.chance > 0 {
            mass = mass + (f.chance as u128);
        }
        i += 1;
    }
    proof {
        assert(el.take(el.len() as int) =~= el);
    }
    mass
}

/// Relies on `rand::random_range`: returns a value drawn uniformly from the
/// non-empty range `0..bound`, and panics only on an empty range, which the
/// precondition rules out. Nothing about which value comes back is assumed.
#[verifier::external_body]
fn random_below(bound: u128) -> (drawn: u128)
    requires
        0 < bound,
    ensures
        drawn < bound,
{
    rand::random_range(0..bound)
}

/// The weighted draw itself, deterministic in `pick`: walks the eligible
/// friends and returns the one whose mass interval contains `pick`. Friends
/// with non-positive chance own an empty interval and are never returned.
#[verifier::loop_isolation(false)]
pub fn suggest_from(config: &AkcConfig, minimum_chance: i64, pick: u128) -> (result: Result<
    String,
    AkcError,
>)
    requires
        positive_mass(eligible_model(config@, minimum_chance as int)) > 0 ==> (pick as int)
            < positive_mass(eligible_model(config@, minimum_chance as int)),
    ensures
        result is Ok <==> eligible_model(config@, minimum_chance as int).len() > 0
            && positive_mass(eligible_model(config@, minimum_chance as int)) > 0,
        eligible_model(config@, minimum_chance as int).len() == 0 ==> result == Err::<
            String,
            AkcError,
        >(AkcError::NoEligibleFriend),
        eligible_model(config@, minimum_chance as int).len() > 0 && positive_mass(
            eligible_model(config@, minimum_chance as int),
        ) == 0 ==> result == Err::<String, AkcError>(AkcError::DegenerateWeights),
        result matches Ok(name) ==> exists|i: int|
            #![trigger eligible_model(config@, minimum_chance as int)[i]]
            selects(eligible_model(config@, minimum_chance as int), pick as int, i) && name@
                == eligible_model(config@, minimum_chance as int)[i].name,
{
    let ghost el = eligible_model(config@, minimum_chance as int);
    let eligible = filter_by_minimum_chance(config, minimum_chance);
    if eligible.len() == 0 {
        return Err(AkcError::NoEligibleFriend);
    }
    let mass = compute_positive_mass(&eligible);
    if mass == 0 {
        return Err(AkcError::DegenerateWeights);
    }
    let mut acc: u128 = 0;
    let mut i: usize = 0;
    while i < eligible.len()
        invariant
            i <= eligible@.len(),
            acc as int == positive_mass(el.take(i as int)),
            (pick as int) >= positive_mass(el.take(i as int)),
        decreases eligible@.len() - i,
    {
        proof {
            assert(el.take(i as int + 1).drop_last() =~= el.take(i as int));
            assert(el.take(i as int + 1).last() == el[i as int]);
            lemma_friends_chances_representable(eligible@);
            assert forall|k: int| 0 <= k < el.take(i as int).len() implies i64::MIN <= (#[trigger]
            el.take(i as int)[k]).chance <= i64::MAX by {
                assert(el.take(i as int)[k] == el[k]);
            }
            lemma_positive_mass_bound(el.take(i as int));
        }
        let f: &FriendInfo = &eligible[i];
        proof {
            assert(f@ == el[i as int]);
        }
        if f.chance > 0 && pick < acc + (f.chance as u128) {
            proof {
                assert(selects(el, pick as int, i as int));
            }
            return Ok(f.name.clone());
        }
        if f.chance > 0 {
            acc = acc + (f.chance as u128);
        }
        i += 1;
    }
    proof {
        assert(el.take(el.len() as int) =~= el);
        assert(false);
    }
    vstd::pervasive::unreached()
}

/// What a suggestion promises of its outcome: `NoEligibleFriend` exactly when
/// nobody reaches the floor, `DegenerateWeights` exactly when the eligible
/// friends carry no positive mass, and otherwise the name of an eligible
/// friend with positive chance — which one depends on the random draw.
pub open spec fn suggest_contract(
    roster: Seq<FriendModel>,
    result: Result<String, AkcError>,
) -> bool {
    &&& (result is Ok <==> eligible_model(roster, REDUCTION_TEXT as int).len() > 0
        && positive_mass(eligible_model(roster, REDUCTION_TEXT as int)) > 0)
    &&& (eligible_model(roster, REDUCTION_TEXT as int).len() == 0 ==> result == Err::<
        String,
        AkcError,
    >(AkcError::NoEligibleFriend))
    &&& (eligible_model(roster, REDUCTION_TEXT as int).len() > 0 && positive_mass(
        eligible_model(roster, REDUCTION_TEXT as int),
    ) == 0 ==> result == Err::<String, AkcError>(AkcError::DegenerateWeights))
    &&& (result matches Ok(name) ==> exists|i: int|
        #![trigger eligible_model(roster, REDUCTION_TEXT as int)[i]]
        0 <= i < eligible_model(roster, REDUCTION_TEXT as int).len() && name@ == eligible_model(
            roster,
            REDUCTION_TEXT as int,
        )[i].name && eligible_model(roster, REDUCTION_TEXT as int)[i].chance > 0)
}

/// Whoever survives the eligibility filter was in the roster, and reaches
/// the floor.
proof fn lemma_eligible_members(roster: Seq<FriendModel>, minimum_chance: int)
    ensures
        forall|x: FriendModel|
            #[trigger] eligible_model(roster, minimum_chance).contains(x) ==> roster.contains(x)
                && x.chance >= minimum_chance,
    decreases roster.len(),
{
    reveal_with_fuel(Seq::filter, 2);
    if roster.len() == 0 {
    } else {
        lemma_eligible_members(roster.drop_last(), minimum_chance);
        assert forall|x: FriendModel|
            #[trigger] eligible_model(roster, minimum_chance).contains(x) implies roster.contains(
            x,
        ) && x.chance >= minimum_chance by {
            let kept = eligible_model(roster.drop_last(), minimum_chance);
            if x == roster.last() {
                assert(roster[roster.len() - 1] == x);
            } else {
                assert(kept.contains(x));
                assert(roster.drop_last().contains(x));
                let i = choose|i: int|
                    0 <= i < roster.drop_last().len() && roster.drop_last()[i] == x;
                assert(roster[i] == x);
            }
        }
    }
}

/// Selection exclusion: whatever name a suggestion returns belongs to a
/// roster friend whose chance reaches the floor and is positive — a friend
/// below the floor is never suggested, whatever the random draw did.
pub proof fn lemma_suggestion_respects_floor(
    roster: Seq<FriendModel>,
    result: Result<String, AkcError>,
)
    requires
        suggest_contract(roster, result),
    ensures
        result matches Ok(name) ==> exists|j: int|
            0 <= j < roster.len() && (#[trigger] roster[j]).name == name@ && roster[j].chance
                >= REDUCTION_TEXT && roster[j].chance > 0,
{
    if result is Ok {
        let name = result->Ok_0;
        let el = eligible_model(roster, REDUCTION_TEXT as int);
        let i = choose|i: int|
            #![trigger el[i]]
            0 <= i < el.len() && name@ == el[i].name && el[i].chance > 0;
        lemma_eligible_members(roster, REDUCTION_TEXT as int);
        assert(el.contains(el[i]));
        assert(roster.contains(el[i]));
        let j = choose|j: int| 0 <= j < roster.len() && roster[j] == el[i];
        assert(roster[j].name == name@ && roster[j].chance >= REDUCTION_TEXT && roster[j].chance
            > 0);
    }
}

/// Suggests one friend to contact: draws over the eligible friends with
/// probability proportional to `max(chance, 0)`. Which eligible friend comes
/// back depends on the random draw; that it is eligible and carries positive
/// chance does not.
pub fn suggest(config: &AkcConfig) -> (result: Result<String, AkcError>)
    ensures
        suggest_contract(config@, result),
{
    let eligible = filter_config_by_enough_chance(config);
    if eligible.len() == 0 {
        return Err(AkcError::NoEligibleFriend);
    }
    let mass = compute_positive_mass(&eligible);
    if mass == 0 {
        return Err(AkcError::DegenerateWeights);
    }
    let pick = random_below(mass);
    let result = suggest_from(config, REDUCTION_TEXT, pick);
    proof {
        if result is Ok {
            let name = result->Ok_0;
            let el = eligible_model(config@, REDUCTION_TEXT as int);
            let i = choose|i: int| selects(el, pick as int, i) && name@ == el[i].name;
            assert(0 <= i < el.len() && name@ == el[i].name && el[i].chance > 0);
        }
    }
    result
}

} // verus!
