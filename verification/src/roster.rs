//! The roster data model: friends, their closeness levels, and the
//! fixed-point weight ("chance") each one carries.
//!
//! Chances are stored in micro-units: one unit is 1e-6 of a weight point, so
//! the level defaults 50.0, 5.0 and 1.0 are 50_000_000, 5_000_000 and
//! 1_000_000 units. Every quantity the engine computes is exact integer
//! arithmetic on these units, which makes the projection bit-for-bit
//! reproducible from the event ledger.

use vstd::prelude::*;

verus! {

/// Number of micro-units in one weight point.
pub const CHANCE_SCALE: i64 = 1_000_000;

/// Default chance of an `Aji` (closest tier) friend: 50.0 points.
pub const DEFAULT_CHANCE_AJI: i64 = 50_000_000;

/// Default chance of a `Ki` (middle tier) friend: 5.0 points.
pub const DEFAULT_CHANCE_KI: i64 = 5_000_000;

/// Default chance of a `Chi` (outer tier) friend: 1.0 points.
pub const DEFAULT_CHANCE_CHI: i64 = 1_000_000;

/// Closeness tier of a friend. The tier fixes the friend's default chance,
/// which is both the value a new friend starts with and the anchor used when
/// chance lost by contact-event participants is redistributed.
#[derive(Clone, Copy, Debug, PartialEq, Eq, Structural)]
pub enum Level {
    Aji,
    Ki,
    Chi,
}

/// Mathematical image of a friend record: the name as a character sequence,
/// the chance as an unbounded integer of micro-units, and the tier.
pub ghost struct FriendModel {
    pub name: Seq<char>,
    pub chance: int,
    pub level: Level,
}

/// One friend of the roster.
pub struct FriendInfo {
    pub name: String,
    /// Current chance in micro-units; may become negative after repeated
    /// contact events.
    pub chance: i64,
    pub level: Level,
}

impl View for FriendInfo {
    type V = FriendModel;

    open spec fn view(&self) -> FriendModel {
        FriendModel { name: self.name@, chance: self.chance as int, level: self.level }
    }
}

impl Clone for FriendInfo {
    fn clone(&self) -> (r: Self)
        ensures
            r@ == self@,
    {
        FriendInfo { name: self.name.clone(), chance: self.chance, level: self.level }
    }
}

/// The roster: the current projection of the event ledger, one record per
/// friend.
pub struct AkcConfig {
    pub friends: Vec<FriendInfo>,
}

/// The models of a sequence of friend records.
pub open spec fn friends_view(friends: Seq<FriendInfo>) -> Seq<FriendModel> {
    friends.map_values(|f: FriendInfo| f@)
}

impl View for AkcConfig {
    type V = Seq<FriendModel>;

    open spec fn view(&self) -> Seq<FriendModel> {
        friends_view(self.friends@)
    }
}

impl Clone for AkcConfig {
    #[verifier::loop_isolation(false)]
    fn clone(&self) -> (r: Self)
        ensures
            r@ == self@,
    {
        let mut friends: Vec<FriendInfo> = Vec::new();
        let mut i: usize = 0;
        while i < self.friends.len()
            invariant
                i <= self.friends@.len(),
                friends_view(friends@) == friends_view(self.friends@).take(i as int),
            decreases self.friends@.len() - i,
        {
            let ghost prev = friends@;
            friends.push(self.friends[i].clone());
            proof {
                let m = friends_view(self.friends@);
                assert forall|j: int| 0 <= j < i implies friends_view(friends@)[j] == m[j] by {
                    assert(friends@[j] == prev[j]);
                    assert(friends_view(prev)[j] == m.take(i as int)[j]);
                }
                assert(friends_view(friends@) =~= m.take(i as int + 1));
            }
            i += 1;
        }
        proof {
            assert(friends_view(self.friends@).take(self.friends@.len() as int) =~= friends_view(
                self.friends@,
            ));
        }
        AkcConfig { friends }
    }
}

/// Default chance of a tier, as an unbounded integer.
pub open spec fn level_default_spec(level: Level) -> int {
    match level {
        Level::Aji => DEFAULT_CHANCE_AJI as int,
        Level::Ki => DEFAULT_CHANCE_KI as int,
        Level::Chi => DEFAULT_CHANCE_CHI as int,
    }
}

/// Every chance of the model lies in the 64-bit fixed-point range. True of
/// the view of any concrete roster.
pub open spec fn chances_representable(roster: Seq<FriendModel>) -> bool {
    forall|i: int| 0 <= i < roster.len() ==> i64::MIN <= (#[trigger] roster[i]).chance <= i64::MAX
}

/// The view of a concrete roster always has representable chances: each model
/// chance is read off a 64-bit field.
pub proof fn lemma_chances_representable(config: &AkcConfig)
    ensures
        chances_representable(config@),
{
    assert forall|i: int| 0 <= i < config@.len() implies i64::MIN <= (#[trigger] config@[i]).chance
        <= i64::MAX by {
        assert(config@[i] == config.friends@[i]@);
    }
}

/// The roster invariant: no two friends share a name.
pub open spec fn unique_names(roster: Seq<FriendModel>) -> bool {
    forall|i: int, j: int|
        0 <= i < j < roster.len() ==> roster[i].name != roster[j].name
}

/// Whether some friend of the roster bears this name.
pub open spec fn roster_contains(roster: Seq<FriendModel>, name: Seq<char>) -> bool {
    exists|i: int| 0 <= i < roster.len() && roster[i].name == name
}

/// Total mapping from a tier to its default chance in micro-units.
pub fn level_default_chance(level: Level) -> (chance: i64)
    ensures
        chance == level_default_spec(level),
{
    match level {
        Level::Aji => DEFAULT_CHANCE_AJI,
        Level::Ki => DEFAULT_CHANCE_KI,
        Level::Chi => DEFAULT_CHANCE_CHI,
    }
}

/// The character sequences of a sequence of strings.
pub open spec fn names_view(names: Seq<String>) -> Seq<Seq<char>> {
    names.map_values(|n: String| n@)
}

/// Whether `name` occurs in `names`.
pub fn contains_string(names: &Vec<String>, name: &String) -> (r: bool)
    ensures
        r == names_view(names@).contains(name@),
{
    let mut i: usize = 0;
    while i < names.len()
        invariant
            i <= names@.len(),
            forall|j: int| 0 <= j < i ==> names_view(names@)[j] != name@,
        decreases names@.len() - i,
    {
        if names[i].eq(name) {
            assert(names_view(names@)[i as int] == name@);
            return true;
        }
        i += 1;
    }
    false
}

/// Whether the roster already holds a friend with this name.
pub fn is_name_duplicate(config: &AkcConfig, name: &String) -> (r: bool)
    ensures
        r == roster_contains(config@, name@),
{
    let mut i: usize = 0;
    while i < config.friends.len()
        invariant
            i <= config.friends@.len(),
            forall|j: int| 0 <= j < i ==> config@[j].name != name@,
        decreases config.friends@.len() - i,
    {
        if config.friends[i].name.eq(name) {
            assert(config@[i as int].name == name@);
            return true;
        }
        i += 1;
    }
    false
}

} // verus!
