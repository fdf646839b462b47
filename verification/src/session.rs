//! The operations a front end drives the engine with: adding, removing,
//! renaming and re-tiering friends, listing and searching the roster. Each
//! operation returns a structured outcome and either applies its whole change
//! or leaves the roster untouched.
//!
//! Persistence is the caller's concern: a front end loads the roster from its
//! store, calls one of these operations, and saves the result only on
//! success, so the store always moves from one consistent roster to another.

use vstd::prelude::*;
use vstd::multiset::Multiset;
use vstd::string::StringExecFns;

use crate::errors::AkcError;
use crate::roster::AkcConfig;
use crate::roster::FriendInfo;
use crate::roster::FriendModel;
use crate::roster::Level;
use crate::roster::friends_view;
use crate::roster::is_name_duplicate;
use crate::roster::level_default_chance;
use crate::roster::level_default_spec;
use crate::roster::names_view;
use crate::roster::roster_contains;
use crate::roster::unique_names;

verus! {

/// The tier named by a label: the three known labels and nothing else.
pub open spec fn spec_level_from(label: Seq<char>) -> Option<Level> {
    if label == "aji"@ {
        Some(Level::Aji)
    } else if label == "ki"@ {
        Some(Level::Ki)
    } else if label == "chi"@ {
        Some(Level::Chi)
    } else {
        None
    }
}

/// Parses a tier label. Unknown labels are rejected rather than silently
/// mapped to a zero default.
pub fn level_from_str(label: &String) -> (level: Option<Level>)
    ensures
        level == spec_level_from(label@),
{
    if label.eq(&String::from_str("aji")) {
        Some(Level::Aji)
    } else if label.eq(&String::from_str("ki")) {
        Some(Level::Ki)
    } else if label.eq(&String::from_str("chi")) {
        Some(Level::Chi)
    } else {
        None
    }
}

/// The record a newly added friend starts from: the tier's default chance.
pub open spec fn new_friend_model(name: Seq<char>, level: Level) -> FriendModel {
    FriendModel { name, chance: level_default_spec(level), level }
}

/// Builds the record of a new friend from a name and a tier label, or
/// nothing when the label is unknown.
pub fn make_friend(name: String, level: &String) -> (friend: Option<FriendInfo>)
    ensures
        match spec_level_from(level@) {
            Some(l) => friend matches Some(f) && f@ == new_friend_model(name@, l),
            None => friend is None,
        },
{
    match level_from_str(level) {
        Some(l) => Some(
            FriendInfo { name, chance: level_default_chance(l), level: l },
        ),
        None => None,
    }
}

/// Appends a friend to the roster, unless the name is already taken; a
/// duplicate name leaves the roster unchanged. Keeps the roster's names
/// unique.
pub fn add_friend(config: &mut AkcConfig, friend_info: FriendInfo) -> (result: Result<
    (),
    AkcError,
>)
    ensures
        result is Ok <==> !roster_contains(old(config)@, friend_info@.name),
        result is Ok ==> final(config)@ == old(config)@.push(friend_info@),
        result is Err ==> *final(config) == *old(config),
        result matches Err(e) ==> (e matches AkcError::DuplicateName(taken) && taken@
            == friend_info@.name),
        unique_names(old(config)@) ==> unique_names(final(config)@),
{
    let ghost orig = config@;
    if is_name_duplicate(config, &friend_info.name) {
        return Err(AkcError::DuplicateName(friend_info.name));
    }
    let ghost f = friend_info@;
    config.friends.push(friend_info);
    proof {
        assert(config@ =~= orig.push(f));
        if unique_names(orig) {
            assert forall|i: int, j: int| 0 <= i < j < config@.len() implies config@[i].name
                != config@[j].name by {
                if j == orig.len() {
                    assert(!roster_contains(orig, f.name));
                    assert(config@[i] == orig[i]);
                }
            }
        }
    }
    Ok(())
}

/// The roster without any friend of the given name.
pub open spec fn model_remove(roster: Seq<FriendModel>, name: Seq<char>) -> Seq<FriendModel> {
    roster.filter(|f: FriendModel| f.name != name)
}

/// Whatever survives a removal was in the roster before it.
proof fn lemma_remove_membership(roster: Seq<FriendModel>, name: Seq<char>)
    ensures
        forall|x: FriendModel|
            model_remove(roster, name).contains(x) ==> #[trigger] roster.contains(x),
    decreases roster.len(),
{
    reveal_with_fuel(Seq::filter, 2);
    if roster.len() == 0 {
    } else {
        lemma_remove_membership(roster.drop_last(), name);
        assert forall|x: FriendModel|
            model_remove(roster, name).contains(x) implies #[trigger] roster.contains(x) by {
            let kept = model_remove(roster.drop_last(), name);
            if x == roster.last() {
                assert(roster[roster.len() - 1] == x);
            } else {
                assert(kept.contains(x));
                assert(roster.drop_last().contains(x));
                let i = choose|i: int|
                    0 <= i < roster.drop_last().len() && roster.drop_last()[i] == x;
                assert(roster[i] == x);
            }
        }
    }
}

/// Removing a name keeps the remaining names unique.
proof fn lemma_remove_preserves_unique(roster: Seq<FriendModel>, name: Seq<char>)
    requires
        unique_names(roster),
    ensures
        unique_names(model_remove(roster, name)),
    decreases roster.len(),
{
    reveal_with_fuel(Seq::filter, 2);
    if roster.len() == 0 {
    } else {
        let rest = roster.drop_last();
        assert forall|i: int, j: int| 0 <= i < j < rest.len() implies rest[i].name
            != rest[j].name by {
            assert(rest[i] == roster[i]);
            assert(rest[j] == roster[j]);
        }
        lemma_remove_preserves_unique(rest, name);
        lemma_remove_membership(rest, name);
        let kept = model_remove(rest, name);
        if roster.last().name != name {
            assert(model_remove(roster, name) == kept.push(roster.last()));
            assert forall|i: int, j: int|
                0 <= i < j < kept.push(roster.last()).len() implies kept.push(roster.last())[i].name
                != kept.push(roster.last())[j].name by {
                if j == kept.len() {
                    let x = kept[i];
                    assert(kept.push(roster.last())[i] == x);
                    assert(kept.contains(x));
                    assert(rest.contains(x));
                    let k = choose|k: int| 0 <= k < rest.len() && rest[k] == x;
                    assert(roster[k] == x);
                    assert(roster[k].name != roster[roster.len() - 1].name);
                }
            }
        }
    }
}

/// Removes the friend with this name, or reports `UnknownName` and leaves the
/// roster unchanged.
#[verifier::loop_isolation(false)]
pub fn remove_friend(config: &mut AkcConfig, name: &String) -> (result: Result<(), AkcError>)
    ensures
        result is Ok <==> roster_contains(old(config)@, name@),
        result is Ok ==> final(config)@ == model_remove(old(config)@, name@),
        result is Err ==> *final(config) == *old(config) && result == Err::<(), AkcError>(
            AkcError::UnknownName,
        ),
        unique_names(old(config)@) ==> unique_names(final(config)@),
{
    let ghost orig = config@;
    if !is_name_duplicate(config, name) {
        return Err(AkcError::UnknownName);
    }
    let mut kept: Vec<FriendInfo> = Vec::new();
    let mut i: usize = 0;
    while i < config.friends.len()
        invariant
            config@ == orig,
            i <= config.friends@.len(),
            friends_view(kept@) == model_remove(orig.take(i as int), name@),
        decreases config.friends@.len() - i,
    {
        proof {
            reveal_with_fuel(Seq::filter, 2);
            assert(orig.take(i as int + 1).drop_last() =~= orig.take(i as int));
            assert(orig.take(i as int + 1).last() == orig[i as int]);
            assert(model_remove(orig.take(i as int + 1), name@) == if orig[i as int].name != name@ {
                model_remove(orig.take(i as int), name@).push(orig[i as int])
            } else {
                model_remove(orig.take(i as int), name@)
            });
        }
        let f: &FriendInfo = &config.friends[i];
        proof {
            assert(f@ == orig[i as int]);
        }
        if !f.name.eq(name) {
            let ghost prev = kept@;
            kept.push(f.clone());
            proof {
                let m = model_remove(orig.take(i as int + 1), name@);
                assert forall|j: int| 0 <= j < prev.len() implies friends_view(kept@)[j]
                    == friends_view(prev)[j] by {
                    assert(kept@[j] == prev[j]);
                }
                assert(friends_view(kept@) =~= m);
            }
        }
        i += 1;
    }
    proof {
        assert(orig.take(orig.len() as int) =~= orig);
        if unique_names(orig) {
            lemma_remove_preserves_unique(orig, name@);
        }
    }
    config.friends = kept;
    Ok(())
}


/// `i` is the first roster index whose friend bears `name`.
pub open spec fn is_first_match(roster: Seq<FriendModel>, name: Seq<char>, i: int) -> bool {
    &&& 0 <= i < roster.len()
    &&& roster[i].name == name
    &&& forall|j: int| 0 <= j < i ==> roster[j].name != name
}

/// Index of the first friend with this name, if any.
pub fn find_friend_index(config: &AkcConfig, name: &String) -> (found: Option<usize>)
    ensures
        match found {
            Some(i) => is_first_match(config@, name@, i as int),
            None => !roster_contains(config@, name@),
        },
{
    let mut i: usize = 0;
    while i < config.friends.len()
        invariant
            i <= config.friends@.len(),
            forall|j: int| 0 <= j < i ==> config@[j].name != name@,
        decreases config.friends@.len() - i,
    {
        if config.friends[i].name.eq(name) {
            assert(config@[i as int].name == name@);
            return Some(i);
        }
        i += 1;
    }
    None
}

/// Whether some friend other than the one named `name` already bears
/// `new_name` — the collision a rename must fail on.
pub open spec fn name_taken_by_other(
    roster: Seq<FriendModel>,
    new_name: Seq<char>,
    name: Seq<char>,
) -> bool {
    exists|j: int|
        0 <= j < roster.len() && (#[trigger] roster[j]).name == new_name && roster[j].name != name
}

fn is_name_taken_by_other(config: &AkcConfig, new_name: &String, name: &String) -> (taken: bool)
    ensures
        taken == name_taken_by_other(config@, new_name@, name@),
{
    let mut i: usize = 0;
    while i < config.friends.len()
        invariant
            i <= config.friends@.len(),
            forall|j: int|
                0 <= j < i ==> !((#[trigger] config@[j]).name == new_name@ && config@[j].name
                    != name@),
        decreases config.friends@.len() - i,
    {
        let f: &FriendInfo = &config.friends[i];
        proof {
            assert(f@ == config@[i as int]);
        }
        if f.name.eq(new_name) && !f.name.eq(name) {
            return true;
        }
        i += 1;
    }
    false
}

/// The record after a rename and/or re-tier: a new tier resets the chance to
/// that tier's default; a rename keeps chance and tier.
pub open spec fn edited_friend(
    f: FriendModel,
    new_name: Option<Seq<char>>,
    new_level: Option<Level>,
) -> FriendModel {
    let name = match new_name {
        Some(n) => n,
        None => f.name,
    };
    match new_level {
        Some(l) => FriendModel { name, chance: level_default_spec(l), level: l },
        None => FriendModel { name, chance: f.chance, level: f.level },
    }
}

/// The character sequence of an optional string.
pub open spec fn opt_name_view(name: Option<String>) -> Option<Seq<char>> {
    match name {
        Some(n) => Some(n@),
        None => None,
    }
}

/// The tier named by an optional label, where `Some(None)` means a label that
/// names no tier.
pub open spec fn opt_level_view(label: Option<String>) -> Option<Option<Level>> {
    match label {
        Some(l) => Some(spec_level_from(l@)),
        None => None,
    }
}

/// Renames and/or re-tiers the friend with this name. With nothing requested
/// the roster is returned unchanged; an unknown name, a rename onto another
/// friend's name, or an unknown tier label each leave the roster unchanged
/// and report the reason. Keeps the roster's names unique.
pub fn edit_friend(
    config: &mut AkcConfig,
    name: &String,
    new_name: Option<String>,
    new_level: Option<String>,
) -> (result: Result<(), AkcError>)
    ensures
        result is Err ==> *final(config) == *old(config),
        new_name is None && new_level is None ==> result == Ok::<(), AkcError>(()) && *final(config)
            == *old(config),
        (new_name is Some || new_level is Some) && !roster_contains(old(config)@, name@)
            ==> result == Err::<(), AkcError>(AkcError::UnknownName),
        (new_name is Some || new_level is Some) && roster_contains(old(config)@, name@) ==> (match (
            result,
            new_name,
        ) {
            (Err(AkcError::DuplicateName(taken)), Some(requested)) => taken@ == requested@
                && name_taken_by_other(old(config)@, requested@, name@),
            (Err(AkcError::DuplicateName(_)), None) => false,
            _ => !(new_name matches Some(requested) && name_taken_by_other(
                old(config)@,
                requested@,
                name@,
            )),
        }),
        (new_name is Some || new_level is Some) && roster_contains(old(config)@, name@) && !(
        new_name matches Some(requested) && name_taken_by_other(old(config)@, requested@, name@))
            ==> (match opt_level_view(new_level) {
            Some(None) => result == Err::<(), AkcError>(AkcError::InvalidTier),
            _ => result is Ok && (forall|i: int|
                is_first_match(old(config)@, name@, i) ==> final(config)@ == old(config)@.update(
                    i,
                    edited_friend(
                        old(config)@[i],
                        opt_name_view(new_name),
                        match opt_level_view(new_level) {
                            Some(l) => l,
                            None => None,
                        },
                    ),
                )),
        }),
        unique_names(old(config)@) ==> unique_names(final(config)@),
{
    let ghost orig = config@;
    if new_name.is_none() && new_level.is_none() {
        return Ok(());
    }
    let index: usize = match find_friend_index(config, name) {
        Some(i) => i,
        None => {
            return Err(AkcError::UnknownName);
        },
    };
    if let Some(ref requested) = new_name {
        if is_name_taken_by_other(config, requested, name) {
            return Err(AkcError::DuplicateName(requested.clone()));
        }
    }
    let parsed: Option<Level> = match &new_level {
        Some(label) => match level_from_str(label) {
            Some(l) => Some(l),
            None => {
                return Err(AkcError::InvalidTier);
            },
        },
        None => None,
    };
    let ghost nn = opt_name_view(new_name);
    let current: &FriendInfo = &config.friends[index];
    proof {
        assert(current@ == orig[index as int]);
    }
    let replacement_name: String = match new_name {
        Some(n) => n,
        None => current.name.clone(),
    };
    let replacement: FriendInfo = match parsed {
        Some(l) => FriendInfo {
            name: replacement_name,
            chance: level_default_chance(l),
            level: l,
        },
        None => FriendInfo {
            name: replacement_name,
            chance: current.chance,
            level: current.level,
        },
    };
    proof {
        assert(replacement@ == edited_friend(orig[index as int], nn, parsed));
    }
    let _removed: FriendInfo = config.friends.remove(index);
    config.friends.insert(index, replacement);
    proof {
        assert(config@ =~= orig.update(index as int, replacement@));
        assert forall|i: int| is_first_match(orig, name@, i) implies i == index as int by {}
        if unique_names(orig) {
            let updated = orig.update(index as int, replacement@);
            assert forall|i: int, j: int| 0 <= i < j < updated.len() implies updated[i].name
                != updated[j].name by {
                if i == index as int {
                    if updated[i].name == updated[j].name {
                        assert(orig[j].name == replacement@.name);
                        assert(replacement@.name == match nn {
                            Some(n) => n,
                            None => orig[index as int].name,
                        });
                    }
                } else if j == index as int {
                    if updated[i].name == updated[j].name {
                        assert(orig[i].name == replacement@.name);
                    }
                }
            }
        }
    }
    Ok(())
}

/// What adding a batch of friends of one tier does: names already present —
/// including names earlier in the same batch — are skipped and collected, in
/// order; the rest are appended with the tier's default chance.
pub open spec fn model_add_many(
    roster: Seq<FriendModel>,
    level: Level,
    names: Seq<Seq<char>>,
) -> (Seq<FriendModel>, Seq<Seq<char>>)
    decreases names.len(),
{
    if names.len() == 0 {
        (roster, Seq::empty())
    } else if roster_contains(roster, names[0]) {
        let rest = model_add_many(roster, level, names.drop_first());
        (rest.0, seq![names[0]] + rest.1)
    } else {
        model_add_many(roster.push(new_friend_model(names[0], level)), level, names.drop_first())
    }
}

/// Adds one friend per name, all of the given tier. Names already in the
/// roster (or repeated within the batch) are skipped and returned. An empty
/// batch or an unknown tier label changes nothing. Keeps the roster's names
/// unique.
#[verifier::loop_isolation(false)]
pub fn add_many_friends(config: &mut AkcConfig, level: &String, names: &Vec<String>) -> (result:
    Result<Vec<String>, AkcError>)
    ensures
        names@.len() == 0 ==> result == Err::<Vec<String>, AkcError>(AkcError::EmptyParticipants)
            && *final(config) == *old(config),
        names@.len() > 0 ==> (match spec_level_from(level@) {
            None => result == Err::<Vec<String>, AkcError>(AkcError::InvalidTier) && *final(config)
                == *old(config),
            Some(l) => match result {
                Ok(skipped) => final(config)@ == model_add_many(
                    old(config)@,
                    l,
                    names_view(names@),
                ).0 && names_view(skipped@) == model_add_many(
                    old(config)@,
                    l,
                    names_view(names@),
                ).1,
                Err(_) => false,
            },
        }),
        unique_names(old(config)@) ==> unique_names(final(config)@),
{
    let ghost orig = config@;
    let ghost ns = names_view(names@);
    if names.len() == 0 {
        return Err(AkcError::EmptyParticipants);
    }
    let tier: Level = match level_from_str(level) {
        Some(l) => l,
        None => {
            return Err(AkcError::InvalidTier);
        },
    };
    let mut duplicate_names: Vec<String> = Vec::new();
    let mut i: usize = 0;
    proof {
        assert(ns.skip(0) =~= ns);
    }
    while i < names.len()
        invariant
            i <= names@.len(),
            model_add_many(orig, tier, ns).0 == model_add_many(config@, tier, ns.skip(i as int)).0,
            model_add_many(orig, tier, ns).1 == names_view(duplicate_names@) + model_add_many(
                config@,
                tier,
                ns.skip(i as int),
            ).1,
            unique_names(orig) ==> unique_names(config@),
        decreases names@.len() - i,
    {
        proof {
            assert(ns.skip(i as int)[0] == ns[i as int]);
            assert(ns.skip(i as int).drop_first() =~= ns.skip(i as int + 1));
        }
        let name: &String = &names[i];
        if is_name_duplicate(config, name) {
            let ghost prev = duplicate_names@;
            duplicate_names.push(name.clone());
            proof {
                assert(names_view(duplicate_names@) =~= names_view(prev).push(name@));
                assert(names_view(prev).push(name@) + model_add_many(
                    config@,
                    tier,
                    ns.skip(i as int + 1),
                ).1 =~= names_view(prev) + (seq![ns[i as int]] + model_add_many(
                    config@,
                    tier,
                    ns.skip(i as int + 1),
                ).1));
            }
        } else {
            let ghost before = config@;
            config.friends.push(
                FriendInfo { name: name.clone(), chance: level_default_chance(tier), level: tier },
            );
            proof {
                assert(config@ =~= before.push(new_friend_model(name@, tier)));
                if unique_names(before) {
                    assert forall|a: int, b: int| 0 <= a < b < config@.len() implies config@[a].name
                        != config@[b].name by {
                        if b == before.len() {
                            assert(!roster_contains(before, name@));
                            assert(config@[a] == before[a]);
                        }
                    }
                }
            }
        }
        i += 1;
    }
    proof {
        assert(ns.skip(names@.len() as int) =~= Seq::<Seq<char>>::empty());
        assert(names_view(duplicate_names@) + Seq::<Seq<char>>::empty() =~= names_view(
            duplicate_names@,
        ));
    }
    Ok(duplicate_names)
}


/// The roster restricted to one tier, or the whole roster with no filter.
pub open spec fn model_level_filter(
    roster: Seq<FriendModel>,
    filter: Option<Level>,
) -> Seq<FriendModel> {
    match filter {
        None => roster,
        Some(l) => roster.filter(|f: FriendModel| f.level == l),
    }
}

/// Chances never increase along the sequence: the display order of a roster
/// sorted by chance.
pub open spec fn sorted_by_chance_desc(roster: Seq<FriendModel>) -> bool {
    forall|i: int, j: int| 0 <= i < j < roster.len() ==> roster[i].chance >= roster[j].chance
}

/// Index of a friend with the greatest chance.
#[verifier::loop_isolation(false)]
fn index_of_max_chance(friends: &Vec<FriendInfo>) -> (at: usize)
    requires
        friends@.len() > 0,
    ensures
        at < friends@.len(),
        forall|j: int|
            0 <= j < friends@.len() ==> friends_view(friends@)[j].chance <= friends_view(
                friends@,
            )[at as int].chance,
{
    let mut at: usize = 0;
    let mut i: usize = 1;
    while i < friends.len()
        invariant
            at < i <= friends@.len(),
            forall|j: int|
                0 <= j < i ==> friends_view(friends@)[j].chance <= friends_view(
                    friends@,
                )[at as int].chance,
        decreases friends@.len() - i,
    {
        if friends[i].chance > friends[at].chance {
            at = i;
        }
        i += 1;
    }
    at
}

/// Sorts friends by chance, greatest first. Only the order changes: the
/// records themselves are kept, as the unchanged multiset says.
#[verifier::loop_isolation(false)]
fn sort_friends_by_chance(friends: Vec<FriendInfo>) -> (sorted: Vec<FriendInfo>)
    ensures
        friends_view(sorted@).to_multiset() == friends_view(friends@).to_multiset(),
        sorted_by_chance_desc(friends_view(sorted@)),
{
    broadcast use vstd::seq_lib::group_seq_properties;

    let ghost whole = friends_view(friends@).to_multiset();
    let mut rest = friends;
    let mut sorted: Vec<FriendInfo> = Vec::new();
    proof {
        friends_view(sorted@).to_multiset_ensures();
        friends_view(rest@).to_multiset_ensures();
        assert(friends_view(sorted@).to_multiset().add(friends_view(rest@).to_multiset())
            =~= whole);
    }
    while rest.len() > 0
        invariant
            friends_view(sorted@).to_multiset().add(friends_view(rest@).to_multiset()) == whole,
            sorted_by_chance_desc(friends_view(sorted@)),
            forall|k: int, j: int|
                0 <= k < sorted@.len() && 0 <= j < rest@.len() ==> friends_view(
                    sorted@,
                )[k].chance >= friends_view(rest@)[j].chance,
        decreases rest@.len(),
    {
        let at = index_of_max_chance(&rest);
        let ghost rest_before = rest@;
        let ghost sorted_before = sorted@;
        let picked = rest.remove(at);
        let ghost p = picked@;
        sorted.push(picked);
        proof {
            assert(friends_view(sorted@) =~= friends_view(sorted_before).push(p));
            assert(friends_view(rest@) =~= friends_view(rest_before).remove(at as int));
            friends_view(sorted_before).to_multiset_ensures();
            friends_view(rest_before).to_multiset_ensures();
            assert(friends_view(rest_before)[at as int] == p);
            assert(friends_view(sorted@).to_multiset() =~= friends_view(
                sorted_before,
            ).to_multiset().insert(p));
            assert(friends_view(rest@).to_multiset() =~= friends_view(
                rest_before,
            ).to_multiset().remove(p));
            assert(friends_view(rest_before).to_multiset().count(p) > 0);
            assert(friends_view(sorted@).to_multiset().add(friends_view(rest@).to_multiset())
                =~= whole);
            assert forall|k: int, j: int|
                0 <= k < sorted@.len() && 0 <= j < rest@.len() implies friends_view(
                sorted@,
            )[k].chance >= friends_view(rest@)[j].chance by {
                let old_j = if j < at { j } else { j + 1 };
                assert(friends_view(rest@)[j] == friends_view(rest_before)[old_j]);
                if k < sorted_before.len() {
                    assert(friends_view(sorted@)[k] == friends_view(sorted_before)[k]);
                } else {
                    assert(friends_view(sorted@)[k] == p);
                }
            }
        }
    }
    proof {
        assert(friends_view(rest@).to_multiset() =~= Multiset::<FriendModel>::empty());
        assert(friends_view(sorted@).to_multiset().add(Multiset::<FriendModel>::empty())
            =~= friends_view(sorted@).to_multiset());
    }
    sorted
}

/// The roster as a front end lists it: restricted to one tier if asked, and
/// sorted by chance (greatest first) if asked. Without sorting the roster
/// order is kept; with sorting the same records come back reordered.
pub fn list_friends(config: &AkcConfig, level_filter: Option<Level>, sort_chance: bool) -> (listed:
    Vec<FriendInfo>)
    ensures
        !sort_chance ==> friends_view(listed@) == model_level_filter(config@, level_filter),
        sort_chance ==> friends_view(listed@).to_multiset() == model_level_filter(
            config@,
            level_filter,
        ).to_multiset() && sorted_by_chance_desc(friends_view(listed@)),
{
    let mut filtered: Vec<FriendInfo> = Vec::new();
    match level_filter {
        None => {
            filtered = config.clone().friends;
            proof {
                assert(friends_view(filtered@) == model_level_filter(config@, level_filter));
            }
        },
        Some(wanted) => {
            let mut i: usize = 0;
            while i < config.friends.len()
                invariant
                    i <= config.friends@.len(),
                    friends_view(filtered@) == model_level_filter(
                        config@.take(i as int),
                        Some(wanted),
                    ),
                decreases config.friends@.len() - i,
            {
                proof {
                    reveal_with_fuel(Seq::filter, 2);
                    assert(config@.take(i as int + 1).drop_last() =~= config@.take(i as int));
                    assert(config@.take(i as int + 1).last() == config@[i as int]);
                    assert(model_level_filter(config@.take(i as int + 1), Some(wanted))
                        == if config@[i as int].level == wanted {
                        model_level_filter(config@.take(i as int), Some(wanted)).push(
                            config@[i as int],
                        )
                    } else {
                        model_level_filter(config@.take(i as int), Some(wanted))
                    });
                }
                let f: &FriendInfo = &config.friends[i];
                proof {
                    assert(f@ == config@[i as int]);
                }
                if f.level == wanted {
                    let ghost prev = filtered@;
                    filtered.push(f.clone());
                    proof {
                        assert forall|j: int| 0 <= j < prev.len() implies friends_view(
                            filtered@,
                        )[j] == friends_view(prev)[j] by {
                            assert(filtered@[j] == prev[j]);
                        }
                        assert(friends_view(filtered@) =~= model_level_filter(
                            config@.take(i as int + 1),
                            Some(wanted),
                        ));
                    }
                }
                i += 1;
            }
            proof {
                assert(config@.take(config@.len() as int) =~= config@);
            }
        },
    }
    if sort_chance {
        sort_friends_by_chance(filtered)
    } else {
        filtered
    }
}


/// `needle` occurs contiguously somewhere in `hay`. The empty needle occurs
/// in everything.
pub open spec fn is_substring(hay: Seq<char>, needle: Seq<char>) -> bool {
    exists|o: int|
        0 <= o <= hay.len() - needle.len() && #[trigger] hay.subrange(o, o + needle.len())
            == needle
}

/// Whether `needle` occurs in `hay`, comparing characters case-sensitively.
#[verifier::loop_isolation(false)]
fn string_contains(hay: &String, needle: &String) -> (found: bool)
    ensures
        found == is_substring(hay@, needle@),
{
    let hay_s: &str = hay.as_str();
    let needle_s: &str = needle.as_str();
    let hay_len: usize = hay_s.unicode_len();
    let needle_len: usize = needle_s.unicode_len();
    if needle_len > hay_len {
        return false;
    }
    let mut o: usize = 0;
    while o <= hay_len - needle_len
        invariant
            o <= hay_len - needle_len + 1,
            forall|p: int|
                0 <= p < o ==> #[trigger] hay@.subrange(p, p + needle@.len()) != needle@,
        decreases hay_len - needle_len - o + 1,
    {
        let mut k: usize = 0;
        let mut matched = true;
        while k < needle_len
            invariant
                o + needle_len <= hay_len,
                k <= needle_len,
                matched <==> (forall|q: int| 0 <= q < k ==> hay@[o + q] == needle@[q]),
            decreases needle_len - k,
        {
            let hay_char = hay_s.get_char(o + k);
            let needle_char = needle_s.get_char(k);
            if hay_char != needle_char {
                proof {
                    assert(hay@[o + k as int] != needle@[k as int]);
                }
                matched = false;
            }
            k += 1;
        }
        if matched {
            proof {
                assert(hay@.subrange(o as int, o as int + needle@.len()) =~= needle@);
            }
            return true;
        }
        proof {
            let q = choose|q: int| 0 <= q < needle@.len() && hay@[o + q] != needle@[q];
            assert(hay@.subrange(o as int, o as int + needle@.len())[q] == hay@[o + q]);
        }
        o += 1;
    }
    false
}

/// The roster records whose name contains the query as a substring.
pub open spec fn model_search(roster: Seq<FriendModel>, query: Seq<char>) -> Seq<FriendModel> {
    roster.filter(|f: FriendModel| is_substring(f.name, query))
}

/// The friends whose name contains the query, case-sensitively, in roster
/// order.
#[verifier::loop_isolation(false)]
pub fn search_friends(config: &AkcConfig, query: &String) -> (found: Vec<FriendInfo>)
    ensures
        friends_view(found@) == model_search(config@, query@),
{
    let mut found: Vec<FriendInfo> = Vec::new();
    let mut i: usize = 0;
    while i < config.friends.len()
        invariant
            i <= config.friends@.len(),
            friends_view(found@) == model_search(config@.take(i as int), query@),
        decreases config.friends@.len() - i,
    {
        proof {
            reveal_with_fuel(Seq::filter, 2);
            assert(config@.take(i as int + 1).drop_last() =~= config@.take(i as int));
            assert(config@.take(i as int + 1).last() == config@[i as int]);
            assert(model_search(config@.take(i as int + 1), query@) == if is_substring(
                config@[i as int].name,
                query@,
            ) {
                model_search(config@.take(i as int), query@).push(config@[i as int])
            } else {
                model_search(config@.take(i as int), query@)
            });
        }
        let f: &FriendInfo = &config.friends[i];
        proof {
            assert(f@ == config@[i as int]);
        }
        if string_contains(&f.name, query) {
            let ghost prev = found@;
            found.push(f.clone());
            proof {
                assert forall|j: int| 0 <= j < prev.len() implies friends_view(found@)[j]
                    == friends_view(prev)[j] by {
                    assert(found@[j] == prev[j]);
                }
                assert(friends_view(found@) =~= model_search(config@.take(i as int + 1), query@));
            }
        }
        i += 1;
    }
    proof {
        assert(config@.take(config@.len() as int) =~= config@);
    }
    found
}


/// The text label each tier is stored and displayed under.
pub open spec fn spec_level_label(level: Level) -> Seq<char> {
    match level {
        Level::Aji => "aji"@,
        Level::Ki => "ki"@,
        Level::Chi => "chi"@,
    }
}

/// The label a tier is stored under.
pub fn level_label(level: Level) -> (label: String)
    ensures
        label@ == spec_level_label(level),
{
    match level {
        Level::Aji => String::from_str("aji"),
        Level::Ki => String::from_str("ki"),
        Level::Chi => String::from_str("chi"),
    }
}

/// A tier's stored label always parses back to the same tier: the roster's
/// tier column round-trips.
pub proof fn lemma_level_label_round_trip(level: Level)
    ensures
        spec_level_from(spec_level_label(level)) == Some(level),
{
    reveal_strlit("aji");
    reveal_strlit("ki");
    reveal_strlit("chi");
    assert("aji"@.len() == 3);
    assert("ki"@.len() == 2);
    assert("chi"@.len() == 3);
    assert("aji"@[0] == 'a');
    assert("chi"@[0] == 'c');
}

} // verus!
