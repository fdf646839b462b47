//! The projection engine: the deterministic fold that derives the current
//! per-friend chances from the event ledger.
//!
//! Applying one event of reduction `r` with `n` participants:
//! 1. `total_reduction = r * n`.
//! 2. `baseline` = sum of the chances of the friends not participating.
//! 3. `unit = total_reduction / baseline` if the baseline is positive, else
//!    `0`. In micro-units any positive baseline is at least one unit, so
//!    "positive" is exactly the guard against a degenerate (near-zero or
//!    negative) denominator.
//! 4. Every non-participant gains `default(level) * unit` — proportional to
//!    its tier default, not its current chance, so the roster total is not
//!    conserved in general. This is the intended behaviour of the weight
//!    model, not a defect to fix.
//! 5. Every participant loses `r`, unconditionally; chances may go negative.
//!
//! The update is not invertible: the baseline of step 2 cannot be recovered
//! from the result. Undo is therefore never inverse arithmetic; it is
//! deletion of the last ledger entry followed by a full replay from tier
//! defaults, which [`rebuild_chances_from_memories`] performs.

use vstd::prelude::*;

use crate::errors::AkcError;
use crate::ledger::MemoryInfo;
use crate::ledger::MemoryKind;
use crate::ledger::MemoryModel;
use crate::roster::AkcConfig;
use crate::roster::CHANCE_SCALE;
use crate::roster::FriendInfo;
use crate::roster::FriendModel;
use crate::roster::friends_view;
use crate::roster::DEFAULT_CHANCE_AJI;
use crate::roster::Level;
use crate::roster::contains_string;
use crate::roster::is_name_duplicate;
use crate::roster::level_default_chance;
use crate::roster::level_default_spec;
use crate::roster::names_view;
use crate::roster::roster_contains;
use crate::roster::chances_representable;

verus! {

/// Chance reduction of a hangout event: 2.0 points.
pub const REDUCTION_HANGOUT: i64 = 2_000_000;

/// Chance reduction of a video call event: 1.0 points.
pub const REDUCTION_VIDEO_CALL: i64 = 1_000_000;

/// Chance reduction of a call event: 0.5 points.
pub const REDUCTION_CALL: i64 = 500_000;

/// Chance reduction of a text event: 0.25 points.
pub const REDUCTION_TEXT: i64 = 250_000;

/// Reduction constant of an event kind, as an unbounded integer.
pub open spec fn reduction_spec(kind: MemoryKind) -> int {
    match kind {
        MemoryKind::Hangout => REDUCTION_HANGOUT as int,
        MemoryKind::VideoCall => REDUCTION_VIDEO_CALL as int,
        MemoryKind::Call => REDUCTION_CALL as int,
        MemoryKind::Text => REDUCTION_TEXT as int,
    }
}

/// Total mapping from an event kind to its reduction constant in micro-units.
pub fn reduction_from_kind(kind: MemoryKind) -> (reduction: i64)
    ensures
        reduction == reduction_spec(kind),
{
    match kind {
        MemoryKind::Hangout => REDUCTION_HANGOUT,
        MemoryKind::VideoCall => REDUCTION_VIDEO_CALL,
        MemoryKind::Call => REDUCTION_CALL,
        MemoryKind::Text => REDUCTION_TEXT,
    }
}

/// Sum of the chances of the friends whose name is not in `excluded`: the
/// baseline that lost chance is redistributed over.
pub open spec fn model_total_excluding(roster: Seq<FriendModel>, excluded: Seq<Seq<char>>) -> int
    decreases roster.len(),
{
    if roster.len() == 0 {
        0
    } else {
        model_total_excluding(roster.drop_last(), excluded) + if excluded.contains(
            roster.last().name,
        ) {
            0
        } else {
            roster.last().chance
        }
    }
}

/// The gain distributed per unit of tier default: `total_reduction` divided
/// by the baseline, scaled to micro-units, or zero when the baseline is not
/// positive (the degenerate-denominator policy of the engine).
pub open spec fn model_unit(total_reduction: int, current_total_chance: int) -> int {
    if current_total_chance <= 0 {
        0
    } else {
        total_reduction * CHANCE_SCALE / current_total_chance
    }
}

/// What a friend of this tier gains when one unit of gain is distributed.
pub open spec fn model_gain(level: Level, unit: int) -> int {
    level_default_spec(level) * unit / (CHANCE_SCALE as int)
}

/// The roster after every friend not named in `excluded` has gained
/// `default(level) * unit` micro-units.
pub open spec fn model_increase(
    roster: Seq<FriendModel>,
    unit: int,
    excluded: Seq<Seq<char>>,
) -> Seq<FriendModel> {
    roster.map_values(
        |f: FriendModel|
            if excluded.contains(f.name) {
                f
            } else {
                FriendModel { name: f.name, chance: f.chance + model_gain(f.level, unit), level: f.level }
            },
    )
}

/// The roster after every friend named in `names` has lost `reduction`
/// micro-units.
pub open spec fn model_decrease(
    roster: Seq<FriendModel>,
    reduction: int,
    names: Seq<Seq<char>>,
) -> Seq<FriendModel> {
    roster.map_values(
        |f: FriendModel|
            if names.contains(f.name) {
                FriendModel { name: f.name, chance: f.chance - reduction, level: f.level }
            } else {
                f
            },
    )
}

/// The roster produced by applying one contact event: participants lose the
/// kind's reduction, everyone else gains in proportion to its tier default.
pub open spec fn model_apply(
    roster: Seq<FriendModel>,
    kind: MemoryKind,
    names: Seq<Seq<char>>,
) -> Seq<FriendModel> {
    let reduction = reduction_spec(kind);
    let unit = model_unit(reduction * names.len(), model_total_excluding(roster, names));
    model_decrease(model_increase(roster, unit, names), reduction, names)
}

/// The roster with every chance reset to its tier default.
pub open spec fn model_reset(roster: Seq<FriendModel>) -> Seq<FriendModel> {
    roster.map_values(
        |f: FriendModel| FriendModel { name: f.name, chance: level_default_spec(f.level), level: f.level },
    )
}

/// Whether every participant name occurs in the roster.
pub open spec fn participants_known(roster: Seq<FriendModel>, names: Seq<Seq<char>>) -> bool {
    forall|i: int| 0 <= i < names.len() ==> roster_contains(roster, #[trigger] names[i])
}

/// The participant names that are missing from the roster, in the order they
/// were given.
pub open spec fn model_unknown(roster: Seq<FriendModel>, names: Seq<Seq<char>>) -> Seq<Seq<char>> {
    names.filter(|n: Seq<char>| !roster_contains(roster, n))
}

/// Whether every gained chance stays within the 64-bit fixed-point range.
pub open spec fn increase_fits(roster: Seq<FriendModel>, unit: int, excluded: Seq<Seq<char>>) -> bool {
    forall|i: int|
        0 <= i < roster.len() && !excluded.contains((#[trigger] roster[i]).name)
            ==> i64::MIN <= roster[i].chance + model_gain(roster[i].level, unit) <= i64::MAX
}

/// Whether every reduced chance stays within the 64-bit fixed-point range.
pub open spec fn decrease_fits(roster: Seq<FriendModel>, reduction: int, names: Seq<Seq<char>>) -> bool {
    forall|i: int|
        0 <= i < roster.len() && names.contains((#[trigger] roster[i]).name)
            ==> i64::MIN <= roster[i].chance - reduction
}

/// Whether applying the event keeps every chance representable.
pub open spec fn apply_fits(roster: Seq<FriendModel>, kind: MemoryKind, names: Seq<Seq<char>>) -> bool {
    let reduction = reduction_spec(kind);
    let unit = model_unit(reduction * names.len(), model_total_excluding(roster, names));
    increase_fits(roster, unit, names) && decrease_fits(model_increase(roster, unit, names), reduction, names)
}

/// Whether the event can be applied to the roster: it has participants, all
/// of them are known, and the resulting chances are representable.
pub open spec fn event_applies(roster: Seq<FriendModel>, kind: MemoryKind, names: Seq<Seq<char>>) -> bool {
    names.len() > 0 && participants_known(roster, names) && apply_fits(roster, kind, names)
}

/// Baseline of the redistribution: the summed chance of every friend whose
/// name is not in `excluded_names`.
pub fn get_config_total_chance(config: &AkcConfig, excluded_names: &Vec<String>) -> (total: i128)
    ensures
        total == model_total_excluding(config@, names_view(excluded_names@)),
{
    let ghost excluded = names_view(excluded_names@);
    let mut total: i128 = 0;
    let mut i: usize = 0;
    while i < config.friends.len()
        invariant
            excluded == names_view(excluded_names@),
            i <= config.friends@.len(),
            total == model_total_excluding(config@.take(i as int), excluded),
            -(i as int) * (i64::MAX as int + 1) <= total <= (i as int) * (i64::MAX as int),
        decreases config.friends@.len() - i,
    {
        proof {
            let taken = config@.take(i as int + 1);
            assert(taken.drop_last() =~= config@.take(i as int));
            assert(taken.last() == config@[i as int]);
        }
        let f: &FriendInfo = &config.friends[i];
        let in_excluded = contains_string(excluded_names, &f.name);
        if !in_excluded {
            total = total + (f.chance as i128);
        }
        i += 1;
    }
    proof {
        assert(config@.take(config@.len() as int) =~= config@);
    }
    total
}

/// The participant names that the roster does not hold, in the order given,
/// duplicates kept.
pub fn get_unknown_names(config: &AkcConfig, names: &Vec<String>) -> (unknown: Vec<String>)
    ensures
        names_view(unknown@) == model_unknown(config@, names_view(names@)),
{
    let ghost s = names_view(names@);
    let mut unknown: Vec<String> = Vec::new();
    let mut i: usize = 0;
    while i < names.len()
        invariant
            s == names_view(names@),
            i <= names@.len(),
            names_view(unknown@) == model_unknown(config@, s.take(i as int)),
        decreases names@.len() - i,
    {
        proof {
            reveal_with_fuel(Seq::filter, 2);
            assert(s.take(i as int + 1).drop_last() =~= s.take(i as int));
            assert(s.take(i as int + 1).last() == s[i as int]);
            assert(model_unknown(config@, s.take(i as int + 1)) == if !roster_contains(
                config@,
                s[i as int],
            ) {
                model_unknown(config@, s.take(i as int)).push(s[i as int])
            } else {
                model_unknown(config@, s.take(i as int))
            });
        }
        let name: &String = &names[i];
        if !is_name_duplicate(config, name) {
            unknown.push(name.clone());
            proof {
                assert(names_view(unknown@) =~= model_unknown(config@, s.take(i as int + 1)));
            }
        }
        i += 1;
    }
    proof {
        assert(s.take(names@.len() as int) =~= s);
    }
    unknown
}

/// No participant is missing from the roster exactly when the sequence of
/// unknown names is empty.
pub proof fn lemma_unknown_iff(roster: Seq<FriendModel>, names: Seq<Seq<char>>)
    ensures
        (model_unknown(roster, names).len() == 0) <==> participants_known(roster, names),
    decreases names.len(),
{
    if names.len() == 0 {
    } else {
        lemma_unknown_iff(roster, names.drop_last());
        reveal_with_fuel(Seq::filter, 2);
        assert(model_unknown(roster, names) == if !roster_contains(roster, names.last()) {
            model_unknown(roster, names.drop_last()).push(names.last())
        } else {
            model_unknown(roster, names.drop_last())
        });
        assert forall|i: int| 0 <= i < names.drop_last().len() implies names.drop_last()[i]
            == names[i] by {}
        if participants_known(roster, names) {
            assert(participants_known(roster, names.drop_last()));
            assert(roster_contains(roster, names[names.len() - 1]));
        }
        if participants_known(roster, names.drop_last()) && roster_contains(roster, names.last()) {
            assert forall|i: int| 0 <= i < names.len() implies roster_contains(
                roster,
                #[trigger] names[i],
            ) by {
                if i < names.len() - 1 {
                    assert(roster_contains(roster, names.drop_last()[i]));
                }
            }
        }
    }
}

/// Replaces every friend's chance with its tier default. Pure reset of the
/// projection cache, used as the starting point of every replay.
#[verifier::loop_isolation(false)]
pub fn reset_chances_to_level_defaults(config: &mut AkcConfig)
    ensures
        final(config)@ == model_reset(old(config)@),
{
    let ghost orig = config@;
    let mut new_friends: Vec<FriendInfo> = Vec::new();
    let mut i: usize = 0;
    while i < config.friends.len()
        invariant
            config@ == orig,
            i <= config.friends@.len(),
            friends_view(new_friends@) == model_reset(orig).take(i as int),
        decreases config.friends@.len() - i,
    {
        let f: &FriendInfo = &config.friends[i];
        proof {
            assert(f@ == orig[i as int]);
        }
        let ghost prev = new_friends@;
        new_friends.push(
            FriendInfo { name: f.name.clone(), chance: level_default_chance(f.level), level: f.level },
        );
        proof {
            let m = model_reset(orig);
            assert forall|j: int| 0 <= j < i implies friends_view(new_friends@)[j] == m[j] by {
                assert(new_friends@[j] == prev[j]);
                assert(friends_view(prev)[j] == m.take(i as int)[j]);
            }
            assert(friends_view(new_friends@) =~= m.take(i as int + 1));
        }
        i += 1;
    }
    proof {
        assert(model_reset(orig).take(orig.len() as int) =~= model_reset(orig));
    }
    config.friends = new_friends;
}

/// Adds `default(level) * unit` micro-units to every friend not named in
/// `excluded_names`: the redistribution pass of one contact event.
#[verifier::loop_isolation(false)]
pub fn increase_chances_by_unit(
    config: &mut AkcConfig,
    unit_added_chance: u64,
    excluded_names: &Vec<String>,
)
    requires
        increase_fits(old(config)@, unit_added_chance as int, names_view(excluded_names@)),
    ensures
        final(config)@ == model_increase(
            old(config)@,
            unit_added_chance as int,
            names_view(excluded_names@),
        ),
{
    let ghost orig = config@;
    let ghost excluded = names_view(excluded_names@);
    let ghost unit = unit_added_chance as int;
    let mut new_friends: Vec<FriendInfo> = Vec::new();
    let mut i: usize = 0;
    while i < config.friends.len()
        invariant
            config@ == orig,
            excluded == names_view(excluded_names@),
            unit == unit_added_chance as int,
            increase_fits(orig, unit, excluded),
            i <= config.friends@.len(),
            friends_view(new_friends@) == model_increase(orig, unit, excluded).take(i as int),
        decreases config.friends@.len() - i,
    {
        let f: &FriendInfo = &config.friends[i];
        proof {
            assert(f@ == orig[i as int]);
        }
        let nf: FriendInfo;
        if contains_string(excluded_names, &f.name) {
            nf = f.clone();
        } else {
            let default = level_default_chance(f.level);
            proof {
                assert((default as u128) * (unit_added_chance as u128) <= u128::MAX)
                    by (nonlinear_arith)
                    requires
                        0 <= default <= DEFAULT_CHANCE_AJI as int,
                        0 <= unit_added_chance <= u64::MAX,
                        DEFAULT_CHANCE_AJI == 50_000_000i64,
                ;
            }
            let gain: u128 = (default as u128) * (unit_added_chance as u128) / (CHANCE_SCALE
                as u128);
            proof {
                assert(gain as int == model_gain(orig[i as int].level, unit));
                assert(gain <= (default as u128) * (unit_added_chance as u128)) by {
                    vstd::arithmetic::div_mod::lemma_div_is_ordered_by_denominator(
                        ((default as u128) * (unit_added_chance as u128)) as int,
                        1,
                        CHANCE_SCALE as int,
                    );
                }
            }
            let new_chance: i128 = (f.chance as i128) + (gain as i128);
            proof {
                assert(i64::MIN <= orig[i as int].chance + model_gain(orig[i as int].level, unit)
                    <= i64::MAX);
                assert(new_chance as int == orig[i as int].chance + model_gain(
                    orig[i as int].level,
                    unit,
                ));
            }
            nf = FriendInfo { name: f.name.clone(), chance: new_chance as i64, level: f.level };
        }
        let ghost prev = new_friends@;
        new_friends.push(nf);
        proof {
            let m = model_increase(orig, unit, excluded);
            assert forall|j: int| 0 <= j < i implies friends_view(new_friends@)[j] == m[j] by {
                assert(new_friends@[j] == prev[j]);
                assert(friends_view(prev)[j] == m.take(i as int)[j]);
            }
            assert(friends_view(new_friends@) =~= m.take(i as int + 1));
        }
        i += 1;
    }
    proof {
        assert(model_increase(orig, unit, excluded).take(orig.len() as int) =~= model_increase(
            orig,
            unit,
            excluded,
        ));
    }
    config.friends = new_friends;
}

/// Subtracts `reduction` micro-units from every friend named in `names`: the
/// loss pass of one contact event.
#[verifier::loop_isolation(false)]
pub fn decrease_chances_by_reduction(config: &mut AkcConfig, reduction: i64, names: &Vec<String>)
    requires
        0 <= reduction,
        decrease_fits(old(config)@, reduction as int, names_view(names@)),
    ensures
        final(config)@ == model_decrease(old(config)@, reduction as int, names_view(names@)),
{
    let ghost orig = config@;
    let ghost selected = names_view(names@);
    let mut new_friends: Vec<FriendInfo> = Vec::new();
    let mut i: usize = 0;
    while i < config.friends.len()
        invariant
            config@ == orig,
            selected == names_view(names@),
            0 <= reduction,
            decrease_fits(orig, reduction as int, selected),
            i <= config.friends@.len(),
            friends_view(new_friends@) == model_decrease(orig, reduction as int, selected).take(
                i as int,
            ),
        decreases config.friends@.len() - i,
    {
        let f: &FriendInfo = &config.friends[i];
        proof {
            assert(f@ == orig[i as int]);
        }
        let nf: FriendInfo;
        if contains_string(names, &f.name) {
            let new_chance: i128 = (f.chance as i128) - (reduction as i128);
            proof {
                assert(i64::MIN <= orig[i as int].chance - reduction);
            }
            nf = FriendInfo { name: f.name.clone(), chance: new_chance as i64, level: f.level };
        } else {
            nf = f.clone();
        }
        let ghost prev = new_friends@;
        new_friends.push(nf);
        proof {
            let m = model_decrease(orig, reduction as int, selected);
            assert forall|j: int| 0 <= j < i implies friends_view(new_friends@)[j] == m[j] by {
                assert(new_friends@[j] == prev[j]);
                assert(friends_view(prev)[j] == m.take(i as int)[j]);
            }
            assert(friends_view(new_friends@) =~= m.take(i as int + 1));
        }
        i += 1;
    }
    proof {
        assert(model_decrease(orig, reduction as int, selected).take(orig.len() as int)
            =~= model_decrease(orig, reduction as int, selected));
    }
    config.friends = new_friends;
}


/// Per-friend representability of one event's outcome, used while scanning
/// the roster before committing any change.
pub open spec fn event_fit_at(
    roster: Seq<FriendModel>,
    reduction: int,
    unit: int,
    names: Seq<Seq<char>>,
    j: int,
) -> bool {
    if names.contains(roster[j].name) {
        i64::MIN <= roster[j].chance - reduction
    } else {
        i64::MIN <= roster[j].chance + model_gain(roster[j].level, unit) <= i64::MAX
    }
}

/// Per-friend fit of the whole roster is the same statement as the fit of
/// the two passes the engine runs.
proof fn lemma_fit_pointwise(roster: Seq<FriendModel>, kind: MemoryKind, names: Seq<Seq<char>>)
    ensures
        apply_fits(roster, kind, names) <==> (forall|j: int|
            0 <= j < roster.len() ==> #[trigger] event_fit_at(
                roster,
                reduction_spec(kind),
                model_unit(
                    reduction_spec(kind) * names.len(),
                    model_total_excluding(roster, names),
                ),
                names,
                j,
            )),
{
    let reduction = reduction_spec(kind);
    let unit = model_unit(reduction * names.len(), model_total_excluding(roster, names));
    let increased = model_increase(roster, unit, names);
    assert(forall|j: int|
        0 <= j < roster.len() ==> (#[trigger] increased[j]).name == roster[j].name);
    assert(forall|j: int|
        0 <= j < roster.len() && names.contains(roster[j].name) ==> (#[trigger] increased[j]).chance
            == roster[j].chance);
    if apply_fits(roster, kind, names) {
        assert forall|j: int| 0 <= j < roster.len() implies event_fit_at(
            roster,
            reduction,
            unit,
            names,
            j,
        ) by {
            if names.contains(roster[j].name) {
                assert(increased[j].name == roster[j].name);
            }
        }
    }
    if forall|j: int|
        0 <= j < roster.len() ==> #[trigger] event_fit_at(roster, reduction, unit, names, j) {
        assert forall|i: int|
            0 <= i < roster.len() && !names.contains((#[trigger] roster[i]).name) implies i64::MIN
            <= roster[i].chance + model_gain(roster[i].level, unit) <= i64::MAX by {
            assert(event_fit_at(roster, reduction, unit, names, i));
        }
        assert forall|i: int|
            0 <= i < increased.len() && names.contains(
                (#[trigger] increased[i]).name,
            ) implies i64::MIN <= increased[i].chance - reduction by {
            assert(event_fit_at(roster, reduction, unit, names, i));
        }
    }
}

/// A roster whose baseline is not zero has a friend outside the
/// participant set.
proof fn lemma_total_excluding_member(roster: Seq<FriendModel>, names: Seq<Seq<char>>)
    ensures
        model_total_excluding(roster, names) != 0 ==> exists|i: int|
            0 <= i < roster.len() && !names.contains((#[trigger] roster[i]).name),
    decreases roster.len(),
{
    if roster.len() == 0 {
    } else {
        lemma_total_excluding_member(roster.drop_last(), names);
        if model_total_excluding(roster, names) != 0 {
            if !names.contains(roster.last().name) {
                assert(roster[roster.len() - 1] == roster.last());
            } else {
                let i = choose|i: int|
                    0 <= i < roster.drop_last().len() && !names.contains(
                        (#[trigger] roster.drop_last()[i]).name,
                    );
                assert(roster.drop_last()[i] == roster[i]);
            }
        }
    }
}

/// A per-unit gain beyond the 64-bit range cannot be applied: some friend
/// outside the participant set would gain at least that much, and its chance
/// would leave the representable range.
proof fn lemma_unit_overflow_unfit(roster: Seq<FriendModel>, kind: MemoryKind, names: Seq<Seq<char>>)
    requires
        chances_representable(roster),
        model_unit(reduction_spec(kind) * names.len(), model_total_excluding(roster, names))
            > u64::MAX,
    ensures
        !apply_fits(roster, kind, names),
{
    let tc = model_total_excluding(roster, names);
    let unit = model_unit(reduction_spec(kind) * names.len(), tc);
    assert(tc > 0);
    lemma_total_excluding_member(roster, names);
    let i = choose|i: int| 0 <= i < roster.len() && !names.contains((#[trigger] roster[i]).name);
    let scale = CHANCE_SCALE as int;
    let default = level_default_spec(roster[i].level);
    assert(model_gain(roster[i].level, unit) >= unit) by {
        vstd::arithmetic::mul::lemma_mul_inequality(scale, default, unit);
        vstd::arithmetic::div_mod::lemma_div_is_ordered(scale * unit, default * unit, scale);
        vstd::arithmetic::div_mod::lemma_div_multiples_vanish(unit, scale);
    }
    assert(roster[i].chance + model_gain(roster[i].level, unit) > i64::MAX);
    assert(!increase_fits(roster, unit, names));
}

/// Everything the application of one event promises of its outcome: success
/// exactly when the event applies, the `model_apply` roster on success, and
/// the precise error otherwise — `EmptyParticipants` for no participants,
/// `UnknownParticipant` carrying the missing names, `WeightOverflow` for a
/// result outside the fixed-point range.
pub open spec fn apply_contract(
    roster: Seq<FriendModel>,
    kind: MemoryKind,
    ns: Seq<Seq<char>>,
    result: Result<AkcConfig, AkcError>,
) -> bool {
    &&& (result is Ok <==> event_applies(roster, kind, ns))
    &&& (result matches Ok(new_config) ==> new_config@ == model_apply(roster, kind, ns))
    &&& (ns.len() == 0 ==> result == Err::<AkcConfig, AkcError>(AkcError::EmptyParticipants))
    &&& (ns.len() > 0 && !participants_known(roster, ns) ==> (match result {
        Err(AkcError::UnknownParticipant(unknown)) => names_view(unknown@) == model_unknown(
            roster,
            ns,
        ),
        _ => false,
    }))
    &&& (ns.len() > 0 && participants_known(roster, ns) && !apply_fits(roster, kind, ns)
        ==> result == Err::<AkcConfig, AkcError>(AkcError::WeightOverflow))
}

/// Applies one contact event to the roster, as `model_apply` describes, or
/// reports exactly why it cannot be applied. The given roster is never
/// modified; on success the updated roster is returned.
#[verifier::loop_isolation(false)]
pub fn apply_memory_to_config(
    config: &AkcConfig,
    kind: MemoryKind,
    names: &Vec<String>,
) -> (result: Result<AkcConfig, AkcError>)
    ensures
        apply_contract(config@, kind, names_view(names@), result),
{
    let ghost ns = names_view(names@);
    if names.len() == 0 {
        return Err(AkcError::EmptyParticipants);
    }
    let unknown = get_unknown_names(config, names);
    proof {
        lemma_unknown_iff(config@, ns);
    }
    if unknown.len() > 0 {
        return Err(AkcError::UnknownParticipant(unknown));
    }
    let reduction = reduction_from_kind(kind);
    let total_chance: i128 = get_config_total_chance(config, names);
    let ghost unit = model_unit(reduction_spec(kind) * ns.len(), model_total_excluding(config@, ns));
    let unit_added_chance: u64;
    if total_chance <= 0 {
        unit_added_chance = 0;
    } else {
        proof {
            assert((reduction as u128) * (names@.len() as u128) * (CHANCE_SCALE as u128)
                <= u128::MAX) by (nonlinear_arith)
                requires
                    0 <= reduction <= REDUCTION_HANGOUT as int,
                    REDUCTION_HANGOUT == 2_000_000i64,
                    CHANCE_SCALE == 1_000_000i64,
                    names@.len() <= u64::MAX,
            ;
        }
        let total_reduction: u128 = (reduction as u128) * (names.len() as u128);
        let scaled: u128 = total_reduction * (CHANCE_SCALE as u128);
        let quotient: u128 = scaled / (total_chance as u128);
        proof {
            assert(quotient as int == unit);
        }
        if quotient > (u64::MAX as u128) {
            proof {
                crate::roster::lemma_chances_representable(config);
                lemma_unit_overflow_unfit(config@, kind, ns);
            }
            return Err(AkcError::WeightOverflow);
        }
        unit_added_chance = quotient as u64;
    }
    let ghost red = reduction_spec(kind);
    let mut i: usize = 0;
    while i < config.friends.len()
        invariant
            unit == unit_added_chance as int,
            i <= config.friends@.len(),
            forall|j: int| 0 <= j < i ==> event_fit_at(config@, red, unit, ns, j),
        decreases config.friends@.len() - i,
    {
        let f: &FriendInfo = &config.friends[i];
        proof {
            assert(f@ == config@[i as int]);
        }
        if contains_string(names, &f.name) {
            let new_chance: i128 = (f.chance as i128) - (reduction as i128);
            if new_chance < (i64::MIN as i128) {
                proof {
                    assert(!event_fit_at(config@, red, unit, ns, i as int));
                    lemma_fit_pointwise(config@, kind, ns);
                }
                return Err(AkcError::WeightOverflow);
            }
        } else {
            let default = level_default_chance(f.level);
            proof {
                assert((default as u128) * (unit_added_chance as u128) <= u128::MAX)
                    by (nonlinear_arith)
                    requires
                        0 <= default <= DEFAULT_CHANCE_AJI as int,
                        DEFAULT_CHANCE_AJI == 50_000_000i64,
                        0 <= unit_added_chance <= u64::MAX,
                ;
            }
            let gain: u128 = (default as u128) * (unit_added_chance as u128) / (CHANCE_SCALE
                as u128);
            proof {
                assert(gain as int == model_gain(config@[i as int].level, unit));
                vstd::arithmetic::div_mod::lemma_div_is_ordered_by_denominator(
                    ((default as u128) * (unit_added_chance as u128)) as int,
                    1,
                    CHANCE_SCALE as int,
                );
            }
            let new_chance: i128 = (f.chance as i128) + (gain as i128);
            if new_chance < (i64::MIN as i128) || new_chance > (i64::MAX as i128) {
                proof {
                    assert(!event_fit_at(config@, red, unit, ns, i as int));
                    lemma_fit_pointwise(config@, kind, ns);
                }
                return Err(AkcError::WeightOverflow);
            }
        }
        i += 1;
    }
    proof {
        lemma_fit_pointwise(config@, kind, ns);
        assert(apply_fits(config@, kind, ns));
    }
    let mut updated = config.clone();
    increase_chances_by_unit(&mut updated, unit_added_chance, names);
    decrease_chances_by_reduction(&mut updated, reduction, names);
    Ok(updated)
}

/// The gain per unit of tier default, in micro-units: `total_reduction`
/// divided by the baseline, or zero for a non-positive baseline.
/// [`apply_memory_to_config`] computes the same quotient inline over wider
/// integers, because an event's total reduction can exceed what an `i64`
/// holds.
pub fn get_unit_added_chance(total_reduction: i64, current_total_chance: i64) -> (unit: u64)
    requires
        0 <= total_reduction,
        model_unit(total_reduction as int, current_total_chance as int) <= u64::MAX,
    ensures
        unit == model_unit(total_reduction as int, current_total_chance as int),
{
    if current_total_chance <= 0 {
        0
    } else {
        proof {
            assert((total_reduction as u128) * (CHANCE_SCALE as u128) <= u128::MAX) by (nonlinear_arith)
                requires
                    0 <= total_reduction <= i64::MAX,
            ;
        }
        let scaled: u128 = (total_reduction as u128) * (CHANCE_SCALE as u128);
        (scaled / (current_total_chance as u128)) as u64
    }
}

/// The undo step over loaded state: names the ledger entry to delete — the
/// most recent one — and recomputes the projection from the remaining
/// entries, by full replay from tier defaults. With an empty ledger there is
/// nothing to undo. The caller deletes the named entry from the store and
/// persists the recomputed roster only when the replay succeeded.
#[verifier::loop_isolation(false)]
pub fn undo_memory(config: &AkcConfig, memories: &Vec<MemoryInfo>) -> (outcome: Option<
    (Result<AkcConfig, AkcError>, i64),
>)
    ensures
        outcome is None <==> memories@.len() == 0,
        outcome matches Some((rebuilt, deleted_id)) ==> deleted_id == memories@.last().id && (
        match model_replay(model_reset(config@), memories_view(memories@).drop_last()) {
            Ok(replayed) => rebuilt matches Ok(undone) && undone@ == replayed,
            Err(id) => rebuilt == Err::<AkcConfig, AkcError>(
                AkcError::ReplayInconsistency(id as i64),
            ),
        }),
{
    if memories.len() == 0 {
        return None;
    }
    let deleted_id: i64 = memories[memories.len() - 1].id;
    let mut remaining: Vec<MemoryInfo> = Vec::new();
    let mut i: usize = 0;
    while i < memories.len() - 1
        invariant
            i <= memories@.len() - 1,
            memories_view(remaining@) == memories_view(memories@).take(i as int),
        decreases memories@.len() - 1 - i,
    {
        let ghost prev = remaining@;
        remaining.push(memories[i].clone());
        proof {
            let m = memories_view(memories@);
            assert forall|j: int| 0 <= j < i implies memories_view(remaining@)[j] == m[j] by {
                assert(remaining@[j] == prev[j]);
                assert(memories_view(prev)[j] == m.take(i as int)[j]);
            }
            assert(memories_view(remaining@) =~= m.take(i as int + 1));
        }
        i += 1;
    }
    proof {
        assert(memories_view(memories@).take(memories@.len() - 1) =~= memories_view(
            memories@,
        ).drop_last());
    }
    let rebuilt = rebuild_chances_from_memories(config, &remaining);
    Some((rebuilt, deleted_id))
}


/// The models of a sequence of ledger entries.
pub open spec fn memories_view(memories: Seq<MemoryInfo>) -> Seq<MemoryModel> {
    memories.map_values(|m: MemoryInfo| m@)
}

/// Folding the ledger over a roster, event by event in the order given:
/// either the final roster, or the id of the first event that cannot be
/// applied.
pub open spec fn model_replay(
    roster: Seq<FriendModel>,
    memories: Seq<MemoryModel>,
) -> Result<Seq<FriendModel>, int>
    decreases memories.len(),
{
    if memories.len() == 0 {
        Ok(roster)
    } else {
        let m = memories[0];
        if event_applies(roster, m.kind, m.names) {
            model_replay(model_apply(roster, m.kind, m.names), memories.drop_first())
        } else {
            Err(m.id)
        }
    }
}

/// Recomputes the projection from scratch: resets every chance to its tier
/// default and re-applies every retained event in the order given (the
/// ledger's ascending id order). Fails fast with `ReplayInconsistency`, naming
/// the offending event id, on the first event that can no longer be applied.
///
/// This is the undo path: the ledger is the source of truth and the roster a
/// disposable cache, because one event application is not invertible.
#[verifier::loop_isolation(false)]
pub fn rebuild_chances_from_memories(
    config: &AkcConfig,
    memories: &Vec<MemoryInfo>,
) -> (result: Result<AkcConfig, AkcError>)
    ensures
        match model_replay(model_reset(config@), memories_view(memories@)) {
            Ok(replayed) => result matches Ok(rebuilt) && rebuilt@ == replayed,
            Err(id) => result == Err::<AkcConfig, AkcError>(
                AkcError::ReplayInconsistency(id as i64),
            ),
        },
{
    let ghost mems = memories_view(memories@);
    let mut current = config.clone();
    reset_chances_to_level_defaults(&mut current);
    proof {
        assert(mems.skip(0) =~= mems);
    }
    let mut i: usize = 0;
    while i < memories.len()
        invariant
            i <= memories@.len(),
            model_replay(model_reset(config@), mems) == model_replay(
                current@,
                mems.skip(i as int),
            ),
        decreases memories@.len() - i,
    {
        let entry: &MemoryInfo = &memories[i];
        proof {
            assert(entry@ == mems[i as int]);
            assert(mems.skip(i as int)[0] == mems[i as int]);
            assert(mems.skip(i as int).drop_first() =~= mems.skip(i as int + 1));
        }
        match apply_memory_to_config(&current, entry.kind, &entry.names) {
            Ok(next) => {
                current = next;
            },
            Err(_) => {
                proof {
                    assert(model_replay(current@, mems.skip(i as int)) == Err::<
                        Seq<FriendModel>,
                        int,
                    >(mems[i as int].id));
                }
                return Err(AkcError::ReplayInconsistency(entry.id));
            },
        }
        i += 1;
    }
    proof {
        assert(mems.skip(memories@.len() as int) =~= Seq::<MemoryModel>::empty());
    }
    Ok(current)
}

} // verus!
