//! The engine's governing laws, stated and proved over the projection model:
//! replay is deterministic, undo by replay restores the pre-event projection,
//! participants lose exactly the event's total reduction, and a degenerate
//! baseline distributes no gain.

use vstd::prelude::*;

use crate::ledger::MemoryKind;
use crate::ledger::MemoryModel;
use crate::projection::model_apply;
use crate::projection::model_gain;
use crate::projection::model_increase;
use crate::projection::model_decrease;
use crate::projection::model_replay;
use crate::projection::model_reset;
use crate::projection::model_total_excluding;
use crate::projection::model_unit;
use crate::projection::participants_known;
use crate::projection::reduction_spec;
use crate::roster::FriendModel;
use crate::roster::roster_contains;
use crate::roster::unique_names;

verus! {

/// Two rosters with the same friends — names and tiers pointwise equal —
/// however their current chances differ.
pub open spec fn same_profile(a: Seq<FriendModel>, b: Seq<FriendModel>) -> bool {
    &&& a.len() == b.len()
    &&& forall|i: int|
        0 <= i < a.len() ==> (#[trigger] a[i]).name == b[i].name && a[i].level == b[i].level
}

/// Resetting to tier defaults erases every difference in current chances:
/// rosters with the same friends reset to the same roster.
pub proof fn lemma_reset_same_profile(a: Seq<FriendModel>, b: Seq<FriendModel>)
    requires
        same_profile(a, b),
    ensures
        model_reset(a) == model_reset(b),
{
    assert(model_reset(a) =~= model_reset(b));
}

/// Applying an event changes chances only: the names and tiers of the roster
/// stay exactly as they were.
pub proof fn lemma_apply_preserves_profile(
    roster: Seq<FriendModel>,
    kind: MemoryKind,
    names: Seq<Seq<char>>,
)
    ensures
        same_profile(roster, model_apply(roster, kind, names)),
{
}

/// Determinism of replay: starting from the reset point of any roster with
/// the same friends, the same event sequence yields the same projection —
/// replay is a pure function of the events and the friends' names and tiers,
/// never of the chances the roster happened to hold.
pub proof fn lemma_replay_deterministic(
    a: Seq<FriendModel>,
    b: Seq<FriendModel>,
    memories: Seq<MemoryModel>,
)
    requires
        same_profile(a, b),
    ensures
        model_replay(model_reset(a), memories) == model_replay(model_reset(b), memories),
{
    lemma_reset_same_profile(a, b);
}

/// Undo correctness: after logging one more event on a roster, replaying the
/// remaining ledger from the reset point restores exactly what replaying it
/// from the original roster's reset point gives — the logged event leaves no
/// trace once deleted, because applying it never changes names or tiers, and
/// replay starts from tier defaults, never from the mutated chances.
pub proof fn lemma_undo_restores(
    roster: Seq<FriendModel>,
    kind: MemoryKind,
    names: Seq<Seq<char>>,
    memories: Seq<MemoryModel>,
)
    ensures
        model_replay(model_reset(model_apply(roster, kind, names)), memories) == model_replay(
            model_reset(roster),
            memories,
        ),
{
    lemma_apply_preserves_profile(roster, kind, names);
    lemma_replay_deterministic(model_apply(roster, kind, names), roster, memories);
    assert(same_profile(model_apply(roster, kind, names), roster));
}

/// Sum of the chances of the friends whose name is in `names`: what the
/// participants of an event hold together.
pub open spec fn model_total_selected(roster: Seq<FriendModel>, names: Seq<Seq<char>>) -> int
    decreases roster.len(),
{
    if roster.len() == 0 {
        0
    } else {
        model_total_selected(roster.drop_last(), names) + if names.contains(roster.last().name) {
            roster.last().chance
        } else {
            0
        }
    }
}

/// How many friends of the roster are selected by name.
pub open spec fn count_selected(roster: Seq<FriendModel>, names: Seq<Seq<char>>) -> int
    decreases roster.len(),
{
    if roster.len() == 0 {
        0
    } else {
        count_selected(roster.drop_last(), names) + if names.contains(roster.last().name) {
            1int
        } else {
            0int
        }
    }
}

/// How many friends of the roster bear exactly this name.
pub open spec fn count_matching(roster: Seq<FriendModel>, name: Seq<char>) -> int
    decreases roster.len(),
{
    if roster.len() == 0 {
        0
    } else {
        count_matching(roster.drop_last(), name) + if roster.last().name == name {
            1int
        } else {
            0int
        }
    }
}

/// No two names repeat in the sequence.
pub open spec fn distinct_names(names: Seq<Seq<char>>) -> bool {
    forall|i: int, j: int| 0 <= i < j < names.len() ==> names[i] != names[j]
}

/// A name nobody bears is matched zero times.
proof fn lemma_count_matching_absent(roster: Seq<FriendModel>, name: Seq<char>)
    requires
        !roster_contains(roster, name),
    ensures
        count_matching(roster, name) == 0,
    decreases roster.len(),
{
    if roster.len() > 0 {
        let rest = roster.drop_last();
        assert forall|i: int| 0 <= i < rest.len() implies rest[i].name != name by {
            assert(rest[i] == roster[i]);
        }
        lemma_count_matching_absent(rest, name);
        assert(roster[roster.len() - 1] == roster.last());
    }
}

/// With unique names, a name somebody bears is matched exactly once.
proof fn lemma_count_matching_unique(roster: Seq<FriendModel>, name: Seq<char>)
    requires
        unique_names(roster),
        roster_contains(roster, name),
    ensures
        count_matching(roster, name) == 1,
    decreases roster.len(),
{
    let rest = roster.drop_last();
    assert forall|i: int, j: int| 0 <= i < j < rest.len() implies rest[i].name != rest[j].name by {
        assert(rest[i] == roster[i]);
        assert(rest[j] == roster[j]);
    }
    if roster.last().name == name {
        assert forall|i: int| 0 <= i < rest.len() implies rest[i].name != name by {
            assert(rest[i] == roster[i]);
            assert(roster[i].name != roster[roster.len() - 1].name);
        }
        lemma_count_matching_absent(rest, name);
    } else {
        let w = choose|i: int| 0 <= i < roster.len() && roster[i].name == name;
        assert(rest[w] == roster[w]);
        assert(roster_contains(rest, name));
        lemma_count_matching_unique(rest, name);
    }
}

/// Selecting by one more name counts the friends bearing that name on top of
/// those selected before, provided the new name was not selected already.
proof fn lemma_count_selected_split(
    roster: Seq<FriendModel>,
    names: Seq<Seq<char>>,
    name: Seq<char>,
)
    requires
        !names.contains(name),
    ensures
        count_selected(roster, names.push(name)) == count_selected(roster, names) + count_matching(
            roster,
            name,
        ),
    decreases roster.len(),
{
    if roster.len() > 0 {
        lemma_count_selected_split(roster.drop_last(), names, name);
        let last = roster.last();
        assert(names.push(name).contains(last.name) <==> (names.contains(last.name) || last.name
            == name)) by {
            if names.push(name).contains(last.name) {
                let k = choose|k: int|
                    0 <= k < names.push(name).len() && names.push(name)[k] == last.name;
                if k < names.len() {
                    assert(names[k] == last.name);
                }
            }
            if names.contains(last.name) {
                let k = choose|k: int| 0 <= k < names.len() && names[k] == last.name;
                assert(names.push(name)[k] == last.name);
            }
            if last.name == name {
                assert(names.push(name)[names.len() as int] == last.name);
            }
        }
    }
}

/// With unique roster names, selecting by distinct, all-present names counts
/// exactly one friend per name.
proof fn lemma_count_selected_all(roster: Seq<FriendModel>, names: Seq<Seq<char>>)
    requires
        unique_names(roster),
        distinct_names(names),
        participants_known(roster, names),
    ensures
        count_selected(roster, names) == names.len(),
    decreases names.len(),
{
    if names.len() == 0 {
        lemma_count_selected_none(roster, names);
    } else {
        let shorter = names.drop_last();
        let last = names.last();
        assert forall|i: int, j: int| 0 <= i < j < shorter.len() implies shorter[i]
            != shorter[j] by {
            assert(shorter[i] == names[i]);
            assert(shorter[j] == names[j]);
        }
        assert forall|i: int| 0 <= i < shorter.len() implies roster_contains(
            roster,
            #[trigger] shorter[i],
        ) by {
            assert(shorter[i] == names[i]);
            assert(roster_contains(roster, names[i]));
        }
        lemma_count_selected_all(roster, shorter);
        assert(!shorter.contains(last)) by {
            if shorter.contains(last) {
                let i = choose|i: int| 0 <= i < shorter.len() && shorter[i] == last;
                assert(names[i] == names[names.len() - 1]);
            }
        }
        lemma_count_selected_split(roster, shorter, last);
        assert(roster_contains(roster, names[names.len() - 1]));
        lemma_count_matching_unique(roster, last);
        assert(names =~= shorter.push(last));
    }
}

/// Selecting by no names counts nobody.
proof fn lemma_count_selected_none(roster: Seq<FriendModel>, names: Seq<Seq<char>>)
    requires
        names.len() == 0,
    ensures
        count_selected(roster, names) == 0,
    decreases roster.len(),
{
    if roster.len() > 0 {
        lemma_count_selected_none(roster.drop_last(), names);
    }
}

/// The gain pass never touches a participant's chance, so what the
/// participants hold together is unchanged.
proof fn lemma_increase_keeps_selected_total(
    roster: Seq<FriendModel>,
    unit: int,
    names: Seq<Seq<char>>,
)
    ensures
        model_total_selected(model_increase(roster, unit, names), names) == model_total_selected(
            roster,
            names,
        ),
    decreases roster.len(),
{
    if roster.len() > 0 {
        lemma_increase_keeps_selected_total(roster.drop_last(), unit, names);
        assert(model_increase(roster, unit, names).drop_last() =~= model_increase(
            roster.drop_last(),
            unit,
            names,
        ));
        assert(model_increase(roster, unit, names).last() == if names.contains(
            roster.last().name,
        ) {
            roster.last()
        } else {
            FriendModel {
                name: roster.last().name,
                chance: roster.last().chance + model_gain(roster.last().level, unit),
                level: roster.last().level,
            }
        });
    }
}

/// The loss pass takes exactly the reduction from each selected friend.
proof fn lemma_decrease_selected_total(
    roster: Seq<FriendModel>,
    reduction: int,
    names: Seq<Seq<char>>,
)
    ensures
        model_total_selected(model_decrease(roster, reduction, names), names)
            == model_total_selected(roster, names) - reduction * count_selected(roster, names),
    decreases roster.len(),
{
    if roster.len() == 0 {
        assert(reduction * 0 == 0) by (nonlinear_arith);
    } else {
        lemma_decrease_selected_total(roster.drop_last(), reduction, names);
        assert(model_decrease(roster, reduction, names).drop_last() =~= model_decrease(
            roster.drop_last(),
            reduction,
            names,
        ));
        assert(model_decrease(roster, reduction, names).last() == if names.contains(
            roster.last().name,
        ) {
            FriendModel {
                name: roster.last().name,
                chance: roster.last().chance - reduction,
                level: roster.last().level,
            }
        } else {
            roster.last()
        });
        if names.contains(roster.last().name) {
            assert(reduction * (count_selected(roster.drop_last(), names) + 1) == reduction
                * count_selected(roster.drop_last(), names) + reduction) by (nonlinear_arith);
        }
    }
}

/// Counting selected friends only reads their names, which the gain pass
/// keeps.
proof fn lemma_increase_keeps_count(roster: Seq<FriendModel>, unit: int, names: Seq<Seq<char>>)
    ensures
        count_selected(model_increase(roster, unit, names), names) == count_selected(roster, names),
    decreases roster.len(),
{
    if roster.len() > 0 {
        lemma_increase_keeps_count(roster.drop_last(), unit, names);
        assert(model_increase(roster, unit, names).drop_last() =~= model_increase(
            roster.drop_last(),
            unit,
            names,
        ));
        assert(model_increase(roster, unit, names).last().name == roster.last().name);
    }
}

/// Loss conservation: one event takes from its participants, together,
/// exactly its reduction times the number of participants — whatever the
/// roster's size and whatever gain the others receive. This needs the
/// participants to be distinct names, each present in a roster with unique
/// names: with a participant repeated, the reduction is taken from that
/// friend once, not twice, and the equality fails.
pub proof fn lemma_loss_conservation(
    roster: Seq<FriendModel>,
    kind: MemoryKind,
    names: Seq<Seq<char>>,
)
    requires
        unique_names(roster),
        distinct_names(names),
        participants_known(roster, names),
    ensures
        model_total_selected(roster, names) - model_total_selected(
            model_apply(roster, kind, names),
            names,
        ) == reduction_spec(kind) * names.len(),
{
    let reduction = reduction_spec(kind);
    let unit = model_unit(reduction * names.len(), model_total_excluding(roster, names));
    let increased = model_increase(roster, unit, names);
    lemma_increase_keeps_selected_total(roster, unit, names);
    lemma_increase_keeps_count(roster, unit, names);
    lemma_decrease_selected_total(increased, reduction, names);
    lemma_count_selected_all(roster, names);
}

/// Degenerate baseline: when the friends outside the event hold no positive
/// chance in total, no gain is distributed — the event only takes the
/// reduction from its participants, and every other chance stays exactly as
/// it was.
pub proof fn lemma_degenerate_baseline(
    roster: Seq<FriendModel>,
    kind: MemoryKind,
    names: Seq<Seq<char>>,
)
    requires
        model_total_excluding(roster, names) <= 0,
    ensures
        forall|i: int|
            0 <= i < roster.len() && !names.contains((#[trigger] roster[i]).name) ==> model_apply(
                roster,
                kind,
                names,
            )[i].chance == roster[i].chance,
        forall|i: int|
            0 <= i < roster.len() && names.contains((#[trigger] roster[i]).name) ==> model_apply(
                roster,
                kind,
                names,
            )[i].chance == roster[i].chance - reduction_spec(kind),
{
    let reduction = reduction_spec(kind);
    let unit = model_unit(reduction * names.len(), model_total_excluding(roster, names));
    assert(unit == 0);
    assert forall|i: int|
        0 <= i < roster.len() && !names.contains((#[trigger] roster[i]).name) implies model_apply(
        roster,
        kind,
        names,
    )[i].chance == roster[i].chance by {
        assert(model_gain(roster[i].level, 0) == 0) by {
            vstd::arithmetic::mul::lemma_mul_basics(crate::roster::level_default_spec(
                roster[i].level,
            ));
        }
    }
}

} // verus!
