//! The weapons an entity fights with, read off its loadout; which parts of
//! an attack reach a target; and what an effect's requirements take.
use vstd::prelude::*;

use crate::inventory::item::{Item, ItemKind, ToolKind};
use crate::inventory::loadout::layout_index;
use crate::inventory::slot::EquipSlot;
use crate::inventory::Inventory;

verus! {

/// Whom a part of an attack is meant for, seen from the attacker's group.
#[derive(Clone, Copy, Debug, PartialEq, Eq, Structural)]
pub enum GroupTarget {
    InGroup,
    OutOfGroup,
}

/// A part of an attack meant for `target` (any target when `None`) reaches a
/// target of `group` unless it is meant for another group, or it is meant for
/// enemies and the target is dodging.
pub open spec fn reaches(target: Option<GroupTarget>, group: GroupTarget, dodging: bool) -> bool {
    &&& (target matches Some(t) ==> t == group)
    &&& !(target == Some(GroupTarget::OutOfGroup) && dodging)
}

/// Whether a part of an attack meant for `target` reaches a target of `group`.
pub fn reaches_target(target: Option<GroupTarget>, group: GroupTarget, dodging: bool) -> (r: bool)
    ensures
        r == reaches(target, group, dodging),
{
    let meant = match target {
        Some(t) => t == group,
        None => true,
    };
    let dodged = match target {
        Some(GroupTarget::OutOfGroup) => dodging,
        _ => false,
    };
    meant && !dodged
}

/// The positions, in order, of the parts of an attack (given by whom each is
/// meant for) that reach a target of `group`.
pub fn reaching_parts(targets: &Vec<Option<GroupTarget>>, group: GroupTarget, dodging: bool) -> (r: Vec<usize>)
    ensures
        forall|k: int| 0 <= k < r.len() ==> r[k] < targets.len() && reaches(targets[r[k] as int], group, dodging),
        forall|k: int, l: int| 0 <= k < l < r.len() ==> r[k] < r[l],
        forall|i: int| 0 <= i < targets.len() && reaches(targets[i], group, dodging) ==> exists|k: int|
            0 <= k < r.len() && r[k] == i,
{
    let mut r: Vec<usize> = Vec::new();
    let mut i: usize = 0;
    while i < targets.len()
        invariant
            i <= targets.len(),
            forall|k: int| 0 <= k < r.len() ==> r[k] < i && reaches(targets[r[k] as int], group, dodging),
            forall|k: int, l: int| 0 <= k < l < r.len() ==> r[k] < r[l],
            forall|j: int| 0 <= j < i && reaches(targets[j], group, dodging) ==> exists|k: int|
                0 <= k < r.len() && r[k] == j,
        decreases targets.len() - i,
    {
        let ghost before = r@;
        if reaches_target(targets[i], group, dodging) {
            r.push(i);
            assert(r[r.len() - 1] == i);
        }
        assert forall|j: int| 0 <= j <= i && reaches(targets[j], group, dodging) implies exists|k: int|
            0 <= k < r.len() && r[k] == j by {
            if j < i {
                let k = choose|k: int| 0 <= k < before.len() && before[k] == j;
                assert(r[k] == j);
            } else {
                assert(r[r.len() - 1] == i);
            }
        }
        i = i + 1;
    }
    r
}

/// The tool kind of what is equipped in a loadout entry, if it is a tool.
pub open spec fn tool_in(o: Option<Item>) -> Option<ToolKind> {
    match o {
        Some(it) => match it.item_def.kind {
            ItemKind::Tool(kind) => Some(kind),
            _ => None,
        },
        None => None,
    }
}

/// The item equipped in `slot` with its tool kind, when it is a tool.
pub fn equipped_item_and_tool(inv: &Inventory, slot: EquipSlot) -> (r: Option<(&Item, ToolKind)>)
    requires
        inv.wf(),
    ensures
        r is Some <==> tool_in(inv.equipment()[layout_index(slot)].slot) is Some,
        r is Some ==> *r.unwrap().0 == inv.equipment()[layout_index(slot)].slot.unwrap() && Some(r.unwrap().1)
            == tool_in(inv.equipment()[layout_index(slot)].slot),
{
    match inv.equipped(slot) {
        Some(item) => match item.item_def.kind {
            ItemKind::Tool(kind) => Some((item, kind)),
            _ => None,
        },
        None => None,
    }
}

/// The kinds of the weapons held in the main hand and in the off hand.
pub fn get_weapons(inv: &Inventory) -> (r: (Option<ToolKind>, Option<ToolKind>))
    requires
        inv.wf(),
    ensures
        r.0 == tool_in(inv.equipment()[layout_index(EquipSlot::Mainhand)].slot),
        r.1 == tool_in(inv.equipment()[layout_index(EquipSlot::Offhand)].slot),
{
    let main = match equipped_item_and_tool(inv, EquipSlot::Mainhand) {
        Some((_, kind)) => Some(kind),
        None => None,
    };
    let off = match equipped_item_and_tool(inv, EquipSlot::Offhand) {
        Some((_, kind)) => Some(kind),
        None => None,
    };
    (main, off)
}

/// A requirement an effect of an attack must meet before it applies, with
/// what the caller has already worked out for it: whether the attacker has
/// the energy an energy requirement asks for, and what paying it costs.
#[derive(Clone, Copy, Debug, PartialEq, Eq, Structural)]
pub enum RequirementCheck {
    /// Met when the attack dealt damage.
    AnyDamage,
    /// Met when the attacker's energy suffices; `None` when the attacker has
    /// no energy to draw on.
    Energy { sufficient: Option<bool>, cost: i32 },
    /// Met when the attacker's combo counter has reached `required`.
    Combo { required: u32 },
}

/// What meeting a requirement takes from the attacker.
#[derive(Clone, Copy, Debug, PartialEq, Eq, Structural)]
pub enum Payment {
    Energy(i32),
    Combo(i32),
}

/// The combo change that pays a combo requirement: the requirement
/// negated, as a 32-bit signed number.
pub open spec fn combo_cost(required: u32) -> i32 {
    if required <= i32::MAX {
        -(required as int) as i32
    } else {
        (4294967296 - required) as i32
    }
}

/// Whether one requirement is met, and what meeting it takes.
pub open spec fn requirement_outcome(req: RequirementCheck, damage_dealt: bool, combo: Option<u32>) -> (bool, Option<Payment>) {
    match req {
        RequirementCheck::AnyDamage => (damage_dealt, None),
        RequirementCheck::Energy { sufficient, cost } => match sufficient {
            Some(true) => (true, Some(Payment::Energy(cost))),
            _ => (false, None),
        },
        RequirementCheck::Combo { required } => match combo {
            Some(c) => if c >= required {
                (true, Some(Payment::Combo(combo_cost(required))))
            } else {
                (false, None)
            },
            None => (false, None),
        },
    }
}

/// Checking requirements in order, stopping at the first one not met:
/// whether all were met, and the payments of those met before it.
pub open spec fn requirements_outcome(reqs: Seq<RequirementCheck>, damage_dealt: bool, combo: Option<u32>) -> (bool, Seq<Payment>)
    decreases reqs.len(),
{
    if reqs.len() == 0 {
        (true, Seq::empty())
    } else {
        let first = requirement_outcome(reqs[0], damage_dealt, combo);
        if !first.0 {
            (false, Seq::empty())
        } else {
            let rest = requirements_outcome(reqs.drop_first(), damage_dealt, combo);
            (rest.0, match first.1 {
                Some(pay) => seq![pay],
                None => Seq::empty(),
            } + rest.1)
        }
    }
}

/// Checks the requirements of an effect in order, stopping at the first
/// one not met; gives whether all were met and what the attacker pays for
/// those met before (each met energy or combo requirement is paid as soon
/// as it is checked). `damage_dealt` tells whether the attack dealt damage;
/// `combo` is the attacker's combo counter, if it has one.
pub fn check_requirements(reqs: &Vec<RequirementCheck>, damage_dealt: bool, combo: Option<u32>) -> (r: (bool, Vec<Payment>))
    requires
        forall|i: int|
            0 <= i < reqs@.len() ==> !(#[trigger] reqs@[i] matches RequirementCheck::Combo { required } && required
                == 2147483648u32),
    ensures
        (r.0, r.1@) == requirements_outcome(reqs@, damage_dealt, combo),
{
    let mut paid: Vec<Payment> = Vec::new();
    let mut i: usize = 0;
    proof {
        assert(reqs@.skip(0) =~= reqs@);
        let all = requirements_outcome(reqs@, damage_dealt, combo);
        assert(paid@ + all.1 =~= all.1);
    }
    while i < reqs.len()
        invariant
            i <= reqs@.len(),
            forall|k: int|
                0 <= k < reqs@.len() ==> !(#[trigger] reqs@[k] matches RequirementCheck::Combo { required } && required
                    == 2147483648u32),
            requirements_outcome(reqs@, damage_dealt, combo) == ({
                let rest = requirements_outcome(reqs@.skip(i as int), damage_dealt, combo);
                (rest.0, paid@ + rest.1)
            }),
        decreases reqs@.len() - i,
    {
        let ghost tail = reqs@.skip(i as int);
        proof {
            assert(tail[0] == reqs@[i as int]);
            assert(tail.drop_first() =~= reqs@.skip(i + 1));
        }
        let (met, pay) = match reqs[i] {
            RequirementCheck::AnyDamage => (damage_dealt, None),
            RequirementCheck::Energy { sufficient, cost } => match sufficient {
                Some(true) => (true, Some(Payment::Energy(cost))),
                _ => (false, None),
            },
            RequirementCheck::Combo { required } => match combo {
                Some(c) => {
                    if c >= required {
                        let signed = #[verifier::truncate] (required as i32);
                        proof {
                            assert(signed != i32::MIN) by (bit_vector)
                                requires
                                    signed == required as i32,
                                    required != 2147483648u32,
                            ;
                            assert(-signed == combo_cost(required)) by (bit_vector)
                                requires
                                    signed == required as i32,
                                    required != 2147483648u32,
                            ;
                        }
                        (true, Some(Payment::Combo(-signed)))
                    } else {
                        (false, None)
                    }
                },
                None => (false, None),
            },
        };
        proof {
            assert((met, pay) == requirement_outcome(reqs@[i as int], damage_dealt, combo));
        }
        if !met {
            proof {
                assert(paid@ + Seq::<Payment>::empty() =~= paid@);
            }
            return (false, paid);
        }
        let ghost before = paid@;
        match pay {
            Some(p) => {
                paid.push(p);
            },
            None => {},
        }
        proof {
            let one: Seq<Payment> = match pay {
                Some(p) => seq![p],
                None => Seq::empty(),
            };
            assert(paid@ =~= before + one);
            let rest = requirements_outcome(reqs@.skip(i + 1), damage_dealt, combo);
            assert(before + (one + rest.1) =~= paid@ + rest.1);
        }
        i += 1;
    }
    proof {
        assert(reqs@.skip(i as int) =~= Seq::<RequirementCheck>::empty());
        assert(paid@ + Seq::<Payment>::empty() =~= paid@);
    }
    (true, paid)
}

/// Whether a requirement holds: any damage when the attack dealt damage,
/// energy when the attacker's energy is known to suffice, a combo when the
/// attacker's counter has reached what is required.
pub open spec fn requirement_holds(req: RequirementCheck, damage_dealt: bool, combo: Option<u32>) -> bool {
    match req {
        RequirementCheck::AnyDamage => damage_dealt,
        RequirementCheck::Energy { sufficient, .. } => sufficient == Some(true),
        RequirementCheck::Combo { required } => combo is Some && combo.unwrap() >= required,
    }
}

/// What a requirement charges once it holds: nothing for damage, its cost in
/// energy, and for a combo the required count taken off the counter.
pub open spec fn requirement_charge(req: RequirementCheck) -> Seq<Payment> {
    match req {
        RequirementCheck::AnyDamage => Seq::empty(),
        RequirementCheck::Energy { cost, .. } => seq![Payment::Energy(cost)],
        RequirementCheck::Combo { required } => seq![Payment::Combo(combo_cost(required))],
    }
}

/// What the requirements charge, in order.
pub open spec fn charges(reqs: Seq<RequirementCheck>) -> Seq<Payment>
    decreases reqs.len(),
{
    if reqs.len() == 0 {
        Seq::empty()
    } else {
        requirement_charge(reqs[0]) + charges(reqs.drop_first())
    }
}

/// Taking a combo of at most `i32::MAX` off the counter is a change of
/// minus that many.
pub proof fn combo_charge_is_negated_requirement(required: u32)
    ensures
        required <= i32::MAX ==> combo_cost(required) == -(required as int),
{
}

/// The requirements are checked in order up to the first that does not
/// hold (position `k`, or the end): the effect applies exactly when every
/// requirement holds, and the attacker is charged for exactly the
/// requirements before `k`, in order. So a requirement that does not hold,
/// such as energy that does not suffice, is never charged.
pub proof fn requirements_checked_in_order(reqs: Seq<RequirementCheck>, damage_dealt: bool, combo: Option<u32>, k: int)
    requires
        0 <= k <= reqs.len(),
        forall|i: int| 0 <= i < k ==> requirement_holds(#[trigger] reqs[i], damage_dealt, combo),
        k == reqs.len() || !requirement_holds(reqs[k], damage_dealt, combo),
    ensures
        requirements_outcome(reqs, damage_dealt, combo).0 == (k == reqs.len()),
        requirements_outcome(reqs, damage_dealt, combo).1 == charges(reqs.take(k)),
    decreases reqs.len(),
{
    if reqs.len() == 0 {
        assert(reqs.take(k) =~= Seq::<RequirementCheck>::empty());
    } else {
        let first = requirement_outcome(reqs[0], damage_dealt, combo);
        if k == 0 {
            assert(!first.0);
            assert(reqs.take(0) =~= Seq::<RequirementCheck>::empty());
        } else {
            assert(requirement_holds(reqs[0], damage_dealt, combo));
            assert(first.0);
            let rest = reqs.drop_first();
            assert forall|i: int| 0 <= i < k - 1 implies requirement_holds(#[trigger] rest[i], damage_dealt, combo) by {
                assert(rest[i] == reqs[i + 1]);
            }
            if k < reqs.len() {
                assert(rest[k - 1] == reqs[k]);
            }
            requirements_checked_in_order(rest, damage_dealt, combo, k - 1);
            assert(reqs.take(k).drop_first() =~= rest.take(k - 1));
            assert(reqs.take(k)[0] == reqs[0]);
            let one: Seq<Payment> = match first.1 {
                Some(pay) => seq![pay],
                None => Seq::empty(),
            };
            assert(one =~= requirement_charge(reqs[0]));
        }
    }
}

/// Which parts of an attack reach a target: a part meant for no group in
/// particular reaches everyone; a part meant for one group never reaches the
/// other; a part meant for the attacker's group reaches it whether or not
/// the target dodges; a part meant for the others reaches them exactly when
/// they are not dodging.
pub proof fn attack_parts_reach_their_group(group: GroupTarget, dodging: bool)
    ensures
        reaches(None, group, dodging),
        reaches(Some(GroupTarget::InGroup), GroupTarget::InGroup, dodging),
        !reaches(Some(GroupTarget::InGroup), GroupTarget::OutOfGroup, dodging),
        !reaches(Some(GroupTarget::OutOfGroup), GroupTarget::InGroup, dodging),
        reaches(Some(GroupTarget::OutOfGroup), GroupTarget::OutOfGroup, dodging) <==> !dodging,
{
}
/// An equipped item counts as a weapon of its tool kind exactly when it is
/// a tool; an empty entry or any other item gives no weapon.
pub proof fn weapons_are_equipped_tools(o: Option<Item>)
    ensures
        tool_in(o) is Some <==> (o is Some && o.unwrap().item_def.kind is Tool),
        o is Some && o.unwrap().item_def.kind is Tool ==> ItemKind::Tool(tool_in(o).unwrap()) == o.unwrap().item_def.kind,
{
}
} // verus!
