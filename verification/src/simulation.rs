//! One tick of the simulation: contacts are gathered, mobiles are pushed
//! out of walls, the rules are applied, and what was destroyed is removed.

use vstd::prelude::*;
use crate::collision::{Contact, Mobile, Projectile, Terrain, Wall};
use crate::contacts::{
    can_gather,
    contacts_of,
    gather_contacts,
    gatherable,
    is_contact_of,
    lemma_contacts_are_the_overlaps,
    scene_of,
};
use crate::entity::{all_synchronised, Entity};
use crate::restitution::{
    by_priority,
    can_restitute,
    is_wall_contact,
    lemma_priority_is_idempotent,
    lemma_priority_permutes,
    restitute_all,
    restitution_fits,
    sort_by_priority,
};
use crate::rules::{handle_contact, pruned, resolvable, resolvable_one, resolve_all, Pools};

verus! {

/// The contacts of a tick in the order in which they are worked off.
pub open spec fn contacts_in_order(
    terrains: Seq<Entity<Terrain>>,
    mobiles: Seq<Entity<Mobile>>,
    walls: Seq<Wall>,
    projs: Seq<Projectile>,
) -> Seq<Contact> {
    by_priority(contacts_of(scene_of(terrains, mobiles, walls, projs)))
}

/// Whether a tick can be simulated: there is a player slot, every entity
/// is in one place, and neither the overlap tests nor the pushes of
/// restitution leave the range of `i32`.
pub open spec fn tick_fits(
    terrains: Seq<Entity<Terrain>>,
    mobiles: Seq<Entity<Mobile>>,
    walls: Seq<Wall>,
    projs: Seq<Projectile>,
) -> bool {
    &&& mobiles.len() > 0
    &&& all_synchronised(mobiles)
    &&& gatherable(terrains, mobiles, walls, projs)
    &&& restitution_fits(mobiles, contacts_in_order(terrains, mobiles, walls, projs))
}

/// The pools when the rules have been applied to the restituted mobiles,
/// before anything is removed.
pub open spec fn resolved_tick(
    terrains: Seq<Entity<Terrain>>,
    mobiles: Seq<Entity<Mobile>>,
    walls: Seq<Wall>,
    projs: Seq<Projectile>,
) -> Pools {
    let contacts = contacts_in_order(terrains, mobiles, walls, projs);
    resolve_all(Pools { terrains, mobiles: restitute_all(mobiles, contacts), projs }, contacts)
}

/// Every contact that is gathered refers to bodies that exist: the
/// generator never hands the later passes an index out of bounds.
pub proof fn lemma_gathered_contacts_are_in_bounds(
    terrains: Seq<Entity<Terrain>>,
    mobiles: Seq<Entity<Mobile>>,
    walls: Seq<Wall>,
    projs: Seq<Projectile>,
)
    requires
        scene_of(terrains, mobiles, walls, projs).indexable(),
    ensures
        resolvable(
            contacts_of(scene_of(terrains, mobiles, walls, projs)),
            terrains.len(),
            mobiles.len(),
            projs.len(),
        ),
        forall|i: int|
            0 <= i < contacts_of(scene_of(terrains, mobiles, walls, projs)).len() ==> {
                let c = #[trigger] contacts_of(scene_of(terrains, mobiles, walls, projs))[i];
                is_wall_contact(c) ==> c.a.index() < mobiles.len() && c.b.index() < walls.len()
            },
{
    let scene = scene_of(terrains, mobiles, walls, projs);
    let contacts = contacts_of(scene);
    lemma_contacts_are_the_overlaps(scene);
    assert forall|i: int| 0 <= i < contacts.len() implies resolvable_one(
        #[trigger] contacts[i],
        terrains.len(),
        mobiles.len(),
        projs.len(),
    ) by {
        assert(contacts.contains(contacts[i]));
        assert(is_contact_of(scene, contacts[i]));
    }
    assert forall|i: int| 0 <= i < contacts.len() implies {
        let c = #[trigger] contacts[i];
        is_wall_contact(c) ==> c.a.index() < mobiles.len() && c.b.index() < walls.len()
    } by {
        assert(contacts.contains(contacts[i]));
        assert(is_contact_of(scene, contacts[i]));
    }
}

/// Simulates one tick on the pools, where that can be done within the
/// range of `i32`; otherwise nothing is changed. Returns whether the
/// player, the first mobile, has hit points left, and how many mobiles
/// were removed.
pub fn simulate_tick(
    terrains: &mut Vec<Entity<Terrain>>,
    mobiles: &mut Vec<Entity<Mobile>>,
    walls: &[Wall],
    projs: &mut Vec<Projectile>,
) -> (outcome: Option<(bool, usize)>)
    ensures
        outcome is Some <==> tick_fits(old(terrains)@, old(mobiles)@, walls@, old(projs)@),
        match outcome {
            Some(report) => {
                let resolved = resolved_tick(old(terrains)@, old(mobiles)@, walls@, old(projs)@);
                &&& (Pools {
                    terrains: final(terrains)@,
                    mobiles: final(mobiles)@,
                    projs: final(projs)@,
                }) == pruned(resolved)
                &&& resolved.mobiles.len() == old(mobiles).len()
                &&& report.0 == (resolved.mobiles[0].collider().hp != 0)
                &&& report.1 == old(mobiles).len() - final(mobiles).len()
                &&& all_synchronised(final(mobiles)@)
                &&& all_synchronised(old(terrains)@) ==> all_synchronised(final(terrains)@)
                &&& old(mobiles)[0].collider().is_player ==> {
                    &&& final(mobiles).len() > 0
                    &&& final(mobiles)[0] == resolved.mobiles[0]
                }
            },
            None => {
                &&& final(terrains)@ == old(terrains)@
                &&& final(mobiles)@ == old(mobiles)@
                &&& final(projs)@ == old(projs)@
            },
        },
{
    if mobiles.len() == 0 || !all_in_one_place(mobiles) || !can_gather(
        terrains.as_slice(),
        mobiles.as_slice(),
        walls,
        projs.as_slice(),
    ) {
        return None;
    }
    let mut contacts: Vec<Contact> = Vec::new();
    gather_contacts(terrains.as_slice(), mobiles.as_slice(), walls, projs.as_slice(), &mut contacts);
    let ghost gathered = contacts_of(scene_of(terrains@, mobiles@, walls@, projs@));
    assert(contacts@ =~= gathered);
    sort_by_priority(&mut contacts);
    if !can_restitute(mobiles, &contacts) {
        return None;
    }
    proof {
        let sizes = (terrains.len(), mobiles.len(), walls.len(), projs.len());
        lemma_gathered_contacts_are_in_bounds(terrains@, mobiles@, walls@, projs@);
        crate::rules::lemma_priority_keeps_resolvable(
            gathered,
            terrains@.len(),
            mobiles@.len(),
            projs@.len(),
        );
        lemma_priority_is_idempotent(gathered);
        lemma_priority_permutes(gathered);
    }
    Some(handle_contact(terrains, mobiles, projs, &mut contacts))
}

fn all_in_one_place(mobiles: &Vec<Entity<Mobile>>) -> (synchronised: bool)
    ensures
        synchronised == all_synchronised(mobiles@),
{
    let mut i: usize = 0;
    while i < mobiles.len()
        invariant
            i <= mobiles.len(),
            forall|k: int| 0 <= k < i ==> (#[trigger] mobiles@[k]).synchronised(),
        decreases mobiles.len() - i,
    {
        if !mobiles[i].is_synchronised() {
            return false;
        }
        i += 1;
    }
    true
}

} // verus!
