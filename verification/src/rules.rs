//! The rule resolver: contacts become damage, death and destruction, and
//! the bodies that were destroyed leave their pools.

use vstd::prelude::*;
use crate::collision::{ColliderID, Contact, Mobile, Projectile, Terrain};
use crate::entity::{all_synchronised, Entity};
use crate::pool::{lemma_filter_keeps_head, retain_survivors, Survivor};
use crate::restitution::{
    by_priority,
    lemma_priority_permutes,
    lemma_restitution_keeps_vitals,
    restitute,
    restitute_all,
    restitution_fits,
};

verus! {

/// The damage that a mobile takes from a collision with a weaker mobile.
pub const CONTACT_DAMAGE: usize = 30;

/// The tick that is passed with the "hit" event.
pub const HIT_TICK: usize = 0;

/// The name of the event that is fed to the sprite of a block when a
/// projectile hits it.
pub open spec fn hit_event() -> Seq<char> {
    "hit"@
}

/// Hit points after damage: the difference, and zero where the damage
/// exceeds them.
pub open spec fn damaged(hp: usize, damage: usize) -> usize {
    if hp >= damage {
        (hp - damage) as usize
    } else {
        0
    }
}

/// Hit points of one side after a collision of two mobiles: zero where it
/// had strictly fewer than the other side, else its own less the contact
/// damage.
pub open spec fn collided(own: usize, other: usize) -> usize {
    if own < other {
        0
    } else {
        damaged(own, CONTACT_DAMAGE)
    }
}

/// The three pools that the rules change.
pub struct Pools {
    pub terrains: Seq<Entity<Terrain>>,
    pub mobiles: Seq<Entity<Mobile>>,
    pub projs: Seq<Projectile>,
}

/// Whether the bodies that the rule for `c` reads exist in pools of the
/// given sizes.
pub open spec fn resolvable_one(c: Contact, terrains: nat, mobiles: nat, projs: nat) -> bool {
    match (c.a, c.b) {
        (ColliderID::Mobile(a), ColliderID::Terrain(_)) => a < mobiles,
        (ColliderID::Mobile(a), ColliderID::Mobile(b)) => a < mobiles && b < mobiles,
        (ColliderID::Projectile(a), ColliderID::Terrain(b)) => a < projs && b < terrains,
        (ColliderID::Projectile(a), ColliderID::Mobile(b)) => a < projs && b < mobiles,
        _ => true,
    }
}

/// Whether every contact refers to bodies that exist.
pub open spec fn resolvable(contacts: Seq<Contact>, terrains: nat, mobiles: nat, projs: nat) -> bool {
    forall|i: int|
        0 <= i < contacts.len() ==> resolvable_one(#[trigger] contacts[i], terrains, mobiles, projs)
}

/// The projectile after an impact: its damage is spent.
pub open spec fn spent(p: Projectile) -> Projectile {
    Projectile { hp: 0, ..p }
}

/// The pools after the rule for one contact.
///
/// - A mobile that touches terrain dies if it is the player.
/// - Two mobiles of which one is the player collide: see [`collided`].
/// - A projectile that hits terrain damages it if it is destructible,
///   triggers "hit" on its sprite, and is spent.
/// - A projectile that hits a mobile damages it and is spent.
/// - Any other pair has no effect.
pub open spec fn resolve_one(pools: Pools, c: Contact) -> Pools {
    match (c.a, c.b) {
        (ColliderID::Mobile(a), ColliderID::Terrain(_)) => {
            let m = pools.mobiles[a as int];
            if m.collider().is_player {
                Pools { mobiles: pools.mobiles.update(a as int, m.with_hp(0)), ..pools }
            } else {
                pools
            }
        },
        (ColliderID::Mobile(a), ColliderID::Mobile(b)) => {
            let ma = pools.mobiles[a as int];
            let mb = pools.mobiles[b as int];
            if ma.collider().is_player || mb.collider().is_player {
                Pools {
                    mobiles: pools.mobiles.update(
                        a as int,
                        ma.with_hp(collided(ma.collider().hp, mb.collider().hp)),
                    ).update(b as int, mb.with_hp(collided(mb.collider().hp, ma.collider().hp))),
                    ..pools
                }
            } else {
                pools
            }
        },
        (ColliderID::Projectile(a), ColliderID::Terrain(b)) => {
            let p = pools.projs[a as int];
            let t = pools.terrains[b as int];
            let hurt = if t.collider().destructible {
                t.with_hp(damaged(t.collider().hp, p.hp))
            } else {
                t
            };
            Pools {
                terrains: pools.terrains.update(b as int, hurt.triggered(hit_event(), HIT_TICK)),
                projs: pools.projs.update(a as int, spent(p)),
                ..pools
            }
        },
        (ColliderID::Projectile(a), ColliderID::Mobile(b)) => {
            let p = pools.projs[a as int];
            let m = pools.mobiles[b as int];
            Pools {
                mobiles: pools.mobiles.update(b as int, m.with_hp(damaged(m.collider().hp, p.hp))),
                projs: pools.projs.update(a as int, spent(p)),
                ..pools
            }
        },
        _ => pools,
    }
}

/// The pools after the rules for the contacts, one after the other.
pub open spec fn resolve_all(pools: Pools, contacts: Seq<Contact>) -> Pools
    decreases contacts.len(),
{
    if contacts.len() == 0 {
        pools
    } else {
        resolve_one(resolve_all(pools, contacts.drop_last()), contacts.last())
    }
}

/// A block stays while it has hit points.
pub open spec fn terrain_stays(t: Entity<Terrain>) -> bool {
    t.collider().hp > 0
}

/// A mobile stays while it has hit points; the player stays in any case.
pub open spec fn mobile_stays(m: Entity<Mobile>) -> bool {
    m.collider().hp > 0 || m.collider().is_player
}

/// A projectile stays until it is spent.
pub open spec fn projectile_stays(p: Projectile) -> bool {
    p.hp > 0
}

/// The pools without the bodies that were destroyed, the others in their
/// order.
pub open spec fn pruned(pools: Pools) -> Pools {
    Pools {
        terrains: pools.terrains.filter(|t: Entity<Terrain>| terrain_stays(t)),
        mobiles: pools.mobiles.filter(|m: Entity<Mobile>| mobile_stays(m)),
        projs: pools.projs.filter(|p: Projectile| projectile_stays(p)),
    }
}

/// Computes [`resolvable`].
pub fn can_resolve(contacts: &[Contact], terrains: usize, mobiles: usize, projs: usize) -> (fits:
    bool)
    ensures
        fits == resolvable(contacts@, terrains as nat, mobiles as nat, projs as nat),
{
    let mut i: usize = 0;
    while i < contacts.len()
        invariant
            i <= contacts.len(),
            forall|k: int|
                0 <= k < i ==> resolvable_one(
                    #[trigger] contacts@[k],
                    terrains as nat,
                    mobiles as nat,
                    projs as nat,
                ),
        decreases contacts.len() - i,
    {
        let c: Contact = contacts[i];
        let fits: bool = match (c.a, c.b) {
            (ColliderID::Mobile(a), ColliderID::Terrain(_)) => a < mobiles,
            (ColliderID::Mobile(a), ColliderID::Mobile(b)) => a < mobiles && b < mobiles,
            (ColliderID::Projectile(a), ColliderID::Terrain(b)) => a < projs && b < terrains,
            (ColliderID::Projectile(a), ColliderID::Mobile(b)) => a < projs && b < mobiles,
            _ => true,
        };
        if !fits {
            assert(!resolvable_one(contacts@[i as int], terrains as nat, mobiles as nat, projs as nat));
            return false;
        }
        i += 1;
    }
    true
}

/// Computes [`damaged`].
pub fn apply_damage(hp: usize, damage: usize) -> (left: usize)
    ensures
        left == damaged(hp, damage),
        damage > hp ==> left == 0,
{
    if hp >= damage {
        hp - damage
    } else {
        0
    }
}

fn collide(own: usize, other: usize) -> (left: usize)
    ensures
        left == collided(own, other),
{
    if own < other {
        0
    } else {
        apply_damage(own, CONTACT_DAMAGE)
    }
}

impl Survivor<()> for Entity<Terrain> {
    open spec fn testable(&self, context: &()) -> bool {
        true
    }

    open spec fn survives(&self, context: &()) -> bool {
        terrain_stays(*self)
    }

    fn check_survives(&self, context: &()) -> bool {
        self.collider().hp > 0
    }
}

impl Survivor<()> for Entity<Mobile> {
    open spec fn testable(&self, context: &()) -> bool {
        true
    }

    open spec fn survives(&self, context: &()) -> bool {
        mobile_stays(*self)
    }

    fn check_survives(&self, context: &()) -> bool {
        self.collider().hp > 0 || self.collider().is_player
    }
}

impl Survivor<()> for Projectile {
    open spec fn testable(&self, context: &()) -> bool {
        true
    }

    open spec fn survives(&self, context: &()) -> bool {
        projectile_stays(*self)
    }

    fn check_survives(&self, context: &()) -> bool {
        self.hp > 0
    }
}

/// Applies the rules to the contacts in their order, then removes the
/// bodies that were destroyed. Returns whether the player, the first
/// mobile, had hit points left before the removal, and how many mobiles
/// were removed.
pub fn resolve_and_prune(
    terrains: &mut Vec<Entity<Terrain>>,
    mobiles: &mut Vec<Entity<Mobile>>,
    projs: &mut Vec<Projectile>,
    contacts: &[Contact],
) -> (outcome: (bool, usize))
    requires
        old(mobiles).len() > 0,
        resolvable(
            contacts@,
            old(terrains)@.len(),
            old(mobiles)@.len(),
            old(projs)@.len(),
        ),
    ensures
        ({
            let resolved = resolve_all(
                Pools { terrains: old(terrains)@, mobiles: old(mobiles)@, projs: old(projs)@ },
                contacts@,
            );
            &&& (Pools { terrains: final(terrains)@, mobiles: final(mobiles)@, projs: final(projs)@ })
                == pruned(resolved)
            &&& resolved.mobiles.len() == old(mobiles).len()
            &&& outcome.0 == (resolved.mobiles[0].collider().hp != 0)
            &&& outcome.1 == old(mobiles).len() - final(mobiles).len()
            &&& old(mobiles)[0].collider().is_player ==> {
                &&& final(mobiles).len() > 0
                &&& final(mobiles)[0] == resolved.mobiles[0]
            }
        }),
        all_synchronised(old(terrains)@) ==> all_synchronised(final(terrains)@),
        all_synchronised(old(mobiles)@) ==> all_synchronised(final(mobiles)@),
{
    let ghost given = Pools { terrains: terrains@, mobiles: mobiles@, projs: projs@ };
    let mut i: usize = 0;
    while i < contacts.len()
        invariant
            i <= contacts.len(),
            resolvable(contacts@, given.terrains.len(), given.mobiles.len(), given.projs.len()),
            terrains.len() == given.terrains.len(),
            mobiles.len() == given.mobiles.len(),
            projs.len() == given.projs.len(),
            (Pools { terrains: terrains@, mobiles: mobiles@, projs: projs@ }) == resolve_all(
                given,
                contacts@.take(i as int),
            ),
            all_synchronised(given.terrains) ==> all_synchronised(terrains@),
            all_synchronised(given.mobiles) ==> all_synchronised(mobiles@),
        decreases contacts.len() - i,
    {
        let contact: Contact = contacts[i];
        let ghost now = Pools { terrains: terrains@, mobiles: mobiles@, projs: projs@ };
        proof {
            assert(contacts@.take(i + 1).drop_last() =~= contacts@.take(i as int));
            assert(resolvable_one(
                contacts@[i as int],
                given.terrains.len(),
                given.mobiles.len(),
                given.projs.len(),
            ));
        }
        match (contact.a, contact.b) {
            (ColliderID::Mobile(a), ColliderID::Terrain(_)) => {
                if mobiles[a].collider().is_player {
                    mobiles[a].collider.hp = 0;
                }
            },
            (ColliderID::Mobile(a), ColliderID::Mobile(b)) => {
                if mobiles[a].collider().is_player || mobiles[b].collider().is_player {
                    let hp_a: usize = mobiles[a].collider().hp;
                    let hp_b: usize = mobiles[b].collider().hp;
                    mobiles[a].collider.hp = collide(hp_a, hp_b);
                    mobiles[b].collider.hp = collide(hp_b, hp_a);
                }
            },
            (ColliderID::Projectile(a), ColliderID::Terrain(b)) => {
                if terrains[b].collider().destructible {
                    terrains[b].collider.hp = apply_damage(terrains[b].collider().hp, projs[a].hp);
                }
                terrains[b].trigger("hit", HIT_TICK);
                projs[a].hp = 0;
            },
            (ColliderID::Projectile(a), ColliderID::Mobile(b)) => {
                mobiles[b].collider.hp = apply_damage(mobiles[b].collider().hp, projs[a].hp);
                projs[a].hp = 0;
            },
            _ => {},
        }
        proof {
            let next = resolve_one(now, contact);
            assert(terrains@ =~= next.terrains);
            assert(mobiles@ =~= next.mobiles);
            assert(projs@ =~= next.projs);
        }
        i += 1;
    }
    assert(contacts@.take(i as int) =~= contacts@);
    let ghost resolved = Pools { terrains: terrains@, mobiles: mobiles@, projs: projs@ };
    let player_is_alive: bool = mobiles[0].collider().hp != 0;
    retain_survivors(terrains, &(), Ghost(|t: Entity<Terrain>| terrain_stays(t)));
    let ori: usize = mobiles.len();
    retain_survivors(mobiles, &(), Ghost(|m: Entity<Mobile>| mobile_stays(m)));
    let new: usize = mobiles.len();
    retain_survivors(projs, &(), Ghost(|p: Projectile| projectile_stays(p)));
    proof {
        lemma_rules_keep_shape(given, contacts@);
        if given.mobiles[0].collider().is_player {
            lemma_player_slot_is_stable(resolved);
        }
        resolved.mobiles.lemma_filter_len(|m: Entity<Mobile>| mobile_stays(m));
        if all_synchronised(given.terrains) {
            lemma_filter_keeps_synchronised(
                resolved.terrains,
                |t: Entity<Terrain>| terrain_stays(t),
            );
        }
        if all_synchronised(given.mobiles) {
            lemma_filter_keeps_synchronised(resolved.mobiles, |m: Entity<Mobile>| mobile_stays(m));
        }
    }
    (player_is_alive, ori - new)
}

/// Damage never takes hit points below zero: damage above what is left
/// leaves exactly nothing, and damage done to nothing leaves nothing.
pub proof fn lemma_damage_floor(hp: usize, damage: usize)
    ensures
        damage > hp ==> damaged(hp, damage) == 0,
        damaged(0, damage) == 0,
        damaged(hp, damage) <= hp,
        collided(hp, damage) <= hp,
{
}

/// A projectile whose damage exceeds the hit points of the mobile or of
/// the destructible block that it hits leaves it with exactly none.
pub proof fn lemma_overkill_leaves_nothing(pools: Pools, c: Contact)
    requires
        resolvable_one(c, pools.terrains.len(), pools.mobiles.len(), pools.projs.len()),
        c.a is Projectile,
    ensures
        c.b is Mobile && pools.projs[c.a.index() as int].hp > pools.mobiles[c.b.index() as int].collider().hp
            ==> resolve_one(pools, c).mobiles[c.b.index() as int].collider().hp == 0,
        c.b is Terrain && pools.terrains[c.b.index() as int].collider().destructible
            && pools.projs[c.a.index() as int].hp > pools.terrains[c.b.index() as int].collider().hp
            ==> resolve_one(pools, c).terrains[c.b.index() as int].collider().hp == 0,
{
}

/// The rules change no pool's size, and never who the player is.
pub proof fn lemma_rules_keep_shape(pools: Pools, contacts: Seq<Contact>)
    requires
        resolvable(contacts, pools.terrains.len(), pools.mobiles.len(), pools.projs.len()),
    ensures
        resolve_all(pools, contacts).terrains.len() == pools.terrains.len(),
        resolve_all(pools, contacts).mobiles.len() == pools.mobiles.len(),
        resolve_all(pools, contacts).projs.len() == pools.projs.len(),
        forall|i: int|
            0 <= i < pools.mobiles.len() ==> (#[trigger] resolve_all(
                pools,
                contacts,
            ).mobiles[i]).collider().is_player == pools.mobiles[i].collider().is_player,
    decreases contacts.len(),
{
    if contacts.len() > 0 {
        let front = contacts.drop_last();
        assert forall|i: int| 0 <= i < front.len() implies resolvable_one(
            #[trigger] front[i],
            pools.terrains.len(),
            pools.mobiles.len(),
            pools.projs.len(),
        ) by {
            assert(front[i] == contacts[i]);
        }
        lemma_rules_keep_shape(pools, front);
        assert(resolvable_one(
            contacts[contacts.len() - 1],
            pools.terrains.len(),
            pools.mobiles.len(),
            pools.projs.len(),
        ));
    }
}

/// The player's slot is stable: where the first mobile is the player, it
/// is still the first mobile after the removal of the dead, whatever its
/// hit points.
pub proof fn lemma_player_slot_is_stable(pools: Pools)
    requires
        pools.mobiles.len() > 0,
        pools.mobiles[0].collider().is_player,
    ensures
        pruned(pools).mobiles.len() > 0,
        pruned(pools).mobiles[0] == pools.mobiles[0],
{
    lemma_filter_keeps_head(pools.mobiles, |m: Entity<Mobile>| mobile_stays(m));
}

/// Contacts that refer to bodies that exist still do so in priority order.
pub proof fn lemma_priority_keeps_resolvable(
    contacts: Seq<Contact>,
    terrains: nat,
    mobiles: nat,
    projs: nat,
)
    requires
        resolvable(contacts, terrains, mobiles, projs),
    ensures
        resolvable(by_priority(contacts), terrains, mobiles, projs),
{
    let sorted = by_priority(contacts);
    lemma_priority_permutes(contacts);
    assert forall|i: int| 0 <= i < sorted.len() implies resolvable_one(
        #[trigger] sorted[i],
        terrains,
        mobiles,
        projs,
    ) by {
        vstd::seq_lib::to_multiset_contains(sorted, sorted[i]);
        vstd::seq_lib::to_multiset_contains(contacts, sorted[i]);
        assert(sorted.contains(sorted[i]));
        let j = choose|j: int| 0 <= j < contacts.len() && contacts[j] == sorted[i];
        assert(resolvable_one(contacts[j], terrains, mobiles, projs));
    }
}

/// The whole answer to one tick's contacts: restitution first, so that no
/// actor is pushed back after it has died, then the rules and the removal
/// of what was destroyed. The contacts are left in priority order. Returns
/// what [`resolve_and_prune`] returns.
pub fn handle_contact(
    terrains: &mut Vec<Entity<Terrain>>,
    mobiles: &mut Vec<Entity<Mobile>>,
    projs: &mut Vec<Projectile>,
    contacts: &mut Vec<Contact>,
) -> (outcome: (bool, usize))
    requires
        old(mobiles).len() > 0,
        all_synchronised(old(mobiles)@),
        restitution_fits(old(mobiles)@, by_priority(old(contacts)@)),
        resolvable(
            old(contacts)@,
            old(terrains)@.len(),
            old(mobiles)@.len(),
            old(projs)@.len(),
        ),
    ensures
        final(contacts)@ == by_priority(old(contacts)@),
        ({
            let restituted = restitute_all(old(mobiles)@, by_priority(old(contacts)@));
            let resolved = resolve_all(
                Pools { terrains: old(terrains)@, mobiles: restituted, projs: old(projs)@ },
                by_priority(old(contacts)@),
            );
            &&& (Pools { terrains: final(terrains)@, mobiles: final(mobiles)@, projs: final(projs)@ })
                == pruned(resolved)
            &&& resolved.mobiles.len() == old(mobiles).len()
            &&& outcome.0 == (resolved.mobiles[0].collider().hp != 0)
            &&& outcome.1 == old(mobiles).len() - final(mobiles).len()
            &&& old(mobiles)[0].collider().is_player ==> {
                &&& final(mobiles).len() > 0
                &&& final(mobiles)[0] == resolved.mobiles[0]
            }
        }),
        all_synchronised(old(terrains)@) ==> all_synchronised(final(terrains)@),
        all_synchronised(final(mobiles)@),
{
    proof {
        lemma_priority_keeps_resolvable(
            contacts@,
            terrains@.len(),
            mobiles@.len(),
            projs@.len(),
        );
    }
    proof {
        lemma_restitution_keeps_vitals(mobiles@, by_priority(contacts@));
    }
    // Restitution comes first, so that no actor is pushed back after it has died.
    restitute(terrains.as_slice(), mobiles, contacts);
    resolve_and_prune(terrains, mobiles, projs, contacts.as_slice())
}

/// What is left of a pool of synchronised entities is synchronised.
proof fn lemma_filter_keeps_synchronised<T: crate::collision::Collider>(
    pool: Seq<Entity<T>>,
    stays: spec_fn(Entity<T>) -> bool,
)
    requires
        all_synchronised(pool),
    ensures
        all_synchronised(pool.filter(stays)),
    decreases pool.len(),
{
    reveal(Seq::filter);
    if pool.len() > 0 {
        lemma_filter_keeps_synchronised(pool.drop_last(), stays);
        assert forall|i: int| 0 <= i < pool.drop_last().len() implies (#[trigger] pool.drop_last()[i]).synchronised() by {
            assert(pool[i].synchronised());
        }
    }
}

} // verus!
