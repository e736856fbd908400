//! The restitution pass: contacts are put in priority order, and every
//! mobile that overlaps a wall is pushed out of it.

use vstd::prelude::*;
use crate::collision::{ColliderID, Contact, Mobile, Terrain};
use crate::entity::{all_synchronised, Entity};
use crate::velocity::Velocity;

verus! {

/// `sorted` with `c` put behind the last contact whose translation vector
/// is at least as long as that of `c`, and in front where there is none.
pub open spec fn insert_by_priority(sorted: Seq<Contact>, c: Contact) -> Seq<Contact>
    decreases sorted.len(),
{
    if sorted.len() == 0 {
        seq![c]
    } else if sorted.last().magnitude() >= c.magnitude() {
        sorted.push(c)
    } else {
        insert_by_priority(sorted.drop_last(), c).push(sorted.last())
    }
}

/// The contacts in priority order: by falling length of the translation
/// vector, contacts of equal length in the order in which they came.
pub open spec fn by_priority(contacts: Seq<Contact>) -> Seq<Contact>
    decreases contacts.len(),
{
    if contacts.len() == 0 {
        Seq::empty()
    } else {
        insert_by_priority(by_priority(contacts.drop_last()), contacts.last())
    }
}

/// How far a mobile is pushed by a contact with translation vector `mtv`:
/// against its direction of motion along x, and against its direction of
/// motion relative to the scrolling world along y.
pub open spec fn push_back(m: Mobile, mtv: (i32, i32)) -> (int, int) {
    (-mtv.0 * m.vx.direction(), -mtv.1 * m.vy.direction_against_scroll())
}

/// The velocity of a mobile after a contact with a wall: it loses its
/// horizontal speed where it was pushed sideways, and falls back to the
/// ambient scroll speed where it was pushed vertically.
pub open spec fn velocity_after(m: Mobile, mtv: (i32, i32)) -> (Velocity, Velocity) {
    (
        if mtv.0 != 0 {
            Velocity::zero()
        } else {
            m.vx
        },
        if mtv.1 != 0 {
            Velocity::ambient_scroll()
        } else {
            m.vy
        },
    )
}

/// The entity after it was pushed out of a wall.
pub open spec fn pushed_out(e: Entity<Mobile>, mtv: (i32, i32)) -> Entity<Mobile> {
    let push = push_back(*e.collider(), mtv);
    let v = velocity_after(*e.collider(), mtv);
    e.moved(push.0, push.1).with_velocity(v.0, v.1)
}

/// Whether a contact is one that restitution acts on: a mobile, first,
/// against a wall.
pub open spec fn is_wall_contact(c: Contact) -> bool {
    c.a is Mobile && c.b is Wall
}

/// The pool after restitution of one contact. Only a contact of a mobile
/// with a wall has an effect.
pub open spec fn restitute_one(mobiles: Seq<Entity<Mobile>>, c: Contact) -> Seq<Entity<Mobile>> {
    if is_wall_contact(c) {
        let ai = c.a->Mobile_0 as int;
        mobiles.update(ai, pushed_out(mobiles[ai], c.mtv))
    } else {
        mobiles
    }
}

/// The pool after restitution of the contacts, one after the other.
pub open spec fn restitute_all(mobiles: Seq<Entity<Mobile>>, contacts: Seq<Contact>) -> Seq<
    Entity<Mobile>,
>
    decreases contacts.len(),
{
    if contacts.len() == 0 {
        mobiles
    } else {
        restitute_one(restitute_all(mobiles, contacts.drop_last()), contacts.last())
    }
}

/// Whether one contact can be restituted: the mobile exists, and the push
/// and the place it leads to are within `i32`.
pub open spec fn step_fits(mobiles: Seq<Entity<Mobile>>, c: Contact) -> bool {
    is_wall_contact(c) ==> {
        let ai = c.a->Mobile_0 as int;
        let push = push_back(*mobiles[ai].collider(), c.mtv);
        &&& ai < mobiles.len()
        &&& i32::MIN <= push.0 <= i32::MAX
        &&& i32::MIN <= push.1 <= i32::MAX
        &&& mobiles[ai].collider().rect.can_shift(push.0, push.1)
    }
}

/// Whether the contacts can be restituted one after the other.
pub open spec fn restitution_fits(mobiles: Seq<Entity<Mobile>>, contacts: Seq<Contact>) -> bool
    decreases contacts.len(),
{
    contacts.len() == 0 || (restitution_fits(mobiles, contacts.drop_last()) && step_fits(
        restitute_all(mobiles, contacts.drop_last()),
        contacts.last(),
    ))
}

/// Priority order only rearranges: every contact comes out as often as it
/// went in.
pub proof fn lemma_priority_permutes(contacts: Seq<Contact>)
    ensures
        by_priority(contacts).to_multiset() == contacts.to_multiset(),
        by_priority(contacts).len() == contacts.len(),
    decreases contacts.len(),
{
    broadcast use vstd::seq_lib::to_multiset_build;

    if contacts.len() == 0 {
        assert(contacts =~= Seq::<Contact>::empty());
    } else {
        lemma_priority_permutes(contacts.drop_last());
        lemma_insert_permutes(by_priority(contacts.drop_last()), contacts.last());
        assert(contacts.drop_last().push(contacts.last()) =~= contacts);
    }
    vstd::seq_lib::to_multiset_len(by_priority(contacts));
    vstd::seq_lib::to_multiset_len(contacts);
}

proof fn lemma_insert_permutes(sorted: Seq<Contact>, c: Contact)
    ensures
        insert_by_priority(sorted, c).to_multiset() == sorted.to_multiset().insert(c),
    decreases sorted.len(),
{
    broadcast use vstd::seq_lib::to_multiset_build;

    if sorted.len() == 0 {
        assert(seq![c] =~= sorted.push(c));
    } else if sorted.last().magnitude() >= c.magnitude() {
    } else {
        lemma_insert_permutes(sorted.drop_last(), c);
        assert(sorted.drop_last().push(sorted.last()) =~= sorted);
        assert(sorted.drop_last().to_multiset().insert(c).insert(sorted.last())
            =~= sorted.drop_last().to_multiset().insert(sorted.last()).insert(c));
    }
}

/// Whether the translation vectors get no longer along the sequence.
pub open spec fn descending(contacts: Seq<Contact>) -> bool {
    forall|i: int, j: int|
        0 <= i <= j < contacts.len() ==> (#[trigger] contacts[i]).magnitude()
            >= (#[trigger] contacts[j]).magnitude()
}

/// In priority order no contact comes before one with a longer
/// translation vector: the deepest penetration is restituted first.
pub proof fn lemma_priority_descends(contacts: Seq<Contact>)
    ensures
        descending(by_priority(contacts)),
    decreases contacts.len(),
{
    if contacts.len() > 0 {
        lemma_priority_descends(contacts.drop_last());
        lemma_insert_descends(by_priority(contacts.drop_last()), contacts.last());
    }
}

proof fn lemma_insert_descends(sorted: Seq<Contact>, c: Contact)
    requires
        descending(sorted),
    ensures
        descending(insert_by_priority(sorted, c)),
        insert_by_priority(sorted, c).len() == sorted.len() + 1,
        forall|i: int|
            0 <= i < sorted.len() + 1 ==> (#[trigger] insert_by_priority(sorted, c)[i]) == c || (
            exists|k: int| 0 <= k < sorted.len() && sorted[k] == insert_by_priority(sorted, c)[i]),
    decreases sorted.len(),
{
    let out = insert_by_priority(sorted, c);
    if sorted.len() == 0 {
    } else if sorted.last().magnitude() >= c.magnitude() {
        assert forall|i: int, j: int| 0 <= i <= j < out.len() implies (#[trigger] out[i]).magnitude()
            >= (#[trigger] out[j]).magnitude() by {
            if j < sorted.len() {
                assert(sorted[i].magnitude() >= sorted[j].magnitude());
            } else if i < sorted.len() {
                assert(sorted[i].magnitude() >= sorted.last().magnitude());
            }
        }
        assert forall|i: int| 0 <= i < sorted.len() + 1 implies (#[trigger] out[i]) == c || (
        exists|k: int| 0 <= k < sorted.len() && sorted[k] == out[i]) by {
            if i < sorted.len() {
                assert(sorted[i] == out[i]);
            }
        }
    } else {
        let front = sorted.drop_last();
        assert forall|i: int, j: int| 0 <= i <= j < front.len() implies (#[trigger] front[i]).magnitude()
            >= (#[trigger] front[j]).magnitude() by {
            assert(sorted[i].magnitude() >= sorted[j].magnitude());
        }
        lemma_insert_descends(front, c);
        let inner = insert_by_priority(front, c);
        assert forall|i: int| 0 <= i < sorted.len() + 1 implies (#[trigger] out[i]) == c || (
        exists|k: int| 0 <= k < sorted.len() && sorted[k] == out[i]) by {
            if i < inner.len() {
                if inner[i] != c {
                    let k = choose|k: int| 0 <= k < front.len() && front[k] == inner[i];
                    assert(sorted[k] == out[i]);
                }
            } else {
                assert(sorted[sorted.len() - 1] == out[i]);
            }
        }
        assert forall|i: int, j: int| 0 <= i <= j < out.len() implies (#[trigger] out[i]).magnitude()
            >= (#[trigger] out[j]).magnitude() by {
            if j < inner.len() {
                assert(inner[i].magnitude() >= inner[j].magnitude());
            } else if i < inner.len() {
                if inner[i] != c {
                    let k = choose|k: int| 0 <= k < front.len() && front[k] == inner[i];
                    assert(sorted[k].magnitude() >= sorted[sorted.len() - 1].magnitude());
                }
            }
        }
    }
}

/// Priority order is stable: the contacts of any one length come out in
/// the order in which they went in.
pub proof fn lemma_priority_stable(contacts: Seq<Contact>, magnitude: int)
    ensures
        by_priority(contacts).filter(|c: Contact| c.magnitude() == magnitude) == contacts.filter(
            |c: Contact| c.magnitude() == magnitude,
        ),
    decreases contacts.len(),
{
    reveal(Seq::filter);
    if contacts.len() > 0 {
        lemma_priority_stable(contacts.drop_last(), magnitude);
        lemma_insert_stable(by_priority(contacts.drop_last()), contacts.last(), magnitude);
    }
}

proof fn lemma_insert_stable(sorted: Seq<Contact>, c: Contact, magnitude: int)
    ensures
        insert_by_priority(sorted, c).filter(|c: Contact| c.magnitude() == magnitude) == if c.magnitude()
            == magnitude {
            sorted.filter(|c: Contact| c.magnitude() == magnitude).push(c)
        } else {
            sorted.filter(|c: Contact| c.magnitude() == magnitude)
        },
    decreases sorted.len(),
{
    reveal(Seq::filter);
    let same = |c: Contact| c.magnitude() == magnitude;
    if sorted.len() == 0 {
        assert(seq![c].drop_last() =~= Seq::<Contact>::empty());
        assert(Seq::<Contact>::empty().filter(same) =~= Seq::<Contact>::empty());
        assert(seq![c].filter(same) =~= if same(c) {
            Seq::<Contact>::empty().push(c)
        } else {
            Seq::<Contact>::empty()
        });
        assert(sorted =~= Seq::<Contact>::empty());
    } else if sorted.last().magnitude() >= c.magnitude() {
        assert(sorted.push(c).drop_last() =~= sorted);
    } else {
        lemma_insert_stable(sorted.drop_last(), c, magnitude);
        let inner = insert_by_priority(sorted.drop_last(), c);
        assert(inner.push(sorted.last()).drop_last() =~= inner);
    }
}

/// Where a contact goes when the scan from the back stops at `idx`: every
/// contact from `idx` on is shorter, the one before `idx` is not.
proof fn lemma_insert_position(sorted: Seq<Contact>, c: Contact, idx: int)
    requires
        0 <= idx <= sorted.len(),
        forall|k: int| idx <= k < sorted.len() ==> (#[trigger] sorted[k]).magnitude() < c.magnitude(),
        idx > 0 ==> sorted[idx - 1].magnitude() >= c.magnitude(),
    ensures
        insert_by_priority(sorted, c) == sorted.insert(idx, c),
    decreases sorted.len(),
{
    if sorted.len() == 0 {
        assert(sorted.insert(idx, c) =~= seq![c]);
    } else if idx == sorted.len() {
        assert(sorted.insert(idx, c) =~= sorted.push(c));
    } else {
        lemma_insert_position(sorted.drop_last(), c, idx);
        assert(sorted.insert(idx, c) =~= sorted.drop_last().insert(idx, c).push(sorted.last()));
    }
}

/// Restitution of one contact keeps the size of the pool and the
/// synchronisation of its entities.
proof fn lemma_restitute_one_keeps(mobiles: Seq<Entity<Mobile>>, c: Contact)
    requires
        all_synchronised(mobiles),
        step_fits(mobiles, c),
    ensures
        restitute_one(mobiles, c).len() == mobiles.len(),
        all_synchronised(restitute_one(mobiles, c)),
{
    if is_wall_contact(c) {
        let ai = c.a->Mobile_0 as int;
        let e = mobiles[ai];
        let push = push_back(*e.collider(), c.mtv);
        e.lemma_placed_at((e.position().0 + push.0) as i32, (e.position().1 + push.1) as i32);
        assert(pushed_out(e, c.mtv).synchronised());
        assert forall|i: int| 0 <= i < mobiles.len() implies (#[trigger] restitute_one(
            mobiles,
            c,
        )[i]).synchronised() by {
            if i != ai {
                assert(mobiles[i].synchronised());
            }
        }
    }
}

/// Restitution moves actors and changes their velocity; it changes neither
/// their number, nor their extents, nor their hit points, nor who the
/// player is.
pub proof fn lemma_restitution_keeps_vitals(mobiles: Seq<Entity<Mobile>>, contacts: Seq<Contact>)
    requires
        restitution_fits(mobiles, contacts),
    ensures
        restitute_all(mobiles, contacts).len() == mobiles.len(),
        forall|i: int|
            0 <= i < mobiles.len() ==> {
                let after = (#[trigger] restitute_all(mobiles, contacts)[i]).collider();
                &&& after.hp == mobiles[i].collider().hp
                &&& after.is_player == mobiles[i].collider().is_player
                &&& after.rect.w == mobiles[i].collider().rect.w
                &&& after.rect.h == mobiles[i].collider().rect.h
            },
    decreases contacts.len(),
{
    if contacts.len() > 0 {
        lemma_restitution_keeps_vitals(mobiles, contacts.drop_last());
    }
}

/// The correction `depth` turned against the direction of motion.
fn against(depth: i32, direction: i32) -> (push: i64)
    requires
        -1 <= direction <= 1,
    ensures
        push == -depth * direction,
        -0x8000_0000 <= push <= 0x8000_0000,
{
    assert(-depth * direction == if direction > 0 {
        -depth
    } else if direction < 0 {
        depth as int
    } else {
        0
    }) by (nonlinear_arith)
        requires
            -1 <= direction <= 1,
    ;
    if direction > 0 {
        -(depth as i64)
    } else if direction < 0 {
        depth as i64
    } else {
        0
    }
}

fn magnitude_of(c: &Contact) -> (m: u64)
    ensures
        m == c.magnitude(),
{
    let x: i64 = c.mtv.0 as i64;
    let y: i64 = c.mtv.1 as i64;
    assert(0 <= x * x <= 0x4000_0000_0000_0000) by (nonlinear_arith)
        requires
            -0x8000_0000 <= x <= 0x7FFF_FFFF,
    ;
    assert(0 <= y * y <= 0x4000_0000_0000_0000) by (nonlinear_arith)
        requires
            -0x8000_0000 <= y <= 0x7FFF_FFFF,
    ;
    let xx: i64 = x * x;
    let yy: i64 = y * y;
    xx as u64 + yy as u64
}

/// Puts the contacts in priority order, in place.
pub fn sort_by_priority(contacts: &mut Vec<Contact>)
    ensures
        final(contacts)@ == by_priority(old(contacts)@),
{
    let ghost given = contacts@;
    let mut i: usize = 0;
    while i < contacts.len()
        invariant
            i <= contacts.len(),
            contacts.len() == given.len(),
            contacts@.take(i as int) == by_priority(given.take(i as int)),
            contacts@.skip(i as int) == given.skip(i as int),
        decreases contacts.len() - i,
    {
        let ghost sorted = contacts@.take(i as int);
        let ghost rest = contacts@.skip(i as int + 1);
        let c: Contact = contacts[i];
        assert(c == given[i as int]) by {
            assert(contacts@.skip(i as int)[0] == given.skip(i as int)[0]);
        }
        assert(rest =~= given.skip(i + 1)) by {
            assert forall|k: int| 0 <= k < rest.len() implies rest[k] == given.skip(i + 1)[k] by {
                assert(contacts@.skip(i as int)[k + 1] == given.skip(i as int)[k + 1]);
            }
        }
        let key: u64 = magnitude_of(&c);
        let mut idx: usize = i;
        while idx > 0 && magnitude_of(&contacts[idx - 1]) < key
            invariant
                idx <= i,
                i < contacts.len(),
                key == c.magnitude(),
                sorted == contacts@.take(i as int),
                forall|k: int| idx <= k < i ==> (#[trigger] sorted[k]).magnitude() < c.magnitude(),
            decreases idx,
        {
            idx -= 1;
        }
        contacts.remove(i);
        contacts.insert(idx, c);
        proof {
            lemma_insert_position(sorted, c, idx as int);
            assert(given.take(i + 1).drop_last() =~= given.take(i as int));
            assert(contacts@.take(i + 1) =~= sorted.insert(idx as int, c));
            assert(contacts@.skip(i + 1) =~= rest);
        }
        i += 1;
    }
    assert(contacts@.take(i as int) =~= contacts@);
    assert(given.take(i as int) =~= given);
}

/// Contacts that are in priority order stay as they are when they are
/// put in priority order.
pub proof fn lemma_priority_is_idempotent(contacts: Seq<Contact>)
    ensures
        by_priority(by_priority(contacts)) == by_priority(contacts),
{
    lemma_priority_descends(contacts);
    lemma_descending_is_in_priority_order(by_priority(contacts));
}

proof fn lemma_descending_is_in_priority_order(contacts: Seq<Contact>)
    requires
        descending(contacts),
    ensures
        by_priority(contacts) == contacts,
    decreases contacts.len(),
{
    if contacts.len() == 0 {
        assert(contacts =~= Seq::<Contact>::empty());
    } else {
        let front = contacts.drop_last();
        assert forall|i: int, j: int| 0 <= i <= j < front.len() implies (#[trigger] front[i]).magnitude()
            >= (#[trigger] front[j]).magnitude() by {
            assert(contacts[i].magnitude() >= contacts[j].magnitude());
        }
        lemma_descending_is_in_priority_order(front);
        if front.len() > 0 {
            assert(contacts[front.len() - 1].magnitude() >= contacts[contacts.len()
                - 1].magnitude());
        }
        assert(front.push(contacts.last()) =~= contacts);
    }
}

/// Tells whether the contacts, in the order given, can be restituted
/// within the limits of `i32`: computes [`restitution_fits`].
pub fn can_restitute(mobiles: &Vec<Entity<Mobile>>, contacts: &Vec<Contact>) -> (fits: bool)
    requires
        all_synchronised(mobiles@),
    ensures
        fits == restitution_fits(mobiles@, contacts@),
{
    let mut shadow: Vec<Mobile> = Vec::new();
    let mut k: usize = 0;
    while k < mobiles.len()
        invariant
            k <= mobiles.len(),
            shadow.len() == k,
            forall|j: int| 0 <= j < k ==> #[trigger] shadow[j] == *mobiles[j].collider(),
        decreases mobiles.len() - k,
    {
        shadow.push(*mobiles[k].collider());
        k += 1;
    }
    let mut i: usize = 0;
    while i < contacts.len()
        invariant
            i <= contacts.len(),
            shadow.len() == mobiles.len(),
            restitution_fits(mobiles@, contacts@.take(i as int)),
            restitute_all(mobiles@, contacts@.take(i as int)).len() == mobiles.len(),
            all_synchronised(restitute_all(mobiles@, contacts@.take(i as int))),
            forall|j: int|
                0 <= j < shadow.len() ==> #[trigger] shadow[j] == *restitute_all(
                    mobiles@,
                    contacts@.take(i as int),
                )[j].collider(),
        decreases contacts.len() - i,
    {
        let contact: Contact = contacts[i];
        let ghost now = restitute_all(mobiles@, contacts@.take(i as int));
        proof {
            assert(contacts@.take(i + 1).drop_last() =~= contacts@.take(i as int));
            if restitution_fits(mobiles@, contacts@) {
                lemma_fits_prefix(mobiles@, contacts@, i + 1);
            }
        }
        match (contact.a, contact.b) {
            (ColliderID::Mobile(ai), ColliderID::Wall(_)) => {
                if ai >= shadow.len() {
                    return false;
                }
                let m: Mobile = shadow[ai];
                let dx: i64 = against(contact.mtv.0, m.vx.signum());
                let dy: i64 = against(contact.mtv.1, m.vy.signum_against_scroll());
                let x: i64 = m.rect.x as i64 + dx;
                let y: i64 = m.rect.y as i64 + dy;
                if dx < i32::MIN as i64 || dx > i32::MAX as i64 || dy < i32::MIN as i64 || dy
                    > i32::MAX as i64 || x < i32::MIN as i64 || x > i32::MAX as i64 || y
                    < i32::MIN as i64 || y > i32::MAX as i64 {
                    return false;
                }
                let mut moved: Mobile = m;
                moved.rect.x = x as i32;
                moved.rect.y = y as i32;
                if contact.mtv.0 != 0 {
                    moved.vx = Velocity::at_rest();
                }
                if contact.mtv.1 != 0 {
                    moved.vy = Velocity::scrolling();
                }
                shadow[ai] = moved;
                proof {
                    assert(step_fits(now, contact));
                    lemma_restitute_one_keeps(now, contact);
                    assert(now[ai as int].synchronised());
                    assert(moved == *pushed_out(now[ai as int], contact.mtv).collider());
                }
            },
            _ => {
                proof {
                    lemma_restitute_one_keeps(now, contact);
                }
            },
        }
        i += 1;
    }
    assert(contacts@.take(i as int) =~= contacts@);
    true
}

/// Pushes every mobile that overlaps a wall out of it, the deepest
/// penetration first. The contacts are left in priority order.
pub fn restitute(
    _statics: &[Entity<Terrain>],
    dynamics: &mut Vec<Entity<Mobile>>,
    contacts: &mut Vec<Contact>,
)
    requires
        all_synchronised(old(dynamics)@),
        restitution_fits(old(dynamics)@, by_priority(old(contacts)@)),
    ensures
        final(contacts)@ == by_priority(old(contacts)@),
        final(dynamics)@ == restitute_all(old(dynamics)@, by_priority(old(contacts)@)),
        final(dynamics).len() == old(dynamics).len(),
        all_synchronised(final(dynamics)@),
{
    sort_by_priority(contacts);
    let ghost given = dynamics@;
    let mut i: usize = 0;
    while i < contacts.len()
        invariant
            i <= contacts.len(),
            restitution_fits(given, contacts@),
            dynamics@ == restitute_all(given, contacts@.take(i as int)),
            restitution_fits(given, contacts@.take(i as int)),
            dynamics.len() == given.len(),
            all_synchronised(dynamics@),
        decreases contacts.len() - i,
    {
        let contact: Contact = contacts[i];
        proof {
            assert(contacts@.take(i + 1).drop_last() =~= contacts@.take(i as int));
            lemma_fits_prefix(given, contacts@, i + 1);
            lemma_restitute_one_keeps(dynamics@, contact);
        }
        match (contact.a, contact.b) {
            (ColliderID::Mobile(ai), ColliderID::Wall(_)) => {
                let dx: i64 = against(contact.mtv.0, dynamics[ai].collider().vx.signum());
                let dy: i64 = against(
                    contact.mtv.1,
                    dynamics[ai].collider().vy.signum_against_scroll(),
                );
                dynamics[ai].move_pos(dx as i32, dy as i32);
                if contact.mtv.0 != 0 {
                    dynamics[ai].collider.vx = Velocity::at_rest();
                }
                if contact.mtv.1 != 0 {
                    dynamics[ai].collider.vy = Velocity::scrolling();
                }
                assert(dynamics@ =~= restitute_one(
                    restitute_all(given, contacts@.take(i as int)),
                    contact,
                ));
            },
            _ => (),
        }
        i += 1;
    }
    assert(contacts@.take(i as int) =~= contacts@);
}

/// Contacts that can be restituted as a whole can be restituted up to any
/// point.
proof fn lemma_fits_prefix(mobiles: Seq<Entity<Mobile>>, contacts: Seq<Contact>, n: int)
    requires
        restitution_fits(mobiles, contacts),
        0 <= n <= contacts.len(),
    ensures
        restitution_fits(mobiles, contacts.take(n)),
    decreases contacts.len(),
{
    if n == contacts.len() {
        assert(contacts.take(n) =~= contacts);
    } else {
        lemma_fits_prefix(mobiles, contacts.drop_last(), n);
        assert(contacts.drop_last().take(n) =~= contacts.take(n));
    }
}

} // verus!
