//! The contact generator: a brute-force pairwise overlap test across the
//! four pools, which appends one contact for every overlapping pair.

use vstd::prelude::*;
use crate::collision::{Collider, ColliderID, Contact, Mobile, Projectile, Terrain, Wall};
use crate::entity::Entity;
use crate::geometry::{displacement, rect_displacement, rects_overlap, Rect};

verus! {

/// The five sweeps of the generator, in the order in which they run. The
/// first pool named holds the moving or attacking bodies, the second their
/// passive partners. Projectiles are tested neither against walls nor
/// against each other.
#[derive(Clone, Copy, Debug, PartialEq, Eq, Structural)]
pub enum Sweep {
    MobileMobile,
    MobileTerrain,
    MobileWall,
    ProjectileMobile,
    ProjectileTerrain,
}

impl Sweep {
    /// The first partner that body `i` is tested against: in the sweep of
    /// mobiles against mobiles the one after itself, so that no pair is
    /// tested twice or against itself; otherwise the first of the pool.
    pub open spec fn first_partner(self, i: int) -> int {
        if self == Sweep::MobileMobile {
            i + 1
        } else {
            0
        }
    }

    /// The pool of the moving or attacking bodies of the sweep.
    pub open spec fn bodies(self, scene: Scene) -> Seq<Rect> {
        match self {
            Sweep::MobileMobile | Sweep::MobileTerrain | Sweep::MobileWall => scene.mobiles,
            Sweep::ProjectileMobile | Sweep::ProjectileTerrain => scene.projs,
        }
    }

    /// The pool of the passive partners of the sweep.
    pub open spec fn partners(self, scene: Scene) -> Seq<Rect> {
        match self {
            Sweep::MobileMobile | Sweep::ProjectileMobile => scene.mobiles,
            Sweep::MobileTerrain | Sweep::ProjectileTerrain => scene.terrains,
            Sweep::MobileWall => scene.walls,
        }
    }

    /// The contact recorded for body `i` with rectangle `a` and partner `j`
    /// with rectangle `b`. Only a contact of a mobile with a wall carries
    /// the minimum translation vector.
    pub open spec fn contact(self, i: usize, j: usize, a: Rect, b: Rect) -> Contact {
        match self {
            Sweep::MobileMobile => Contact {
                a: ColliderID::Mobile(i),
                b: ColliderID::Mobile(j),
                mtv: (0i32, 0i32),
            },
            Sweep::MobileTerrain => Contact {
                a: ColliderID::Mobile(i),
                b: ColliderID::Terrain(j),
                mtv: (0i32, 0i32),
            },
            Sweep::MobileWall => Contact {
                a: ColliderID::Mobile(i),
                b: ColliderID::Wall(j),
                mtv: match displacement(a, b) {
                    Some(v) => v,
                    None => (0i32, 0i32),
                },
            },
            Sweep::ProjectileMobile => Contact {
                a: ColliderID::Projectile(i),
                b: ColliderID::Mobile(j),
                mtv: (0i32, 0i32),
            },
            Sweep::ProjectileTerrain => Contact {
                a: ColliderID::Projectile(i),
                b: ColliderID::Terrain(j),
                mtv: (0i32, 0i32),
            },
        }
    }
}

/// The contacts of body `i`, whose rectangle is `a`, with its partners
/// below index `n`, by rising partner index.
pub open spec fn row(sweep: Sweep, i: int, a: Rect, partners: Seq<Rect>, n: int) -> Seq<Contact>
    decreases n,
{
    if n <= 0 || n <= sweep.first_partner(i) {
        Seq::empty()
    } else {
        let rest = row(sweep, i, a, partners, n - 1);
        if a.overlaps(partners[n - 1]) {
            rest.push(sweep.contact(i as usize, (n - 1) as usize, a, partners[n - 1]))
        } else {
            rest
        }
    }
}

/// The contacts of the bodies below index `m` with all of their partners,
/// by rising body index.
pub open spec fn sweep_contacts(sweep: Sweep, bodies: Seq<Rect>, partners: Seq<Rect>, m: int) -> Seq<
    Contact,
>
    decreases m,
{
    if m <= 0 {
        Seq::empty()
    } else {
        sweep_contacts(sweep, bodies, partners, m - 1) + row(
            sweep,
            m - 1,
            bodies[m - 1],
            partners,
            partners.len() as int,
        )
    }
}

/// The rectangles of the four pools at the time of a tick.
pub struct Scene {
    pub terrains: Seq<Rect>,
    pub mobiles: Seq<Rect>,
    pub walls: Seq<Rect>,
    pub projs: Seq<Rect>,
}

impl Scene {
    /// No pool is longer than an index can tell.
    pub open spec fn indexable(self) -> bool {
        &&& self.terrains.len() <= usize::MAX
        &&& self.mobiles.len() <= usize::MAX
        &&& self.walls.len() <= usize::MAX
        &&& self.projs.len() <= usize::MAX
    }
}

/// All contacts of one sweep over the scene.
pub open spec fn sweep_of_scene(sweep: Sweep, scene: Scene) -> Seq<Contact> {
    sweep_contacts(
        sweep,
        sweep.bodies(scene),
        sweep.partners(scene),
        sweep.bodies(scene).len() as int,
    )
}

/// All contacts of one tick: the five sweeps, one after the other.
pub open spec fn contacts_of(scene: Scene) -> Seq<Contact> {
    sweep_of_scene(Sweep::MobileMobile, scene) + sweep_of_scene(Sweep::MobileTerrain, scene)
        + sweep_of_scene(Sweep::MobileWall, scene) + sweep_of_scene(Sweep::ProjectileMobile, scene)
        + sweep_of_scene(Sweep::ProjectileTerrain, scene)
}

/// The sweep that records contacts of this pair of kinds, if there is one.
pub open spec fn sweep_for(c: Contact) -> Option<Sweep> {
    match (c.a, c.b) {
        (ColliderID::Mobile(_), ColliderID::Mobile(_)) => Some(Sweep::MobileMobile),
        (ColliderID::Mobile(_), ColliderID::Terrain(_)) => Some(Sweep::MobileTerrain),
        (ColliderID::Mobile(_), ColliderID::Wall(_)) => Some(Sweep::MobileWall),
        (ColliderID::Projectile(_), ColliderID::Mobile(_)) => Some(Sweep::ProjectileMobile),
        (ColliderID::Projectile(_), ColliderID::Terrain(_)) => Some(Sweep::ProjectileTerrain),
        _ => None,
    }
}

/// Whether `c` is what `sweep` records for an overlapping pair that it
/// tests, the first body being among the first `m` of `bodies`.
pub open spec fn recorded_by(
    sweep: Sweep,
    bodies: Seq<Rect>,
    partners: Seq<Rect>,
    m: int,
    c: Contact,
) -> bool {
    let i = c.a.index() as int;
    let j = c.b.index() as int;
    &&& sweep_for(c) == Some(sweep)
    &&& i < m
    &&& sweep.first_partner(i) <= j < partners.len()
    &&& bodies[i].overlaps(partners[j])
    &&& c == sweep.contact(c.a.index(), c.b.index(), bodies[i], partners[j])
}

/// Whether `c` is the contact of a pair of bodies of the scene that is
/// tested and overlaps.
pub open spec fn is_contact_of(scene: Scene, c: Contact) -> bool {
    match sweep_for(c) {
        Some(sweep) => recorded_by(
            sweep,
            sweep.bodies(scene),
            sweep.partners(scene),
            sweep.bodies(scene).len() as int,
            c,
        ),
        None => false,
    }
}

/// Whether `c` comes before `d` by the index of the first body and then
/// of the second.
pub open spec fn precedes(c: Contact, d: Contact) -> bool {
    c.a.index() < d.a.index() || (c.a.index() == d.a.index() && c.b.index() < d.b.index())
}

/// The rectangles of a pool of entities.
pub open spec fn entity_rects<T: Collider>(pool: Seq<Entity<T>>) -> Seq<Rect> {
    Seq::new(pool.len(), |i: int| pool[i].collider().bounds())
}

/// The rectangles of a pool of bare colliders.
pub open spec fn collider_rects<T: Collider>(pool: Seq<T>) -> Seq<Rect> {
    Seq::new(pool.len(), |i: int| pool[i].bounds())
}

/// The rectangles of the four pools.
pub open spec fn scene_of(
    terrains: Seq<Entity<Terrain>>,
    mobiles: Seq<Entity<Mobile>>,
    walls: Seq<Wall>,
    projs: Seq<Projectile>,
) -> Scene {
    Scene {
        terrains: entity_rects(terrains),
        mobiles: entity_rects(mobiles),
        walls: collider_rects(walls),
        projs: collider_rects(projs),
    }
}

/// Every rectangle has far edges that `i32` can hold.
pub open spec fn all_well_formed(rects: Seq<Rect>) -> bool {
    forall|i: int| 0 <= i < rects.len() ==> (#[trigger] rects[i]).well_formed()
}

/// Anything with a rectangle to test for overlap.
trait Body {
    spec fn outline(&self) -> Rect;

    fn get_outline(&self) -> (rect: Rect)
        ensures
            rect == self.outline(),
    ;
}

impl<T: Collider> Body for Entity<T> {
    spec fn outline(&self) -> Rect {
        self.collider().bounds()
    }

    fn get_outline(&self) -> Rect {
        self.collider().hitbox()
    }
}

impl Body for Wall {
    spec fn outline(&self) -> Rect {
        self.rect
    }

    fn get_outline(&self) -> Rect {
        self.rect
    }
}

impl Body for Projectile {
    spec fn outline(&self) -> Rect {
        self.rect
    }

    fn get_outline(&self) -> Rect {
        self.rect
    }
}

spec fn outlines<A: Body>(pool: Seq<A>) -> Seq<Rect> {
    Seq::new(pool.len(), |i: int| pool[i].outline())
}

proof fn lemma_row_past_end(sweep: Sweep, i: int, a: Rect, partners: Seq<Rect>, n: int)
    requires
        n <= sweep.first_partner(i),
    ensures
        row(sweep, i, a, partners, n) == Seq::<Contact>::empty(),
{
}

fn make_contact(sweep: Sweep, i: usize, j: usize, a: Rect, b: Rect) -> (contact: Contact)
    requires
        a.well_formed(),
        b.well_formed(),
    ensures
        contact == sweep.contact(i, j, a, b),
{
    match sweep {
        Sweep::MobileMobile => Contact {
            a: ColliderID::Mobile(i),
            b: ColliderID::Mobile(j),
            mtv: (0, 0),
        },
        Sweep::MobileTerrain => Contact {
            a: ColliderID::Mobile(i),
            b: ColliderID::Terrain(j),
            mtv: (0, 0),
        },
        Sweep::MobileWall => Contact {
            a: ColliderID::Mobile(i),
            b: ColliderID::Wall(j),
            mtv: match rect_displacement(a, b) {
                Some((x, y)) => (x, y),
                None => (0, 0),
            },
        },
        Sweep::ProjectileMobile => Contact {
            a: ColliderID::Projectile(i),
            b: ColliderID::Mobile(j),
            mtv: (0, 0),
        },
        Sweep::ProjectileTerrain => Contact {
            a: ColliderID::Projectile(i),
            b: ColliderID::Terrain(j),
            mtv: (0, 0),
        },
    }
}

fn run_sweep<A: Body, B: Body>(sweep: Sweep, bodies: &[A], partners: &[B], into: &mut Vec<Contact>)
    requires
        all_well_formed(outlines(bodies@)),
        all_well_formed(outlines(partners@)),
    ensures
        final(into)@ == old(into)@ + sweep_contacts(
            sweep,
            outlines(bodies@),
            outlines(partners@),
            bodies.len() as int,
        ),
{
    let ghost before = into@;
    let ghost body_rects = outlines(bodies@);
    let ghost partner_rects = outlines(partners@);
    let mut ai: usize = 0;
    while ai < bodies.len()
        invariant
            ai <= bodies.len(),
            body_rects == outlines(bodies@),
            partner_rects == outlines(partners@),
            all_well_formed(body_rects),
            all_well_formed(partner_rects),
            into@ == before + sweep_contacts(sweep, body_rects, partner_rects, ai as int),
        decreases bodies.len() - ai,
    {
        let a: Rect = bodies[ai].get_outline();
        assert(a == body_rects[ai as int]);
        let ghost done = into@;
        let mut bi: usize = match sweep {
            Sweep::MobileMobile => ai + 1,
            _ => 0,
        };
        assert(into@ =~= done + row(sweep, ai as int, a, partner_rects, bi as int));
        while bi < partners.len()
            invariant
                sweep.first_partner(ai as int) <= bi,
                bi <= partners.len() || bi == sweep.first_partner(ai as int),
                ai < bodies.len(),
                partner_rects == outlines(partners@),
                all_well_formed(partner_rects),
                a.well_formed(),
                into@ == done + row(sweep, ai as int, a, partner_rects, bi as int),
            decreases partners.len() - bi,
        {
            let b: Rect = partners[bi].get_outline();
            assert(b == partner_rects[bi as int]);
            if rects_overlap(a, b) {
                into.push(make_contact(sweep, ai, bi, a, b));
            }
            bi += 1;
            assert(into@ =~= done + row(sweep, ai as int, a, partner_rects, bi as int));
        }
        assert(row(sweep, ai as int, a, partner_rects, bi as int) == row(
            sweep,
            ai as int,
            a,
            partner_rects,
            partners.len() as int,
        )) by {
            if bi > partners.len() {
                lemma_row_past_end(sweep, ai as int, a, partner_rects, bi as int);
                lemma_row_past_end(sweep, ai as int, a, partner_rects, partners.len() as int);
            }
        }
        assert(into@ == before + sweep_contacts(sweep, body_rects, partner_rects, ai + 1)) by {
            assert(into@ =~= before + (sweep_contacts(sweep, body_rects, partner_rects, ai as int)
                + row(sweep, ai as int, a, partner_rects, partners.len() as int)));
        }
        ai += 1;
    }
}

fn pool_is_well_formed<A: Body>(pool: &[A]) -> (fits: bool)
    ensures
        fits == all_well_formed(outlines(pool@)),
{
    let mut i: usize = 0;
    while i < pool.len()
        invariant
            i <= pool.len(),
            forall|k: int| 0 <= k < i ==> (#[trigger] outlines(pool@)[k]).well_formed(),
        decreases pool.len() - i,
    {
        if !pool[i].get_outline().is_well_formed() {
            assert(!outlines(pool@)[i as int].well_formed());
            return false;
        }
        i += 1;
    }
    true
}

/// Whether the contacts of the pools can be gathered: every rectangle has
/// far edges that `i32` can hold.
pub open spec fn gatherable(
    terrains: Seq<Entity<Terrain>>,
    mobiles: Seq<Entity<Mobile>>,
    walls: Seq<Wall>,
    projs: Seq<Projectile>,
) -> bool {
    &&& all_well_formed(entity_rects(terrains))
    &&& all_well_formed(entity_rects(mobiles))
    &&& all_well_formed(collider_rects(walls))
    &&& all_well_formed(collider_rects(projs))
}

/// Computes [`gatherable`].
pub fn can_gather(
    terrains: &[Entity<Terrain>],
    mobiles: &[Entity<Mobile>],
    walls: &[Wall],
    projs: &[Projectile],
) -> (fits: bool)
    ensures
        fits == gatherable(terrains@, mobiles@, walls@, projs@),
{
    assert(outlines(terrains@) =~= entity_rects(terrains@));
    assert(outlines(mobiles@) =~= entity_rects(mobiles@));
    assert(outlines(walls@) =~= collider_rects(walls@));
    assert(outlines(projs@) =~= collider_rects(projs@));
    pool_is_well_formed(terrains) && pool_is_well_formed(mobiles) && pool_is_well_formed(walls)
        && pool_is_well_formed(projs)
}

/// Appends to `into` the contacts of this tick: mobiles against mobiles,
/// mobiles against terrain, mobiles against walls, projectiles against
/// mobiles, projectiles against terrain, in this order, each sweep by
/// rising index of the first body and then of its partner. Nothing but
/// `into` changes, and what `into` held stays in front.
pub fn gather_contacts(
    terrains: &[Entity<Terrain>],
    mobiles: &[Entity<Mobile>],
    walls: &[Wall],
    projs: &[Projectile],
    into: &mut Vec<Contact>,
)
    requires
        gatherable(terrains@, mobiles@, walls@, projs@),
    ensures
        final(into)@ == old(into)@ + contacts_of(scene_of(terrains@, mobiles@, walls@, projs@)),
{
    assert(outlines(terrains@) =~= entity_rects(terrains@));
    assert(outlines(mobiles@) =~= entity_rects(mobiles@));
    assert(outlines(walls@) =~= collider_rects(walls@));
    assert(outlines(projs@) =~= collider_rects(projs@));
    let ghost before = into@;
    run_sweep(Sweep::MobileMobile, mobiles, mobiles, into);
    run_sweep(Sweep::MobileTerrain, mobiles, terrains, into);
    run_sweep(Sweep::MobileWall, mobiles, walls, into);
    run_sweep(Sweep::ProjectileMobile, projs, mobiles, into);
    run_sweep(Sweep::ProjectileTerrain, projs, terrains, into);
    assert(into@ =~= before + contacts_of(scene_of(terrains@, mobiles@, walls@, projs@)));
}

proof fn lemma_concat_contains<A>(s: Seq<A>, t: Seq<A>)
    ensures
        forall|x: A| #[trigger] (s + t).contains(x) <==> s.contains(x) || t.contains(x),
{
    assert forall|x: A| #[trigger] (s + t).contains(x) <==> s.contains(x) || t.contains(x) by {
        if (s + t).contains(x) {
            let k = choose|k: int| 0 <= k < (s + t).len() && (s + t)[k] == x;
            if k < s.len() {
                assert(s[k] == x);
            } else {
                assert(t[k - s.len()] == x);
            }
        }
        if s.contains(x) {
            let k = choose|k: int| 0 <= k < s.len() && s[k] == x;
            assert((s + t)[k] == x);
        }
        if t.contains(x) {
            let k = choose|k: int| 0 <= k < t.len() && t[k] == x;
            assert((s + t)[k + s.len()] == x);
        }
    }
}

proof fn lemma_push_contains<A>(s: Seq<A>, a: A)
    ensures
        forall|x: A| #[trigger] s.push(a).contains(x) <==> s.contains(x) || x == a,
{
    assert(s.push(a) =~= s + seq![a]);
    lemma_concat_contains(s, seq![a]);
    assert forall|x: A| #[trigger] seq![a].contains(x) <==> x == a by {
        if x == a {
            assert(seq![a][0] == x);
        }
    }
}

proof fn lemma_concat_no_duplicates<A>(s: Seq<A>, t: Seq<A>)
    requires
        s.no_duplicates(),
        t.no_duplicates(),
        forall|x: A| s.contains(x) ==> !t.contains(x),
    ensures
        (s + t).no_duplicates(),
{
    assert forall|p: int, q: int| 0 <= p < (s + t).len() && 0 <= q < (s + t).len() && p != q implies (
    s + t)[p] != (s + t)[q] by {
        if p < s.len() && q >= s.len() {
            assert(s.contains(s[p]));
            assert(t.contains(t[q - s.len()]));
        }
        if q < s.len() && p >= s.len() {
            assert(s.contains(s[q]));
            assert(t.contains(t[p - s.len()]));
        }
    }
}

/// What one row holds: exactly the contacts of body `i` with the partners
/// below `n` that it is tested against and overlaps, by rising partner
/// index.
proof fn lemma_row(sweep: Sweep, i: int, bodies: Seq<Rect>, partners: Seq<Rect>, n: int)
    requires
        0 <= i < bodies.len() <= usize::MAX,
        0 <= n <= partners.len() <= usize::MAX,
    ensures
        forall|c: Contact| #[trigger]
            row(sweep, i, bodies[i], partners, n).contains(c) <==> c.a.index() == i && c.b.index()
                < n && recorded_by(sweep, bodies, partners, i + 1, c),
        forall|p: int, q: int|
            0 <= p < q < row(sweep, i, bodies[i], partners, n).len() ==> precedes(
                #[trigger] row(sweep, i, bodies[i], partners, n)[p],
                #[trigger] row(sweep, i, bodies[i], partners, n)[q],
            ),
    decreases n,
{
    let a = bodies[i];
    let this = row(sweep, i, a, partners, n);
    if n <= 0 || n <= sweep.first_partner(i) {
        assert forall|c: Contact| #[trigger]
            this.contains(c) <==> c.a.index() == i && c.b.index() < n && recorded_by(
                sweep,
                bodies,
                partners,
                i + 1,
                c,
            ) by {}
    } else {
        lemma_row(sweep, i, bodies, partners, n - 1);
        let rest = row(sweep, i, a, partners, n - 1);
        let fresh = sweep.contact(i as usize, (n - 1) as usize, a, partners[n - 1]);
        lemma_push_contains(rest, fresh);
        assert(fresh.a.index() == i && fresh.b.index() == n - 1);
        assert(sweep_for(fresh) == Some(sweep));
        assert forall|c: Contact| #[trigger]
            this.contains(c) <==> c.a.index() == i && c.b.index() < n && recorded_by(
                sweep,
                bodies,
                partners,
                i + 1,
                c,
            ) by {
            if c.a.index() == i && c.b.index() == n - 1 && recorded_by(
                sweep,
                bodies,
                partners,
                i + 1,
                c,
            ) {
                assert(c == fresh);
            }
        }
        assert forall|p: int, q: int| 0 <= p < q < this.len() implies precedes(
            #[trigger] this[p],
            #[trigger] this[q],
        ) by {
            assert(rest.contains(this[p]));
            if q < rest.len() {
                assert(precedes(rest[p], rest[q]));
            }
        }
    }
}

/// What one sweep holds: exactly the contacts of the pairs that it tests
/// and that overlap, each once, by rising index of the first body and then
/// of the second.
pub proof fn lemma_sweep(sweep: Sweep, bodies: Seq<Rect>, partners: Seq<Rect>, m: int)
    requires
        0 <= m <= bodies.len() <= usize::MAX,
        partners.len() <= usize::MAX,
    ensures
        forall|c: Contact| #[trigger]
            sweep_contacts(sweep, bodies, partners, m).contains(c) <==> recorded_by(
                sweep,
                bodies,
                partners,
                m,
                c,
            ),
        forall|p: int, q: int|
            0 <= p < q < sweep_contacts(sweep, bodies, partners, m).len() ==> precedes(
                #[trigger] sweep_contacts(sweep, bodies, partners, m)[p],
                #[trigger] sweep_contacts(sweep, bodies, partners, m)[q],
            ),
        sweep_contacts(sweep, bodies, partners, m).no_duplicates(),
    decreases m,
{
    let this = sweep_contacts(sweep, bodies, partners, m);
    if m > 0 {
        lemma_sweep(sweep, bodies, partners, m - 1);
        lemma_row(sweep, m - 1, bodies, partners, partners.len() as int);
        let before = sweep_contacts(sweep, bodies, partners, m - 1);
        let last = row(sweep, m - 1, bodies[m - 1], partners, partners.len() as int);
        lemma_concat_contains(before, last);
        assert forall|c: Contact| #[trigger]
            this.contains(c) <==> recorded_by(sweep, bodies, partners, m, c) by {}
        assert forall|p: int, q: int| 0 <= p < q < this.len() implies precedes(
            #[trigger] this[p],
            #[trigger] this[q],
        ) by {
            if q < before.len() {
                assert(precedes(before[p], before[q]));
            } else if p < before.len() {
                assert(before.contains(before[p]));
                assert(last.contains(last[q - before.len()]));
            } else {
                assert(precedes(last[p - before.len()], last[q - before.len()]));
            }
        }
    }
    assert forall|p: int, q: int| 0 <= p < this.len() && 0 <= q < this.len() && p != q implies this[p]
        != this[q] by {
        if p < q {
            assert(precedes(this[p], this[q]));
        } else {
            assert(precedes(this[q], this[p]));
        }
    }
}

/// The generator is complete and exact: a contact is in the list of a tick
/// exactly if it is the contact of a pair that is tested and overlaps, and
/// no contact is in the list twice.
pub proof fn lemma_contacts_are_the_overlaps(scene: Scene)
    requires
        scene.indexable(),
    ensures
        forall|c: Contact| #[trigger] contacts_of(scene).contains(c) <==> is_contact_of(scene, c),
        contacts_of(scene).no_duplicates(),
{
    let mm = sweep_of_scene(Sweep::MobileMobile, scene);
    let mt = sweep_of_scene(Sweep::MobileTerrain, scene);
    let mw = sweep_of_scene(Sweep::MobileWall, scene);
    let pm = sweep_of_scene(Sweep::ProjectileMobile, scene);
    let pt = sweep_of_scene(Sweep::ProjectileTerrain, scene);
    lemma_sweep(Sweep::MobileMobile, scene.mobiles, scene.mobiles, scene.mobiles.len() as int);
    lemma_sweep(Sweep::MobileTerrain, scene.mobiles, scene.terrains, scene.mobiles.len() as int);
    lemma_sweep(Sweep::MobileWall, scene.mobiles, scene.walls, scene.mobiles.len() as int);
    lemma_sweep(Sweep::ProjectileMobile, scene.projs, scene.mobiles, scene.projs.len() as int);
    lemma_sweep(Sweep::ProjectileTerrain, scene.projs, scene.terrains, scene.projs.len() as int);
    lemma_concat_contains(mm, mt);
    lemma_concat_contains(mm + mt, mw);
    lemma_concat_contains(mm + mt + mw, pm);
    lemma_concat_contains(mm + mt + mw + pm, pt);
    lemma_concat_no_duplicates(mm, mt);
    lemma_concat_no_duplicates(mm + mt, mw);
    lemma_concat_no_duplicates(mm + mt + mw, pm);
    lemma_concat_no_duplicates(mm + mt + mw + pm, pt);
}

/// The sides of a contact: the first body of every contact in the list of
/// a tick is a mobile or a projectile, the second a block of terrain, a
/// mobile or a wall, never a projectile; a projectile is never paired with
/// a wall. Only a contact of a mobile with a wall carries a translation
/// vector, which has no negative component and at most one that is not
/// zero; every other contact carries zero.
pub proof fn lemma_contact_sides(scene: Scene, c: Contact)
    requires
        scene.indexable(),
        contacts_of(scene).contains(c),
    ensures
        c.a is Mobile || c.a is Projectile,
        c.b is Terrain || c.b is Mobile || c.b is Wall,
        c.a is Projectile ==> !(c.b is Wall),
        !(c.a is Mobile && c.b is Wall) ==> c.mtv == (0i32, 0i32),
        c.mtv.0 >= 0 && c.mtv.1 >= 0,
        c.mtv.0 == 0 || c.mtv.1 == 0,
{
    lemma_contacts_are_the_overlaps(scene);
    assert(is_contact_of(scene, c));
}

/// The generator is deterministic: two runs on the same pools, appending
/// to the same list, end with the same list.
pub proof fn lemma_generation_is_deterministic(
    scene: Scene,
    before: Seq<Contact>,
    first: Seq<Contact>,
    second: Seq<Contact>,
)
    requires
        first == before + contacts_of(scene),
        second == before + contacts_of(scene),
    ensures
        first == second,
{
}

} // verus!
