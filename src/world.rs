//! The world's bookkeeping: which planets, ships and bullets exist, who owns
//! what, steering, scores, and the decisions of each simulation phase. The
//! kinematics of a body are left to the body type `B`: the world moves bodies
//! in and out, and decides from collision facts what happens to whom.

use vstd::prelude::*;

verus! {

/// What to draw for an entity.
#[derive(PartialEq, Eq, Structural, Debug, Clone, Copy)]
pub enum DisplayType {
    Planet,
    Ship,
}

/// How the body of a bullet is made from the body of the ship that fires it.
pub trait Ballistic: Sized {
    /// The body of a bullet fired from `self` along the angle whose IEEE-754
    /// bit pattern is `angle`.
    fn projectile(&self, angle: u64) -> Self;
}

/// A counter that stops at its largest value.
pub open spec fn bump(x: u32) -> u32 {
    if x == u32::MAX {
        x
    } else {
        (x + 1) as u32
    }
}

/// `x` as a counter that stops at its largest value.
pub open spec fn capped(x: int) -> u32 {
    if x >= u32::MAX {
        u32::MAX
    } else {
        x as u32
    }
}

/// A player's ship: its id, body, steering direction (the IEEE-754 bit
/// pattern of an angle; `None` for no thrust) and score.
pub struct Ship<B> {
    pub id: u8,
    pub body: B,
    pub steering: Option<u64>,
    pub kills: u32,
    pub deaths: u32,
}

impl<B> Ship<B> {
    /// A ship as it enters the world.
    pub open spec fn spawned(id: u8, body: B) -> Ship<B> {
        Ship { id, body, steering: None, kills: 0, deaths: 0 }
    }

    pub open spec fn with_steering(self, d: Option<u64>) -> Ship<B> {
        Ship { id: self.id, body: self.body, steering: d, kills: self.kills, deaths: self.deaths }
    }

    pub fn new(id: u8, body: B) -> (s: Ship<B>)
        ensures
            s == Ship::spawned(id, body),
    {
        Ship { id, body, steering: None, kills: 0, deaths: 0 }
    }

    pub fn get_id(&self) -> (r: u8)
        ensures
            r == self.id,
    {
        self.id
    }

    /// Sets or clears the steering direction.
    pub fn change_direction(&mut self, direction: Option<u64>)
        ensures
            *final(self) == old(self).with_steering(direction),
    {
        self.steering = direction;
    }

    /// Credits one kill.
    pub fn kill(&mut self)
        ensures
            final(self).kills == bump(old(self).kills),
            final(self).id == old(self).id,
            final(self).body == old(self).body,
            final(self).steering == old(self).steering,
            final(self).deaths == old(self).deaths,
    {
        self.kills = self.kills.saturating_add(1);
    }

    /// Puts the ship back into play with a fresh body and counts a death.
    pub fn respawn(&mut self, body: B)
        ensures
            final(self).body == body,
            final(self).deaths == bump(old(self).deaths),
            final(self).id == old(self).id,
            final(self).steering == old(self).steering,
            final(self).kills == old(self).kills,
    {
        self.body = body;
        self.deaths = self.deaths.saturating_add(1);
    }
}

impl<B: Ballistic> Ship<B> {
    /// A bullet fired from this ship along `direction` (an angle's IEEE-754
    /// bit pattern), owned by this ship.
    pub fn shoot(&self, direction: u64) -> (b: Bullet<B>)
        ensures
            b.owner_id == self.id,
    {
        Bullet::new(self.id, self.body.projectile(direction))
    }
}

/// A bullet and the id of the ship that fired it.
pub struct Bullet<B> {
    pub owner_id: u8,
    pub body: B,
}

impl<B> Bullet<B> {
    pub fn new(owner_id: u8, body: B) -> (b: Bullet<B>)
        ensures
            b == (Bullet { owner_id, body }),
    {
        Bullet { owner_id, body }
    }

    pub fn get_id(&self) -> (r: u8)
        ensures
            r == self.owner_id,
    {
        self.owner_id
    }
}

/// No two ships share an id.
pub open spec fn ids_unique<B>(ships: Seq<Ship<B>>) -> bool {
    forall|i: int, j: int|
        0 <= i < ships.len() && 0 <= j < ships.len() && i != j ==> #[trigger] ships[i].id
            != #[trigger] ships[j].id
}

pub open spec fn has_id<B>(ships: Seq<Ship<B>>, id: u8) -> bool {
    exists|i: int| 0 <= i < ships.len() && #[trigger] ships[i].id == id
}

/// Where the ship with `id` stands (meaningful when it exists).
pub open spec fn index_of<B>(ships: Seq<Ship<B>>, id: u8) -> int {
    choose|i: int| 0 <= i < ships.len() && #[trigger] ships[i].id == id
}

/// The largest id of a ship, 0 when there is none.
pub open spec fn max_id<B>(ships: Seq<Ship<B>>) -> nat
    decreases ships.len(),
{
    if ships.len() == 0 {
        0
    } else {
        let m = max_id(ships.drop_last());
        if ships.last().id > m {
            ships.last().id as nat
        } else {
            m
        }
    }
}

/// The ships after one more joins under the next id (one above the largest
/// live id, 1 when there is none); unchanged when no `u8` is left above.
pub open spec fn added<B>(ships: Seq<Ship<B>>, body: B) -> Seq<Ship<B>> {
    if max_id(ships) < 255 {
        ships.push(Ship::spawned((max_id(ships) + 1) as u8, body))
    } else {
        ships
    }
}

/// The ships after one joins under `id`, unless that id is live.
pub open spec fn spawned_as<B>(ships: Seq<Ship<B>>, id: u8, body: B) -> Seq<Ship<B>> {
    if has_id(ships, id) {
        ships
    } else {
        ships.push(Ship::spawned(id, body))
    }
}

/// The ships without the one with `id`.
pub open spec fn without<B>(ships: Seq<Ship<B>>, id: u8) -> Seq<Ship<B>> {
    if has_id(ships, id) {
        ships.remove(index_of(ships, id))
    } else {
        ships
    }
}

/// The ships after the one with `id` takes steering direction `d`.
pub open spec fn steered<B>(ships: Seq<Ship<B>>, id: u8, d: Option<u64>) -> Seq<Ship<B>> {
    if has_id(ships, id) {
        ships.update(index_of(ships, id), ships[index_of(ships, id)].with_steering(d))
    } else {
        ships
    }
}

/// The bullets that are not marked in `gone`, in their order.
pub open spec fn survivors<B>(bullets: Seq<Bullet<B>>, gone: Seq<bool>) -> Seq<Bullet<B>>
    decreases bullets.len(),
{
    if bullets.len() == 0 {
        bullets
    } else {
        let rest = survivors(bullets.drop_first(), gone.drop_first());
        if gone[0] {
            rest
        } else {
            seq![bullets[0]] + rest
        }
    }
}

/// Some bullet not fired by `ship` touches it (`row[j]`: bullet `j` touches).
pub open spec fn struck<B>(ship: Ship<B>, bullets: Seq<Bullet<B>>, row: Seq<bool>) -> bool {
    exists|j: int| 0 <= j < bullets.len() && #[trigger] row[j] && bullets[j].owner_id != ship.id
}

/// Ship `i` dies this tick: it touches a planet or a bullet of another ship.
pub open spec fn doomed<B>(
    ships: Seq<Ship<B>>,
    bullets: Seq<Bullet<B>>,
    planet_hit: Seq<bool>,
    contacts: Seq<Vec<bool>>,
    i: int,
) -> bool {
    planet_hit[i] || struck(ships[i], bullets, contacts[i]@)
}

/// Among the first `j` bullets, those of `shooter` that touch the ship
/// `victim` of this row, counted unless the two are the same ship.
pub open spec fn row_credits<B>(
    bullets: Seq<Bullet<B>>,
    row: Seq<bool>,
    shooter: u8,
    victim: u8,
    j: int,
) -> nat
    decreases j,
{
    if j <= 0 {
        0
    } else {
        row_credits(bullets, row, shooter, victim, j - 1) + if row[j - 1] && bullets[j
            - 1].owner_id == shooter && shooter != victim {
            1nat
        } else {
            0nat
        }
    }
}

/// Kills that `shooter` earns on the first `i` ships of the contact table.
pub open spec fn credits<B>(
    ships: Seq<Ship<B>>,
    bullets: Seq<Bullet<B>>,
    contacts: Seq<Vec<bool>>,
    shooter: u8,
    i: int,
) -> nat
    decreases i,
{
    if i <= 0 {
        0
    } else {
        credits(ships, bullets, contacts, shooter, i - 1) + row_credits(
            bullets,
            contacts[i - 1]@,
            shooter,
            ships[i - 1].id,
            bullets.len() as int,
        )
    }
}

/// Ship `i` once the ship phase has settled: kills credited to it, and a
/// fresh body (`fresh[i]`) with one more death if it died.
pub open spec fn settled<B>(
    ships: Seq<Ship<B>>,
    bullets: Seq<Bullet<B>>,
    planet_hit: Seq<bool>,
    contacts: Seq<Vec<bool>>,
    fresh: Seq<B>,
    i: int,
) -> Ship<B> {
    let s = ships[i];
    let kills = capped(s.kills + credits(ships, bullets, contacts, s.id, ships.len() as int));
    if doomed(ships, bullets, planet_hit, contacts, i) {
        Ship { id: s.id, body: fresh[i], steering: s.steering, kills, deaths: bump(s.deaths) }
    } else {
        Ship { id: s.id, body: s.body, steering: s.steering, kills, deaths: s.deaths }
    }
}

/// `after` is `before` with one bullet fired by ship `id` appended, if that
/// ship is live, and `before` itself otherwise.
pub open spec fn fired<B>(
    ships: Seq<Ship<B>>,
    before: Seq<Bullet<B>>,
    after: Seq<Bullet<B>>,
    id: u8,
) -> bool {
    if has_id(ships, id) {
        after.len() == before.len() + 1 && after.take(before.len() as int) == before
            && after.last().owner_id == id
    } else {
        after == before
    }
}

/// The two ships differ at most in their kills.
pub open spec fn same_but_kills<B>(a: Ship<B>, b: Ship<B>) -> bool {
    a.id == b.id && a.body == b.body && a.steering == b.steering && a.deaths == b.deaths
}

proof fn lemma_max_id_bounds<B>(ships: Seq<Ship<B>>)
    ensures
        max_id(ships) <= 255,
        forall|i: int| 0 <= i < ships.len() ==> #[trigger] ships[i].id <= max_id(ships),
    decreases ships.len(),
{
    if ships.len() > 0 {
        lemma_max_id_bounds(ships.drop_last());
        assert forall|i: int| 0 <= i < ships.len() implies #[trigger] ships[i].id <= max_id(
            ships,
        ) by {
            if i < ships.len() - 1 {
                assert(ships[i] == ships.drop_last()[i]);
            }
        }
    }
}

proof fn lemma_index_of<B>(ships: Seq<Ship<B>>, id: u8, i: int)
    requires
        ids_unique(ships),
        0 <= i < ships.len(),
        ships[i].id == id,
    ensures
        has_id(ships, id),
        index_of(ships, id) == i,
{
    assert(has_id(ships, id));
    let k = index_of(ships, id);
    assert(ships[k].id == id);
}

/// Removing, under the id it got, a ship just added gives the ships from
/// before: their number is restored.
pub proof fn lemma_add_then_remove<B>(ships: Seq<Ship<B>>, body: B)
    requires
        ids_unique(ships),
        max_id(ships) < 255,
    ensures
        without(added(ships, body), (max_id(ships) + 1) as u8) == ships,
        without(added(ships, body), (max_id(ships) + 1) as u8).len() == ships.len(),
{
    lemma_max_id_bounds(ships);
    let id = (max_id(ships) + 1) as u8;
    let a = added(ships, body);
    assert(a[ships.len() as int].id == id);
    assert(ids_unique(a)) by {
        assert forall|i: int, j: int|
            0 <= i < a.len() && 0 <= j < a.len() && i != j implies #[trigger] a[i].id
                != #[trigger] a[j].id by {
            if i < ships.len() {
                assert(a[i] == ships[i]);
            }
            if j < ships.len() {
                assert(a[j] == ships[j]);
            }
        }
    }
    lemma_index_of(a, id, ships.len() as int);
    assert(a.remove(ships.len() as int) =~= ships);
}

/// A ship that joins under an id that is not live, and is then removed
/// under that id, leaves the ships as they were.
pub proof fn lemma_spawn_then_remove<B>(ships: Seq<Ship<B>>, id: u8, body: B)
    requires
        ids_unique(ships),
        !has_id(ships, id),
    ensures
        without(spawned_as(ships, id, body), id) == ships,
{
    let a = spawned_as(ships, id, body);
    assert(ids_unique(a)) by {
        assert forall|i: int, j: int|
            0 <= i < a.len() && 0 <= j < a.len() && i != j implies #[trigger] a[i].id
                != #[trigger] a[j].id by {
            if i < ships.len() {
                assert(a[i] == ships[i]);
            }
            if j < ships.len() {
                assert(a[j] == ships[j]);
            }
        }
    }
    lemma_index_of(a, id, ships.len() as int);
    assert(a.remove(ships.len() as int) =~= ships);
}

/// Removing the same id twice is the same as removing it once.
pub proof fn lemma_remove_twice<B>(ships: Seq<Ship<B>>, id: u8)
    requires
        ids_unique(ships),
    ensures
        without(without(ships, id), id) == without(ships, id),
{
    if has_id(ships, id) {
        let i = index_of(ships, id);
        let r = ships.remove(i);
        assert forall|k: int| 0 <= k < r.len() implies #[trigger] r[k].id != id by {
            if k < i {
                assert(r[k] == ships[k]);
            } else {
                assert(r[k] == ships[k + 1]);
            }
        }
    }
}

proof fn lemma_row_credits_single<B>(
    bullets: Seq<Bullet<B>>,
    row: Seq<bool>,
    shooter: u8,
    victim: u8,
    j: int,
    upto: int,
)
    requires
        0 <= j < bullets.len(),
        row.len() == bullets.len(),
        0 <= upto <= bullets.len(),
        forall|c: int| 0 <= c < row.len() && #[trigger] row[c] ==> c == j,
    ensures
        row_credits(bullets, row, shooter, victim, upto) == if j < upto && row[j]
            && bullets[j].owner_id == shooter && shooter != victim {
            1nat
        } else {
            0nat
        },
    decreases upto,
{
    if upto > 0 {
        lemma_row_credits_single(bullets, row, shooter, victim, j, upto - 1);
    }
}

proof fn lemma_credits_single<B>(
    ships: Seq<Ship<B>>,
    bullets: Seq<Bullet<B>>,
    contacts: Seq<Vec<bool>>,
    shooter: u8,
    b: int,
    j: int,
    upto: int,
)
    requires
        contacts.len() == ships.len(),
        forall|r: int| 0 <= r < contacts.len() ==> #[trigger] contacts[r]@.len() == bullets.len(),
        0 <= b < ships.len(),
        0 <= j < bullets.len(),
        0 <= upto <= ships.len(),
        forall|r: int, c: int|
            0 <= r < contacts.len() && 0 <= c < bullets.len() && #[trigger] contacts[r]@[c] ==> r == b
                && c == j,
    ensures
        credits(ships, bullets, contacts, shooter, upto) == if b < upto && contacts[b]@[j]
            && bullets[j].owner_id == shooter && shooter != ships[b].id {
            1nat
        } else {
            0nat
        },
    decreases upto,
{
    if upto > 0 {
        lemma_credits_single(ships, bullets, contacts, shooter, b, j, upto - 1);
        let r = upto - 1;
        let row = contacts[r]@;
        if r == b {
            lemma_row_credits_single(bullets, row, shooter, ships[r].id, j, bullets.len() as int);
        } else {
            assert forall|c: int| 0 <= c < row.len() implies !#[trigger] row[c] by {}
            lemma_row_credits_single(bullets, row, shooter, ships[r].id, j, bullets.len() as int);
        }
    }
}

/// When a bullet of ship `a` is the only contact of the tick and it touches
/// another ship `b`, the ship phase counts one death for `b` and one kill
/// for `a`.
pub proof fn lemma_hit_scores<B>(
    ships: Seq<Ship<B>>,
    bullets: Seq<Bullet<B>>,
    planet_hit: Seq<bool>,
    contacts: Seq<Vec<bool>>,
    fresh: Seq<B>,
    a: int,
    b: int,
    j: int,
)
    requires
        ids_unique(ships),
        planet_hit.len() == ships.len(),
        contacts.len() == ships.len(),
        forall|r: int| 0 <= r < contacts.len() ==> #[trigger] contacts[r]@.len() == bullets.len(),
        0 <= a < ships.len(),
        0 <= b < ships.len(),
        a != b,
        0 <= j < bullets.len(),
        bullets[j].owner_id == ships[a].id,
        contacts[b]@[j],
        forall|r: int, c: int|
            0 <= r < contacts.len() && 0 <= c < bullets.len() && #[trigger] contacts[r]@[c] ==> r == b
                && c == j,
    ensures
        doomed(ships, bullets, planet_hit, contacts, b),
        settled(ships, bullets, planet_hit, contacts, fresh, b).deaths == bump(ships[b].deaths),
        settled(ships, bullets, planet_hit, contacts, fresh, b).body == fresh[b],
        settled(ships, bullets, planet_hit, contacts, fresh, a).kills == capped(
            ships[a].kills + 1,
        ),
{
    assert(ships[a].id != ships[b].id);
    assert(struck(ships[b], bullets, contacts[b]@));
    lemma_credits_single(ships, bullets, contacts, ships[a].id, b, j, ships.len() as int);
}

proof fn lemma_capped_step(x: int)
    ensures
        0 <= x ==> capped(x + 1) == bump(capped(x)),
{
}

/// The world: planets, ships and bullets. Ship ids are unique.
pub struct Space<B> {
    planets: Vec<B>,
    ships: Vec<Ship<B>>,
    bullets: Vec<Bullet<B>>,
}

impl<B> Space<B> {
    pub closed spec fn planets(&self) -> Seq<B> {
        self.planets@
    }

    pub closed spec fn ships(&self) -> Seq<Ship<B>> {
        self.ships@
    }

    pub closed spec fn bullets(&self) -> Seq<Bullet<B>> {
        self.bullets@
    }

    pub open spec fn wf(&self) -> bool {
        ids_unique(self.ships())
    }

    /// An empty world.
    pub fn new() -> (s: Space<B>)
        ensures
            s.wf(),
            s.planets() == Seq::<B>::empty(),
            s.ships() == Seq::<Ship<B>>::empty(),
            s.bullets() == Seq::<Bullet<B>>::empty(),
    {
        Space { planets: Vec::new(), ships: Vec::new(), bullets: Vec::new() }
    }

    pub fn planet_count(&self) -> (r: usize)
        ensures
            r == self.planets().len(),
    {
        self.planets.len()
    }

    pub fn ship_count(&self) -> (r: usize)
        ensures
            r == self.ships().len(),
    {
        self.ships.len()
    }

    pub fn bullet_count(&self) -> (r: usize)
        ensures
            r == self.bullets().len(),
    {
        self.bullets.len()
    }

    pub fn planet(&self, i: usize) -> (r: &B)
        requires
            i < self.planets().len(),
        ensures
            *r == self.planets()[i as int],
    {
        &self.planets[i]
    }

    pub fn ship(&self, i: usize) -> (r: &Ship<B>)
        requires
            i < self.ships().len(),
        ensures
            *r == self.ships()[i as int],
    {
        &self.ships[i]
    }

    pub fn bullet(&self, i: usize) -> (r: &Bullet<B>)
        requires
            i < self.bullets().len(),
        ensures
            *r == self.bullets()[i as int],
    {
        &self.bullets[i]
    }

    /// Where the ship with `id` stands.
    pub fn get_ship_index(&self, id: u8) -> (r: Option<usize>)
        requires
            self.wf(),
        ensures
            r is None <==> !has_id(self.ships(), id),
            r matches Some(i) ==> i < self.ships().len() && i == index_of(self.ships(), id),
    {
        let mut i: usize = 0;
        while i < self.ships.len()
            invariant
                self.wf(),
                i <= self.ships@.len(),
                forall|k: int| 0 <= k < i ==> #[trigger] self.ships@[k].id != id,
            decreases self.ships@.len() - i,
        {
            if self.ships[i].id == id {
                proof {
                    lemma_index_of(self.ships@, id, i as int);
                }
                return Some(i);
            }
            i += 1;
        }
        None
    }

    /// Adds a planet; every planet is accepted.
    pub fn add_planet(&mut self, body: B) -> (r: bool)
        ensures
            r,
            final(self).planets() == old(self).planets().push(body),
            final(self).ships() == old(self).ships(),
            final(self).bullets() == old(self).bullets(),
    {
        self.planets.push(body);
        true
    }

    /// Adds a ship under the next id: one above the largest live id, or 1
    /// when there is no ship. `None` when no id is left.
    pub fn add_ship(&mut self, body: B) -> (r: Option<u8>)
        requires
            old(self).wf(),
        ensures
            final(self).wf(),
            r is Some <==> max_id(old(self).ships()) < 255,
            r matches Some(id) ==> id == max_id(old(self).ships()) + 1,
            final(self).ships() == added(old(self).ships(), body),
            final(self).planets() == old(self).planets(),
            final(self).bullets() == old(self).bullets(),
    {
        let mut m: u8 = 0;
        let mut i: usize = 0;
        while i < self.ships.len()
            invariant
                i <= self.ships@.len(),
                m == max_id(self.ships@.take(i as int)),
            decreases self.ships@.len() - i,
        {
            assert(self.ships@.take(i + 1).drop_last() =~= self.ships@.take(i as int));
            if self.ships[i].id > m {
                m = self.ships[i].id;
            }
            i += 1;
        }
        assert(self.ships@.take(i as int) =~= self.ships@);
        proof {
            lemma_max_id_bounds(self.ships@);
        }
        if m == 255 {
            return None;
        }
        let id = m + 1;
        self.ships.push(Ship::new(id, body));
        Some(id)
    }

    /// Adds a ship under `id`; `false`, and nothing changes, if that id is live.
    pub fn spawn_ship(&mut self, id: u8, body: B) -> (r: bool)
        requires
            old(self).wf(),
        ensures
            final(self).wf(),
            r == !has_id(old(self).ships(), id),
            final(self).ships() == spawned_as(old(self).ships(), id, body),
            final(self).planets() == old(self).planets(),
            final(self).bullets() == old(self).bullets(),
    {
        match self.get_ship_index(id) {
            Some(_) => false,
            None => {
                self.ships.push(Ship::new(id, body));
                true
            },
        }
    }

    /// Removes the ship with `id`; `false`, and nothing changes, if there is none.
    pub fn remove_ship(&mut self, id: u8) -> (r: bool)
        requires
            old(self).wf(),
        ensures
            final(self).wf(),
            r == has_id(old(self).ships(), id),
            final(self).ships() == without(old(self).ships(), id),
            final(self).planets() == old(self).planets(),
            final(self).bullets() == old(self).bullets(),
    {
        match self.get_ship_index(id) {
            Some(i) => {
                self.ships.remove(i);
                assert forall|a: int, b: int|
                    0 <= a < self.ships@.len() && 0 <= b < self.ships@.len() && a != b
                        implies #[trigger] self.ships@[a].id != #[trigger] self.ships@[b].id by {
                    let a0 = if a < i { a } else { a + 1 };
                    let b0 = if b < i { b } else { b + 1 };
                    assert(self.ships@[a] == old(self).ships@[a0]);
                    assert(self.ships@[b] == old(self).ships@[b0]);
                }
                true
            },
            None => false,
        }
    }

    /// Sets or clears the steering direction of the ship with `id`; `false`,
    /// and nothing changes, if there is none.
    pub fn move_ship(&mut self, id: u8, direction: Option<u64>) -> (r: bool)
        requires
            old(self).wf(),
        ensures
            final(self).wf(),
            r == has_id(old(self).ships(), id),
            final(self).ships() == steered(old(self).ships(), id, direction),
            final(self).planets() == old(self).planets(),
            final(self).bullets() == old(self).bullets(),
    {
        match self.get_ship_index(id) {
            Some(i) => {
                self.ships[i].change_direction(direction);
                assert(self.ships@ =~= steered(old(self).ships@, id, direction));
                true
            },
            None => false,
        }
    }

    /// Replaces the body of planet `i` (after it has been integrated).
    pub fn set_planet_body(&mut self, i: usize, body: B)
        requires
            i < old(self).planets().len(),
        ensures
            final(self).planets() == old(self).planets().update(i as int, body),
            final(self).ships() == old(self).ships(),
            final(self).bullets() == old(self).bullets(),
    {
        self.planets.set(i, body);
    }

    /// Replaces the body of ship `i` (after it has been integrated).
    pub fn set_ship_body(&mut self, i: usize, body: B)
        requires
            old(self).wf(),
            i < old(self).ships().len(),
        ensures
            final(self).wf(),
            final(self).ships().len() == old(self).ships().len(),
            final(self).ships()[i as int].body == body,
            final(self).ships()[i as int].id == old(self).ships()[i as int].id,
            final(self).ships()[i as int].steering == old(self).ships()[i as int].steering,
            final(self).ships()[i as int].kills == old(self).ships()[i as int].kills,
            final(self).ships()[i as int].deaths == old(self).ships()[i as int].deaths,
            forall|k: int|
                0 <= k < old(self).ships().len() && k != i ==> #[trigger] final(self).ships()[k]
                    == old(self).ships()[k],
            final(self).planets() == old(self).planets(),
            final(self).bullets() == old(self).bullets(),
    {
        self.ships[i].body = body;
        assert forall|a: int, b: int|
            0 <= a < self.ships@.len() && 0 <= b < self.ships@.len() && a != b
                implies #[trigger] self.ships@[a].id != #[trigger] self.ships@[b].id by {
            assert(self.ships@[a].id == old(self).ships@[a].id);
            assert(self.ships@[b].id == old(self).ships@[b].id);
        }
    }

    /// Replaces the body of bullet `i` (after it has been integrated).
    pub fn set_bullet_body(&mut self, i: usize, body: B)
        requires
            i < old(self).bullets().len(),
        ensures
            final(self).bullets() == old(self).bullets().update(
                i as int,
                Bullet { owner_id: old(self).bullets()[i as int].owner_id, body },
            ),
            final(self).planets() == old(self).planets(),
            final(self).ships() == old(self).ships(),
    {
        self.bullets[i].body = body;
        assert(self.bullets@ =~= old(self).bullets@.update(
            i as int,
            Bullet { owner_id: old(self).bullets@[i as int].owner_id, body },
        ));
    }

    /// Removes the bullets marked in `gone` (those that left the domain or
    /// touch a planet), keeping the order of the rest.
    pub fn retire_bullets(&mut self, gone: &Vec<bool>)
        requires
            gone.len() == old(self).bullets().len(),
        ensures
            final(self).bullets() == survivors(old(self).bullets(), gone@),
            final(self).planets() == old(self).planets(),
            final(self).ships() == old(self).ships(),
    {
        let ghost b0 = self.bullets@;
        let n = self.bullets.len();
        let mut i: usize = n;
        assert(b0.skip(n as int) =~= Seq::<Bullet<B>>::empty());
        assert(b0.take(n as int) =~= b0);
        while i > 0
            invariant
                i <= n,
                n == b0.len(),
                gone@.len() == n,
                self.planets@ == old(self).planets@,
                self.ships@ == old(self).ships@,
                self.bullets@ == b0.take(i as int) + survivors(
                    b0.skip(i as int),
                    gone@.skip(i as int),
                ),
            decreases i,
        {
            i -= 1;
            let ghost rest = survivors(b0.skip(i + 1), gone@.skip(i + 1));
            assert(b0.skip(i as int).drop_first() =~= b0.skip(i + 1));
            assert(gone@.skip(i as int).drop_first() =~= gone@.skip(i + 1));
            if gone[i] {
                self.bullets.remove(i);
                assert(self.bullets@ =~= b0.take(i as int) + rest);
            } else {
                assert(b0.take(i + 1) + rest =~= b0.take(i as int) + (seq![b0[i as int]] + rest));
            }
        }
        assert(b0.skip(0) =~= b0);
        assert(gone@.skip(0) =~= gone@);
        assert(self.bullets@ =~= survivors(b0, gone@));
    }

    /// Settles the ship phase from the collision facts of this tick:
    /// `planet_hit[i]` says ship `i` touches a planet, `contacts[i][j]` that it
    /// touches bullet `j`. A bullet never harms the ship that fired it. Each
    /// bullet that hits another ship credits one kill to the ship that fired
    /// it, if still live; a ship that is hit at all respawns once, with body
    /// `fresh[i]` and one more death.
    pub fn settle_ships(&mut self, planet_hit: &Vec<bool>, contacts: &Vec<Vec<bool>>, fresh: Vec<B>)
        requires
            old(self).wf(),
            planet_hit.len() == old(self).ships().len(),
            contacts.len() == old(self).ships().len(),
            forall|i: int|
                0 <= i < contacts.len() ==> #[trigger] contacts[i].len() == old(self).bullets().len(),
            fresh.len() == old(self).ships().len(),
        ensures
            final(self).wf(),
            final(self).ships().len() == old(self).ships().len(),
            forall|i: int|
                0 <= i < old(self).ships().len() ==> #[trigger] final(self).ships()[i] == settled(
                    old(self).ships(),
                    old(self).bullets(),
                    planet_hit@,
                    contacts@,
                    fresh@,
                    i,
                ),
            final(self).planets() == old(self).planets(),
            final(self).bullets() == old(self).bullets(),
    {
        let ghost s0 = self.ships@;
        let ghost b0 = self.bullets@;
        let n = self.ships.len();
        let nb = self.bullets.len();
        let mut dead: Vec<bool> = Vec::new();
        let mut i: usize = 0;
        while i < n
            invariant
                n == s0.len(),
                nb == b0.len(),
                i <= n,
                self.wf(),
                self.bullets@ == b0,
                self.planets@ == old(self).planets@,
                self.ships@.len() == n,
                planet_hit@.len() == n,
                contacts@.len() == n,
                forall|r: int| 0 <= r < n ==> #[trigger] contacts[r].len() == nb,
                forall|k: int| 0 <= k < n ==> same_but_kills(#[trigger] self.ships@[k], s0[k]),
                forall|k: int|
                    0 <= k < n ==> #[trigger] self.ships@[k].kills == capped(
                        s0[k].kills + credits(s0, b0, contacts@, s0[k].id, i as int),
                    ),
                dead@.len() == i,
                forall|k: int|
                    0 <= k < i ==> #[trigger] dead@[k] == doomed(s0, b0, planet_hit@, contacts@, k),
            decreases n - i,
        {
            let victim = self.ships[i].id;
            let mut hit = false;
            let mut j: usize = 0;
            while j < nb
                invariant
                    n == s0.len(),
                    nb == b0.len(),
                    i < n,
                    j <= nb,
                    victim == s0[i as int].id,
                    contacts[i as int].len() == nb,
                    self.wf(),
                    self.bullets@ == b0,
                    self.planets@ == old(self).planets@,
                    self.ships@.len() == n,
                    contacts@.len() == n,
                    forall|r: int| 0 <= r < n ==> #[trigger] contacts[r].len() == nb,
                    forall|k: int| 0 <= k < n ==> same_but_kills(#[trigger] self.ships@[k], s0[k]),
                    forall|k: int|
                        0 <= k < n ==> #[trigger] self.ships@[k].kills == capped(
                            s0[k].kills + credits(s0, b0, contacts@, s0[k].id, i as int)
                                + row_credits(b0, contacts@[i as int]@, s0[k].id, victim, j as int),
                        ),
                    hit == exists|jj: int|
                        0 <= jj < j && #[trigger] contacts@[i as int]@[jj] && b0[jj].owner_id
                            != victim,
                decreases nb - j,
            {
                let owner = self.bullets[j].owner_id;
                let ghost before = self.ships@;
                if contacts[i][j] && owner != victim {
                    hit = true;
                    match self.get_ship_index(owner) {
                        Some(k) => {
                            self.ships[k].kill();
                            assert forall|a: int, b: int|
                                0 <= a < n && 0 <= b < n && a != b implies #[trigger] self.ships@[a].id
                                    != #[trigger] self.ships@[b].id by {
                                assert(self.ships@[a].id == before[a].id);
                                assert(self.ships@[b].id == before[b].id);
                            }
                            assert forall|q: int| 0 <= q < n implies #[trigger] self.ships@[q].kills
                                == capped(
                                s0[q].kills + credits(s0, b0, contacts@, s0[q].id, i as int)
                                    + row_credits(
                                    b0,
                                    contacts@[i as int]@,
                                    s0[q].id,
                                    victim,
                                    j + 1,
                                ),
                            ) by {
                                let base = s0[q].kills + credits(s0, b0, contacts@, s0[q].id, i as int)
                                    + row_credits(b0, contacts@[i as int]@, s0[q].id, victim, j as int);
                                if q == k as int {
                                    lemma_capped_step(base);
                                } else {
                                    assert(before[q].id != before[k as int].id);
                                }
                            }
                        },
                        None => {
                            assert forall|q: int| 0 <= q < n implies s0[q].id != owner by {
                                assert(before[q].id == s0[q].id);
                            }
                        },
                    }
                }
                j += 1;
            }
            dead.push(planet_hit[i] || hit);
            i += 1;
        }
        let ghost mid = self.ships@;
        let mut fresh = fresh;
        let ghost f0 = fresh@;
        let mut i: usize = n;
        while i > 0
            invariant
                n == s0.len(),
                i <= n,
                fresh@ == f0.take(i as int),
                f0.len() == n,
                dead@.len() == n,
                forall|k: int|
                    0 <= k < n ==> #[trigger] dead@[k] == doomed(s0, b0, planet_hit@, contacts@, k),
                self.ships@.len() == n,
                self.bullets@ == b0,
                self.planets@ == old(self).planets@,
                forall|k: int| 0 <= k < i ==> #[trigger] self.ships@[k] == mid[k],
                forall|k: int|
                    i <= k < n ==> #[trigger] self.ships@[k] == settled(
                        s0,
                        b0,
                        planet_hit@,
                        contacts@,
                        f0,
                        k,
                    ),
                mid.len() == n,
                forall|k: int|
                    0 <= k < n ==> same_but_kills(#[trigger] mid[k], s0[k]) && mid[k].kills == capped(
                        s0[k].kills + credits(s0, b0, contacts@, s0[k].id, n as int),
                    ),
            decreases i,
        {
            i -= 1;
            let body = fresh.pop().unwrap();
            if dead[i] {
                self.ships[i].respawn(body);
            }
            assert(fresh@ =~= f0.take(i as int));
        }
        assert forall|a: int, b: int|
            0 <= a < n && 0 <= b < n && a != b implies #[trigger] self.ships@[a].id
                != #[trigger] self.ships@[b].id by {
            assert(self.ships@[a].id == s0[a].id);
            assert(self.ships@[b].id == s0[b].id);
        }
    }

    /// What to draw, in order: every planet, then every ship with its id.
    pub fn display_list(&self) -> (r: Vec<(DisplayType, Option<u8>)>)
        ensures
            r@.len() == self.planets().len() + self.ships().len(),
            forall|k: int|
                0 <= k < self.planets().len() ==> #[trigger] r@[k] == (DisplayType::Planet, None::<u8>),
            forall|k: int|
                0 <= k < self.ships().len() ==> #[trigger] r@[self.planets().len() + k] == (
                DisplayType::Ship,
                Some(self.ships()[k].id),
            ),
    {
        let mut r: Vec<(DisplayType, Option<u8>)> = Vec::new();
        let np = self.planets.len();
        let mut i: usize = 0;
        while i < np
            invariant
                i <= np,
                np == self.planets@.len(),
                r@.len() == i,
                forall|k: int| 0 <= k < i ==> #[trigger] r@[k] == (DisplayType::Planet, None::<u8>),
            decreases np - i,
        {
            r.push((DisplayType::Planet, None));
            i += 1;
        }
        let ns = self.ships.len();
        let mut j: usize = 0;
        while j < ns
            invariant
                j <= ns,
                ns == self.ships@.len(),
                np == self.planets@.len(),
                r@.len() == np + j,
                forall|k: int| 0 <= k < np ==> #[trigger] r@[k] == (DisplayType::Planet, None::<u8>),
                forall|k: int|
                    0 <= k < j ==> #[trigger] r@[np + k] == (DisplayType::Ship, Some(self.ships@[k].id)),
            decreases ns - j,
        {
            r.push((DisplayType::Ship, Some(self.ships[j].id)));
            j += 1;
        }
        r
    }
}

impl<B: Ballistic> Space<B> {
    /// Fires a bullet from the ship with `id` along `direction` (an angle's
    /// IEEE-754 bit pattern); `false`, and nothing changes, if there is none.
    pub fn shoot(&mut self, id: u8, direction: u64) -> (r: bool)
        requires
            old(self).wf(),
        ensures
            final(self).wf(),
            r == has_id(old(self).ships(), id),
            fired(old(self).ships(), old(self).bullets(), final(self).bullets(), id),
            final(self).planets() == old(self).planets(),
            final(self).ships() == old(self).ships(),
    {
        match self.get_ship_index(id) {
            Some(i) => {
                let bullet = self.ships[i].shoot(direction);
                self.bullets.push(bullet);
                assert(self.bullets@.take(old(self).bullets@.len() as int) =~= old(self).bullets@);
                true
            },
            None => false,
        }
    }
}

} // verus!
