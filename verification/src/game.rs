//! The game rule engine and the spawn rules.
//!
//! The rule engine reads one tick's collision reports together with each
//! entity's role tag and decides, without touching any state itself, which
//! entities to despawn, how much score to add, and whether to reset the whole
//! scene. A separate apply step performs those decisions on the entity store,
//! so rules for one tick are all evaluated against the same snapshot.
use crate::collide::{CircleCollider, CollisionEvent};
use crate::motion::{mul_div, mul_div_trunc, Transform2, Vec2i, Velocity, DT_MAX_MS};
use vstd::arithmetic::div_mod::{lemma_mod_division_less_than_divisor, lemma_small_mod};
use vstd::prelude::*;

verus! {

/// Score awarded for shooting down one asteroid.
pub const SCORE_PER_ASTEROID: u64 = 10;

/// The role an entity plays in the rules. Each entity carries exactly one.
#[derive(Clone, Copy, PartialEq, Eq, Structural, Debug)]
pub enum Role {
    Untagged,
    Ship,
    Asteroid,
    Projectile,
}

/// One entity as the rule engine sees it: its handle, its role, and whether
/// a full scene reset sweeps it away.
#[derive(Clone, Copy, PartialEq, Eq, Structural, Debug)]
pub struct Tagged {
    pub entity: u64,
    pub role: Role,
    pub cleanup: bool,
}

/// The decisions of one tick's rule pass, to be applied after every pair has
/// been evaluated.
pub struct TickOutcome {
    pub despawns: Vec<u64>,
    pub score_delta: u64,
    pub reset: bool,
}

/// The role recorded for `id` at or after index `k`; `Untagged` when absent.
pub open spec fn role_from(ents: Seq<Tagged>, id: u64, k: int) -> Role
    decreases ents.len() - k,
{
    if k < 0 || k >= ents.len() {
        Role::Untagged
    } else if ents[k].entity == id {
        ents[k].role
    } else {
        role_from(ents, id, k + 1)
    }
}

/// The role recorded for `id`, `Untagged` when absent.
pub open spec fn role_of(ents: Seq<Tagged>, id: u64) -> Role {
    role_from(ents, id, 0)
}

/// The pair holds a projectile and an asteroid, in either order.
pub open spec fn is_proj_ast(ents: Seq<Tagged>, ev: CollisionEvent) -> bool {
    ||| (role_of(ents, ev.0) == Role::Projectile && role_of(ents, ev.1) == Role::Asteroid)
    ||| (role_of(ents, ev.1) == Role::Projectile && role_of(ents, ev.0) == Role::Asteroid)
}

/// The pair holds the ship on one side and an asteroid on one side.
pub open spec fn is_ship_ast(ents: Seq<Tagged>, ev: CollisionEvent) -> bool {
    &&& (role_of(ents, ev.0) == Role::Ship || role_of(ents, ev.1) == Role::Ship)
    &&& (role_of(ents, ev.0) == Role::Asteroid || role_of(ents, ev.1) == Role::Asteroid)
}

/// Handles of the entities at or after index `k` that a scene reset sweeps.
pub open spec fn cleanup_from(ents: Seq<Tagged>, k: int) -> Seq<u64>
    decreases ents.len() - k,
{
    if k < 0 || k >= ents.len() {
        Seq::empty()
    } else if ents[k].cleanup {
        seq![ents[k].entity] + cleanup_from(ents, k + 1)
    } else {
        cleanup_from(ents, k + 1)
    }
}

/// What one collision pair despawns: a projectile–asteroid hit despawns the
/// two of them, projectile first; a ship–asteroid hit despawns everything
/// swept by a scene reset; any other pair despawns nothing.
pub open spec fn pair_despawns(ents: Seq<Tagged>, ev: CollisionEvent) -> Seq<u64> {
    if is_proj_ast(ents, ev) {
        if role_of(ents, ev.0) == Role::Projectile {
            seq![ev.0, ev.1]
        } else {
            seq![ev.1, ev.0]
        }
    } else if is_ship_ast(ents, ev) {
        cleanup_from(ents, 0)
    } else {
        Seq::empty()
    }
}

/// All despawns decided by the pairs at or after index `k`, in pair order.
pub open spec fn despawns_from(ents: Seq<Tagged>, pairs: Seq<CollisionEvent>, k: int) -> Seq<u64>
    decreases pairs.len() - k,
{
    if k < 0 || k >= pairs.len() {
        Seq::empty()
    } else {
        pair_despawns(ents, pairs[k]) + despawns_from(ents, pairs, k + 1)
    }
}

/// Score added by the pairs at or after index `k`: a fixed award for each
/// projectile–asteroid hit, nothing for anything else.
pub open spec fn score_from(ents: Seq<Tagged>, pairs: Seq<CollisionEvent>, k: int) -> int
    decreases pairs.len() - k,
{
    if k < 0 || k >= pairs.len() {
        0
    } else {
        (if is_proj_ast(ents, pairs[k]) {
            SCORE_PER_ASTEROID as int
        } else {
            0
        }) + score_from(ents, pairs, k + 1)
    }
}

/// Whether any pair at or after index `k` triggers a scene reset: a
/// ship–asteroid hit that the projectile rule did not already claim.
pub open spec fn reset_from(ents: Seq<Tagged>, pairs: Seq<CollisionEvent>, k: int) -> bool
    decreases pairs.len() - k,
{
    if k < 0 || k >= pairs.len() {
        false
    } else {
        (!is_proj_ast(ents, pairs[k]) && is_ship_ast(ents, pairs[k])) || reset_from(
            ents,
            pairs,
            k + 1,
        )
    }
}

/// Look up the role recorded for `id`; `Untagged` when absent.
pub fn lookup_role(ents: &Vec<Tagged>, id: u64) -> (r: Role)
    ensures
        r == role_of(ents@, id),
{
    let n = ents.len();
    let mut k: usize = 0;
    while k < n
        invariant
            n == ents@.len(),
            k <= n,
            role_of(ents@, id) == role_from(ents@, id, k as int),
        decreases n - k,
    {
        if ents[k].entity == id {
            return ents[k].role;
        }
        k = k + 1;
    }
    Role::Untagged
}

/// Collect the handles of every entity a scene reset sweeps.
pub fn cleanup_targets(ents: &Vec<Tagged>) -> (ids: Vec<u64>)
    ensures
        ids@ == cleanup_from(ents@, 0),
{
    let n = ents.len();
    let mut ids: Vec<u64> = Vec::new();
    assert(ids@ + cleanup_from(ents@, 0) =~= cleanup_from(ents@, 0));
    let mut k: usize = 0;
    while k < n
        invariant
            n == ents@.len(),
            k <= n,
            ids@ + cleanup_from(ents@, k as int) == cleanup_from(ents@, 0),
        decreases n - k,
    {
        let ghost before = ids@;
        if ents[k].cleanup {
            ids.push(ents[k].entity);
            assert(ids@ + cleanup_from(ents@, k as int + 1) =~= before + cleanup_from(
                ents@,
                k as int,
            ));
        }
        k = k + 1;
    }
    assert(ids@ =~= ids@ + cleanup_from(ents@, n as int));
    ids
}

/// Evaluate the rules over one tick's collision pairs, in pair order, against
/// one snapshot of the entity roles, and return the batched decisions.
pub fn handle_collisions(collisions: &Vec<CollisionEvent>, ents: &Vec<Tagged>) -> (out: TickOutcome)
    requires
        collisions@.len() <= 1_000_000_000,
    ensures
        out.despawns@ == despawns_from(ents@, collisions@, 0),
        out.score_delta == score_from(ents@, collisions@, 0),
        out.reset == reset_from(ents@, collisions@, 0),
{
    let n = collisions.len();
    let sweep = cleanup_targets(ents);
    let mut despawns: Vec<u64> = Vec::new();
    let mut score_delta: u64 = 0;
    let mut reset: bool = false;
    assert(despawns@ + despawns_from(ents@, collisions@, 0) =~= despawns_from(
        ents@,
        collisions@,
        0,
    ));
    let mut k: usize = 0;
    while k < n
        invariant
            n == collisions@.len(),
            n <= 1_000_000_000,
            k <= n,
            sweep@ == cleanup_from(ents@, 0),
            despawns@ + despawns_from(ents@, collisions@, k as int) == despawns_from(
                ents@,
                collisions@,
                0,
            ),
            score_delta + score_from(ents@, collisions@, k as int) == score_from(
                ents@,
                collisions@,
                0,
            ),
            score_delta <= 10 * k,
            (reset || reset_from(ents@, collisions@, k as int)) == reset_from(
                ents@,
                collisions@,
                0,
            ),
        decreases n - k,
    {
        let ev = collisions[k];
        let r0 = lookup_role(ents, ev.0);
        let r1 = lookup_role(ents, ev.1);
        let ghost before = despawns@;
        if (r0 == Role::Projectile && r1 == Role::Asteroid) || (r1 == Role::Projectile && r0
            == Role::Asteroid) {
            if r0 == Role::Projectile {
                despawns.push(ev.0);
                despawns.push(ev.1);
            } else {
                despawns.push(ev.1);
                despawns.push(ev.0);
            }
            score_delta = score_delta + 10;
            assert(despawns@ =~= before + pair_despawns(ents@, ev));
        } else if (r0 == Role::Ship || r1 == Role::Ship) && (r0 == Role::Asteroid || r1
            == Role::Asteroid) {
            let ghost target = before + pair_despawns(ents@, ev);
            let m_end = sweep.len();
            let mut m: usize = 0;
            while m < m_end
                invariant
                    m <= m_end,
                    m_end == sweep@.len(),
                    despawns@ == before + sweep@.subrange(0, m as int),
                decreases m_end - m,
            {
                let ghost mid = despawns@;
                despawns.push(sweep[m]);
                assert(mid.push(sweep@[m as int]) =~= before + sweep@.subrange(0, m as int + 1));
                m = m + 1;
            }
            assert(sweep@.subrange(0, m_end as int) =~= sweep@);
            reset = true;
            assert(despawns@ =~= before + pair_despawns(ents@, ev));
        } else {
            assert(despawns@ =~= before + pair_despawns(ents@, ev));
        }
        proof {
            assert(before + (pair_despawns(ents@, ev) + despawns_from(
                ents@,
                collisions@,
                k as int + 1,
            )) =~= (before + pair_despawns(ents@, ev)) + despawns_from(
                ents@,
                collisions@,
                k as int + 1,
            ));
        }
        k = k + 1;
    }
    assert(despawns@ =~= despawns@ + despawns_from(ents@, collisions@, n as int));
    TickOutcome { despawns, score_delta, reset }
}

/// No two entries share an entity handle.
pub open spec fn distinct_tagged(s: Seq<Tagged>) -> bool {
    forall|p: int, q: int|
        0 <= p < s.len() && 0 <= q < s.len() && p != q ==> #[trigger] s[p].entity
            != #[trigger] s[q].entity
}

/// The entity store the rule engine's decisions are applied to: the tagged
/// entities and the next fresh handle.
pub struct World {
    pub ents: Vec<Tagged>,
    pub next_id: u64,
}

impl World {
    /// Handles are unique and all below the next fresh one.
    pub open spec fn wf(self) -> bool {
        &&& distinct_tagged(self.ents@)
        &&& forall|p: int|
            0 <= p < self.ents@.len() ==> (#[trigger] self.ents@[p]).entity < self.next_id
    }

    /// An empty store.
    pub fn new() -> (w: World)
        ensures
            w.wf(),
            w.ents@.len() == 0,
            w.next_id == 0,
    {
        World { ents: Vec::new(), next_id: 0 }
    }
}

/// The entries at or after index `k` whose handles are not listed in `ids`.
pub open spec fn removed_from(ents: Seq<Tagged>, ids: Seq<u64>, k: int) -> Seq<Tagged>
    decreases ents.len() - k,
{
    if k < 0 || k >= ents.len() {
        Seq::empty()
    } else if ids.contains(ents[k].entity) {
        removed_from(ents, ids, k + 1)
    } else {
        seq![ents[k]] + removed_from(ents, ids, k + 1)
    }
}

/// Membership in the surviving entries: exactly the stored entries whose
/// handles were not listed for despawning.
pub proof fn lemma_removed_contains(ents: Seq<Tagged>, ids: Seq<u64>, k: int, t: Tagged)
    requires
        0 <= k,
    ensures
        removed_from(ents, ids, k).contains(t) <==> (exists|m: int|
            k <= m < ents.len() && ents[m] == t) && !ids.contains(t.entity),
    decreases ents.len() - k,
{
    if k >= ents.len() {
        assert(!removed_from(ents, ids, k).contains(t));
    } else {
        lemma_removed_contains(ents, ids, k + 1, t);
        let tail = removed_from(ents, ids, k + 1);
        if ids.contains(ents[k].entity) {
            if ents[k] == t {
                assert(ids.contains(t.entity));
            }
        } else {
            let whole = seq![ents[k]] + tail;
            assert(removed_from(ents, ids, k) == whole);
            if whole.contains(t) {
                let idx = choose|idx: int| 0 <= idx < whole.len() && whole[idx] == t;
                if idx == 0 {
                    assert(ents[k] == t);
                } else {
                    assert(tail[idx - 1] == t);
                    assert(tail.contains(t));
                }
            }
            if (exists|m: int| k <= m < ents.len() && ents[m] == t) && !ids.contains(t.entity) {
                let m = choose|m: int| k <= m < ents.len() && ents[m] == t;
                if m == k {
                    assert(whole[0] == t);
                    assert(whole.contains(t));
                } else {
                    assert(tail.contains(t));
                    let idx = choose|idx: int| 0 <= idx < tail.len() && tail[idx] == t;
                    assert(whole[idx + 1] == t);
                    assert(whole.contains(t));
                }
            }
        }
    }
}

/// Removal keeps handles unique and below any bound they were below.
proof fn lemma_removed_wf(ents: Seq<Tagged>, ids: Seq<u64>, k: int, bound: u64)
    requires
        0 <= k,
        distinct_tagged(ents),
        forall|p: int| 0 <= p < ents.len() ==> (#[trigger] ents[p]).entity < bound,
    ensures
        distinct_tagged(removed_from(ents, ids, k)),
        forall|p: int|
            0 <= p < removed_from(ents, ids, k).len() ==> (#[trigger] removed_from(
                ents,
                ids,
                k,
            )[p]).entity < bound,
    decreases ents.len() - k,
{
    if 0 <= k < ents.len() {
        lemma_removed_wf(ents, ids, k + 1, bound);
        let tail = removed_from(ents, ids, k + 1);
        if !ids.contains(ents[k].entity) {
            let whole = seq![ents[k]] + tail;
            assert forall|p: int, q: int|
                0 <= p < whole.len() && 0 <= q < whole.len() && p != q implies #[trigger] whole[p].entity
                != #[trigger] whole[q].entity by {
                if p == 0 || q == 0 {
                    let other = if p == 0 {
                        q
                    } else {
                        p
                    };
                    assert(tail[other - 1] == whole[other]);
                    assert(tail.contains(tail[other - 1]));
                    lemma_removed_contains(ents, ids, k + 1, tail[other - 1]);
                    let m = choose|m: int| k + 1 <= m < ents.len() && ents[m] == tail[other - 1];
                    assert(ents[m].entity != ents[k].entity);
                }
            }
            assert forall|p: int| 0 <= p < whole.len() implies (#[trigger] whole[p]).entity
                < bound by {
                if p > 0 {
                    assert(whole[p] == tail[p - 1]);
                }
            }
        }
    }
}

/// Remove every entity whose handle is listed, keeping store order.
fn remove_listed(ents: &Vec<Tagged>, ids: &Vec<u64>) -> (kept: Vec<Tagged>)
    ensures
        kept@ == removed_from(ents@, ids@, 0),
{
    let n = ents.len();
    let mut kept: Vec<Tagged> = Vec::new();
    assert(kept@ + removed_from(ents@, ids@, 0) =~= removed_from(ents@, ids@, 0));
    let mut k: usize = 0;
    while k < n
        invariant
            n == ents@.len(),
            k <= n,
            kept@ + removed_from(ents@, ids@, k as int) == removed_from(ents@, ids@, 0),
        decreases n - k,
    {
        let ghost before = kept@;
        if !contains_id(ids, ents[k].entity) {
            kept.push(ents[k]);
            assert(kept@ + removed_from(ents@, ids@, k as int + 1) =~= before + removed_from(
                ents@,
                ids@,
                k as int,
            ));
        }
        k = k + 1;
    }
    assert(kept@ =~= kept@ + removed_from(ents@, ids@, n as int));
    kept
}

/// Whether a handle stands in the list.
fn contains_id(ids: &Vec<u64>, id: u64) -> (r: bool)
    ensures
        r == ids@.contains(id),
{
    let n = ids.len();
    let mut k: usize = 0;
    while k < n
        invariant
            n == ids@.len(),
            k <= n,
            forall|m: int| 0 <= m < k ==> ids@[m] != id,
        decreases n - k,
    {
        if ids[k] == id {
            assert(ids@.contains(id));
            return true;
        }
        k = k + 1;
    }
    false
}

/// Set up the scene after a start or a reset: spawn the camera and the
/// player ship, both swept by the next reset, the ship under a fresh handle.
pub fn setup_scene(world: &mut World)
    requires
        old(world).wf(),
        old(world).next_id <= u64::MAX - 2,
    ensures
        final(world).wf(),
        final(world).ents@ == old(world).ents@ + seq![
            Tagged { entity: old(world).next_id, role: Role::Untagged, cleanup: true },
            Tagged { entity: (old(world).next_id + 1) as u64, role: Role::Ship, cleanup: true },
        ],
        final(world).next_id == old(world).next_id + 2,
{
    let camera = Tagged { entity: world.next_id, role: Role::Untagged, cleanup: true };
    let ship = Tagged { entity: world.next_id + 1, role: Role::Ship, cleanup: true };
    world.ents.push(camera);
    world.ents.push(ship);
    world.next_id = world.next_id + 2;
    assert(final(world).ents@ =~= old(world).ents@ + seq![camera, ship]);
}

/// Apply one tick's batched decisions to the store: despawn the listed
/// entities, add the score, and re-run scene setup when a reset was decided.
pub fn apply_outcome(world: &mut World, score: &mut u32, out: &TickOutcome)
    requires
        old(world).wf(),
        old(world).next_id <= u64::MAX - 2,
        out.score_delta + *old(score) <= u32::MAX,
    ensures
        final(world).wf(),
        *final(score) == *old(score) + out.score_delta,
        final(world).ents@ == if out.reset {
            removed_from(old(world).ents@, out.despawns@, 0) + seq![
                Tagged { entity: old(world).next_id, role: Role::Untagged, cleanup: true },
                Tagged {
                    entity: (old(world).next_id + 1) as u64,
                    role: Role::Ship,
                    cleanup: true,
                },
            ]
        } else {
            removed_from(old(world).ents@, out.despawns@, 0)
        },
        final(world).next_id == if out.reset {
            old(world).next_id + 2
        } else {
            old(world).next_id as int
        },
{
    let kept = remove_listed(&world.ents, &out.despawns);
    proof {
        lemma_removed_wf(world.ents@, out.despawns@, 0, world.next_id);
    }
    world.ents = kept;
    *score = *score + (out.score_delta as u32);
    if out.reset {
        setup_scene(world);
    }
}

/// Membership in the reset sweep: exactly the handles of the stored entities
/// that carry the cleanup tag.
pub proof fn lemma_cleanup_contains(ents: Seq<Tagged>, k: int, id: u64)
    requires
        0 <= k,
    ensures
        cleanup_from(ents, k).contains(id) <==> exists|m: int|
            k <= m < ents.len() && (#[trigger] ents[m]).cleanup && ents[m].entity == id,
    decreases ents.len() - k,
{
    if k >= ents.len() {
        assert(!cleanup_from(ents, k).contains(id));
    } else {
        lemma_cleanup_contains(ents, k + 1, id);
        let tail = cleanup_from(ents, k + 1);
        if ents[k].cleanup {
            let whole = seq![ents[k].entity] + tail;
            assert(cleanup_from(ents, k) == whole);
            if whole.contains(id) {
                let idx = choose|idx: int| 0 <= idx < whole.len() && whole[idx] == id;
                if idx > 0 {
                    assert(tail[idx - 1] == id);
                    assert(tail.contains(id));
                }
            }
            if exists|m: int|
                k <= m < ents.len() && (#[trigger] ents[m]).cleanup && ents[m].entity == id {
                let m = choose|m: int|
                    k <= m < ents.len() && (#[trigger] ents[m]).cleanup && ents[m].entity == id;
                if m == k {
                    assert(whole[0] == id);
                    assert(whole.contains(id));
                } else {
                    assert(tail.contains(id));
                    let idx = choose|idx: int| 0 <= idx < tail.len() && tail[idx] == id;
                    assert(whole[idx + 1] == id);
                    assert(whole.contains(id));
                }
            }
        }
    }
}

/// The projectile rule: a tick whose one collision pairs a projectile with
/// an asteroid despawns exactly those two entities, awards exactly the fixed
/// score, and triggers no reset; no survivor of the despawn carries either
/// handle.
pub proof fn lemma_projectile_asteroid_rule(
    ents: Seq<Tagged>,
    pairs: Seq<CollisionEvent>,
    ev: CollisionEvent,
    t: Tagged,
)
    requires
        pairs == seq![ev],
        is_proj_ast(ents, ev),
    ensures
        score_from(ents, pairs, 0) == SCORE_PER_ASTEROID,
        !reset_from(ents, pairs, 0),
        despawns_from(ents, pairs, 0).contains(ev.0),
        despawns_from(ents, pairs, 0).contains(ev.1),
        removed_from(ents, despawns_from(ents, pairs, 0), 0).contains(t) ==> t.entity != ev.0
            && t.entity != ev.1,
{
    assert(pairs[0] == ev);
    assert(score_from(ents, pairs, 1) == 0);
    assert(!reset_from(ents, pairs, 1));
    assert(despawns_from(ents, pairs, 1) =~= Seq::<u64>::empty());
    let pd = pair_despawns(ents, ev);
    let d = despawns_from(ents, pairs, 0);
    assert(d =~= pd);
    assert(pd[0] == ev.0 || pd[1] == ev.0);
    assert(pd[0] == ev.1 || pd[1] == ev.1);
    assert(d.contains(ev.0));
    assert(d.contains(ev.1));
    lemma_removed_contains(ents, d, 0, t);
}

/// The ship rule: a tick whose one collision pairs the ship with an asteroid
/// (and is not claimed by the projectile rule) despawns every reset-swept
/// entity, awards nothing, and triggers a scene reset; after the reset no
/// previously stored reset-swept entity survives, and a freshly spawned ship
/// stands in the store.
pub proof fn lemma_ship_asteroid_rule(
    ents: Seq<Tagged>,
    pairs: Seq<CollisionEvent>,
    ev: CollisionEvent,
    t: Tagged,
    nid: u64,
)
    requires
        pairs == seq![ev],
        !is_proj_ast(ents, ev),
        is_ship_ast(ents, ev),
        nid <= u64::MAX - 2,
    ensures
        score_from(ents, pairs, 0) == 0,
        reset_from(ents, pairs, 0),
        despawns_from(ents, pairs, 0) == cleanup_from(ents, 0),
        ents.contains(t) && t.cleanup ==> !removed_from(
            ents,
            despawns_from(ents, pairs, 0),
            0,
        ).contains(t),
        (removed_from(ents, despawns_from(ents, pairs, 0), 0) + seq![
            Tagged { entity: nid, role: Role::Untagged, cleanup: true },
            Tagged { entity: (nid + 1) as u64, role: Role::Ship, cleanup: true },
        ]).contains(Tagged { entity: (nid + 1) as u64, role: Role::Ship, cleanup: true }),
{
    assert(pairs[0] == ev);
    assert(score_from(ents, pairs, 1) == 0);
    assert(!reset_from(ents, pairs, 1));
    assert(despawns_from(ents, pairs, 1) =~= Seq::<u64>::empty());
    let d = despawns_from(ents, pairs, 0);
    assert(d =~= cleanup_from(ents, 0));
    if ents.contains(t) && t.cleanup {
        let m = choose|m: int| 0 <= m < ents.len() && ents[m] == t;
        lemma_cleanup_contains(ents, 0, t.entity);
        assert(ents[m].cleanup && ents[m].entity == t.entity);
        assert(cleanup_from(ents, 0).contains(t.entity));
        lemma_removed_contains(ents, d, 0, t);
    }
    let post = removed_from(ents, d, 0) + seq![
        Tagged { entity: nid, role: Role::Untagged, cleanup: true },
        Tagged { entity: (nid + 1) as u64, role: Role::Ship, cleanup: true },
    ];
    assert(post[post.len() - 1] == Tagged {
        entity: (nid + 1) as u64,
        role: Role::Ship,
        cleanup: true,
    });
    assert(post.contains(Tagged { entity: (nid + 1) as u64, role: Role::Ship, cleanup: true }));
}

/// A repeating countdown: it accumulates elapsed milliseconds and reports,
/// for the most recent tick, whether the accumulated time crossed the
/// period; the overshoot is kept for the next round.
#[derive(Clone, Copy, PartialEq, Eq, Structural, Debug)]
pub struct RepeatTimer {
    pub period_ms: u64,
    pub elapsed_ms: u64,
    pub fired: bool,
}

impl RepeatTimer {
    pub open spec fn wf(self) -> bool {
        &&& 0 < self.period_ms
        &&& self.elapsed_ms < self.period_ms
    }

    pub fn new(period_ms: u64) -> (t: RepeatTimer)
        requires
            period_ms > 0,
        ensures
            t == (RepeatTimer { period_ms, elapsed_ms: 0, fired: false }),
            t.wf(),
    {
        RepeatTimer { period_ms, elapsed_ms: 0, fired: false }
    }

    /// Advance the timer by `delta_ms` milliseconds.
    pub fn tick(&mut self, delta_ms: u64)
        requires
            old(self).wf(),
            old(self).elapsed_ms + delta_ms <= u64::MAX,
        ensures
            final(self).wf(),
            final(self).period_ms == old(self).period_ms,
            final(self).fired == (old(self).elapsed_ms + delta_ms >= old(self).period_ms),
            final(self).elapsed_ms == (old(self).elapsed_ms + delta_ms) as int % (
            old(self).period_ms as int),
    {
        let sum = self.elapsed_ms + delta_ms;
        if sum >= self.period_ms {
            self.fired = true;
            self.elapsed_ms = sum % self.period_ms;
            proof {
                lemma_mod_division_less_than_divisor(sum as int, self.period_ms as int);
            }
        } else {
            self.fired = false;
            self.elapsed_ms = sum;
            proof {
                lemma_small_mod(sum as nat, self.period_ms as nat);
            }
        }
    }

    /// Whether the most recent tick crossed the period.
    pub fn just_finished(&self) -> (r: bool)
        ensures
            r == self.fired,
    {
        self.fired
    }
}

/// The per-run game state: score, a stopwatch over the whole run, and the
/// asteroid spawn timer with its percent spawn chance.
pub struct GameStats {
    pub score: u32,
    pub stopwatch_ms: u64,
    pub roid_timer: RepeatTimer,
    pub roid_chance: i8,
}

impl GameStats {
    pub open spec fn wf(self) -> bool {
        self.roid_timer.wf()
    }
}

impl Default for GameStats {
    /// A fresh run: no score, the spawn timer on a half-second period, and a
    /// ten percent spawn chance per firing.
    fn default() -> (s: GameStats)
        ensures
            s.score == 0,
            s.stopwatch_ms == 0,
            s.roid_timer == (RepeatTimer { period_ms: 500, elapsed_ms: 0, fired: false }),
            s.roid_chance == 10,
            s.wf(),
    {
        GameStats {
            score: 0,
            stopwatch_ms: 0,
            roid_timer: RepeatTimer { period_ms: 500, elapsed_ms: 0, fired: false },
            roid_chance: 10,
        }
    }
}

/// Relies on `rand::random_range` over the half-open range `lo..hi`: the
/// draw always lies in the range; the call panics only on an empty range,
/// which the precondition rules out.
#[verifier::external_body]
fn rand_range_i64(lo: i64, hi: i64) -> (r: i64)
    requires
        lo < hi,
    ensures
        lo <= r < hi,
{
    rand::random_range(lo..hi)
}

/// Decide an asteroid spawn from a chance roll: a roll strictly below the
/// configured percent chance passes.
pub fn roll_passes(roll: i64, chance: i8) -> (b: bool)
    ensures
        b == (roll < chance as int),
{
    roll < (chance as i64)
}

/// A decided asteroid spawn: where (micro-units), which way it faces
/// (micro-radians), how fast it moves along its facing (signed, in world
/// units per second — multiplying it by a facing vector scaled by 1000
/// yields micro-units per millisecond), and how fast it tumbles
/// (micro-radians per millisecond).
#[derive(Clone, Copy, PartialEq, Eq, Structural, Debug)]
pub struct AsteroidSpawnRequest {
    pub location: Vec2i,
    pub heading: i64,
    pub speed: i64,
    pub angular: i64,
}

/// Run one tick of the spawn rules: advance the stopwatch and the spawn
/// timer; when the timer fires, roll the percent chance and, on a pass, draw
/// a randomized spawn request. At most one asteroid is requested per firing;
/// a full chance requests one on every firing and a zero or negative chance
/// never does.
pub fn game_tick(stats: &mut GameStats, dt_ms: u64) -> (spawn: Option<AsteroidSpawnRequest>)
    requires
        old(stats).wf(),
        old(stats).stopwatch_ms + dt_ms <= u64::MAX,
        old(stats).roid_timer.elapsed_ms + dt_ms <= u64::MAX,
    ensures
        final(stats).wf(),
        final(stats).score == old(stats).score,
        final(stats).roid_chance == old(stats).roid_chance,
        final(stats).stopwatch_ms == old(stats).stopwatch_ms + dt_ms,
        final(stats).roid_timer.period_ms == old(stats).roid_timer.period_ms,
        final(stats).roid_timer.fired == (old(stats).roid_timer.elapsed_ms + dt_ms >= old(
            stats,
        ).roid_timer.period_ms),
        final(stats).roid_timer.elapsed_ms == (old(stats).roid_timer.elapsed_ms + dt_ms) as int % (
        old(stats).roid_timer.period_ms as int),
        !final(stats).roid_timer.fired ==> spawn is None,
        old(stats).roid_chance <= 0 ==> spawn is None,
        final(stats).roid_timer.fired && old(stats).roid_chance >= 100 ==> spawn is Some,
        spawn is Some ==> final(stats).roid_timer.fired,
        match spawn {
            Some(req) => {
                &&& -550_000_000 <= req.location.x < 55_000_000
                &&& -550_000_000 <= req.location.y < 55_000_000
                &&& -3_141_592 <= req.heading < 3_141_592
                &&& -200 <= req.speed < 200
                &&& -3_141 <= req.angular < 3_141
            },
            None => true,
        },
{
    stats.roid_timer.tick(dt_ms);
    stats.stopwatch_ms = stats.stopwatch_ms + dt_ms;
    if stats.roid_timer.just_finished() {
        let roll = rand_range_i64(0, 100);
        if roll_passes(roll, stats.roid_chance) {
            let px = rand_range_i64(-550_000_000, 55_000_000);
            let py = rand_range_i64(-550_000_000, 55_000_000);
            let heading = rand_range_i64(-3_141_592, 3_141_592);
            let speed = rand_range_i64(-200, 200);
            let angular = rand_range_i64(-3_141, 3_141);
            Some(AsteroidSpawnRequest { location: Vec2i { x: px, y: py }, heading, speed, angular })
        } else {
            None
        }
    } else {
        None
    }
}

/// Collider radius of an asteroid, in micro-units.
pub const ASTEROID_RADIUS: i64 = 50_000_000;

/// Collider radius of a laser shot, in micro-units.
pub const LASER_RADIUS: i64 = 15_000_000;

/// Muzzle speed of a laser shot, in world units per second. Spawn
/// velocities are formed as a facing vector scaled by 1000 times a speed in
/// world units per second; the product lands exactly in the crate's
/// micro-units per millisecond.
pub const MUZZLE_SPEED: i64 = 400;

/// How many asteroid graphics there are to choose a visual variant from.
pub const ASTEROID_VARIANTS: i64 = 4;

/// Everything a freshly spawned asteroid carries.
pub struct AsteroidBundle {
    pub transform: Transform2,
    pub velocity: Velocity,
    pub collider: CircleCollider,
    pub role: Role,
    pub cleanup: bool,
    pub variant: u8,
}

/// Build an asteroid from a spawn request and the unit facing vector of its
/// heading, scaled by 1000. The linear velocity is the facing times the
/// signed speed in world units per second, which lands in micro-units per
/// millisecond, dragless; the visual variant is drawn uniformly over all
/// available asteroid graphics and plays no part in the rules.
pub fn spawn_asteroid(req: &AsteroidSpawnRequest, dir: Vec2i) -> (b: AsteroidBundle)
    requires
        -1000 <= dir.x <= 1000,
        -1000 <= dir.y <= 1000,
        -1_000_000 <= req.speed <= 1_000_000,
        -1_000_000_000 <= req.angular <= 1_000_000_000,
    ensures
        b.transform == (Transform2 { translation: req.location, rotation: req.heading }),
        b.velocity.linear.x == dir.x * req.speed,
        b.velocity.linear.y == dir.y * req.speed,
        b.velocity.linear_drag == (Vec2i { x: 0, y: 0 }),
        b.velocity.angular == req.angular,
        b.velocity.angular_drag == 0,
        b.velocity.wf(),
        b.collider.radius == ASTEROID_RADIUS,
        b.role == Role::Asteroid,
        b.cleanup,
        0 <= b.variant < ASTEROID_VARIANTS,
{
    let variant_draw = rand_range_i64(0, ASTEROID_VARIANTS);
    proof {
        assert(-1_000_000_000 <= dir.x * req.speed <= 1_000_000_000 && -1_000_000_000 <= dir.y
            * req.speed <= 1_000_000_000) by (nonlinear_arith)
            requires
                -1000 <= dir.x <= 1000,
                -1000 <= dir.y <= 1000,
                -1_000_000 <= req.speed <= 1_000_000,
        ;
    }
    AsteroidBundle {
        transform: Transform2 { translation: req.location, rotation: req.heading },
        velocity: Velocity {
            linear: Vec2i { x: dir.x * req.speed, y: dir.y * req.speed },
            linear_drag: Vec2i { x: 0, y: 0 },
            angular: req.angular,
            angular_drag: 0,
        },
        collider: CircleCollider { radius: ASTEROID_RADIUS },
        role: Role::Asteroid,
        cleanup: true,
        variant: variant_draw as u8,
    }
}

/// Everything a freshly spawned laser shot carries.
pub struct LaserBundle {
    pub transform: Transform2,
    pub velocity: Velocity,
    pub collider: CircleCollider,
    pub role: Role,
    pub cleanup: bool,
}

/// Build a laser shot at the ship's position and heading, from the unit
/// facing vector of that heading scaled by 1000: its velocity is the muzzle
/// speed along the facing plus the ship's own velocity, dragless.
pub fn spawn_laser_shot(location: Vec2i, forward: i64, dir: Vec2i, ship_vel: Vec2i) -> (b:
    LaserBundle)
    requires
        -1000 <= dir.x <= 1000,
        -1000 <= dir.y <= 1000,
        -999_600_000 <= ship_vel.x <= 999_600_000,
        -999_600_000 <= ship_vel.y <= 999_600_000,
    ensures
        b.transform == (Transform2 { translation: location, rotation: forward }),
        b.velocity.linear.x == dir.x * MUZZLE_SPEED + ship_vel.x,
        b.velocity.linear.y == dir.y * MUZZLE_SPEED + ship_vel.y,
        b.velocity.linear_drag == (Vec2i { x: 0, y: 0 }),
        b.velocity.angular == 0,
        b.velocity.angular_drag == 0,
        b.velocity.wf(),
        b.collider.radius == LASER_RADIUS,
        b.role == Role::Projectile,
        b.cleanup,
{
    LaserBundle {
        transform: Transform2 { translation: location, rotation: forward },
        velocity: Velocity {
            linear: Vec2i {
                x: dir.x * MUZZLE_SPEED + ship_vel.x,
                y: dir.y * MUZZLE_SPEED + ship_vel.y,
            },
            linear_drag: Vec2i { x: 0, y: 0 },
            angular: 0,
            angular_drag: 0,
        },
        collider: CircleCollider { radius: LASER_RADIUS },
        role: Role::Projectile,
        cleanup: true,
    }
}

/// The player ship's tuning: how often it may fire (milli-shots per second)
/// and how hard it accelerates, linearly in world units per second squared
/// and angularly in milli-radians per second squared.
#[derive(Clone, Copy, PartialEq, Eq, Structural, Debug)]
pub struct PlayerShip {
    pub fire_rate_milli: u32,
    pub linear_accel: i64,
    pub angular_accel: i64,
}

impl Default for PlayerShip {
    /// Half a shot per second, fifty units per second squared, a full turn
    /// per second squared.
    fn default() -> (s: PlayerShip)
        ensures
            s == (PlayerShip { fire_rate_milli: 500, linear_accel: 50, angular_accel: 6283 }),
    {
        PlayerShip { fire_rate_milli: 500, linear_accel: 50, angular_accel: 6283 }
    }
}

/// One tick's digested control input for the ship.
#[derive(Clone, Copy, PartialEq, Eq, Structural, Debug)]
pub struct ShipInput {
    pub forward: bool,
    pub turn_left: bool,
    pub turn_right: bool,
    pub fire_just_pressed: bool,
}

/// Steer the ship for one tick: while the forward input is held, accumulate
/// linear velocity along the ship's facing (the unit vector of its heading,
/// scaled by 1000); while a turn input is held, accumulate angular velocity,
/// sign per direction. Returns whether a laser shot is to be spawned, which
/// is exactly the rising edge of the fire input.
pub fn control_ship(
    ship: &PlayerShip,
    vel: &mut Velocity,
    dir: Vec2i,
    input: ShipInput,
    dt_ms: i64,
) -> (fire: bool)
    requires
        0 <= dt_ms <= DT_MAX_MS,
        -1000 <= dir.x <= 1000,
        -1000 <= dir.y <= 1000,
        0 <= ship.linear_accel <= 1_000_000,
        0 <= ship.angular_accel <= 1_000_000,
        old(vel).wf(),
    ensures
        fire == input.fire_just_pressed,
        final(vel).linear.x == old(vel).linear.x + if input.forward {
            mul_div_trunc(dir.x as int, ship.linear_accel * dt_ms, 1000)
        } else {
            0
        },
        final(vel).linear.y == old(vel).linear.y + if input.forward {
            mul_div_trunc(dir.y as int, ship.linear_accel * dt_ms, 1000)
        } else {
            0
        },
        final(vel).angular == old(vel).angular + (if input.turn_left {
            mul_div_trunc(ship.angular_accel as int, dt_ms as int, 1000)
        } else {
            0
        }) - (if input.turn_right {
            mul_div_trunc(ship.angular_accel as int, dt_ms as int, 1000)
        } else {
            0
        }),
        final(vel).linear_drag == old(vel).linear_drag,
        final(vel).angular_drag == old(vel).angular_drag,
{
    if input.forward {
        proof {
            assert(0 <= ship.linear_accel * dt_ms <= 60_000_000_000) by (nonlinear_arith)
                requires
                    0 <= ship.linear_accel <= 1_000_000,
                    0 <= dt_ms <= 60_000,
            ;
        }
        let c = ship.linear_accel * dt_ms;
        proof {
            lemma_accel_fits(dir.x as int, c as int);
            lemma_accel_fits(dir.y as int, c as int);
        }
        let dvx = mul_div(dir.x, c, 1000);
        let dvy = mul_div(dir.y, c, 1000);
        vel.linear.x = vel.linear.x + dvx;
        vel.linear.y = vel.linear.y + dvy;
    }
    if input.turn_right {
        proof {
            lemma_accel_fits(ship.angular_accel as int, dt_ms as int);
        }
        let d = mul_div(ship.angular_accel, dt_ms, 1000);
        vel.angular = vel.angular - d;
    }
    if input.turn_left {
        proof {
            lemma_accel_fits(ship.angular_accel as int, dt_ms as int);
        }
        let d = mul_div(ship.angular_accel, dt_ms, 1000);
        vel.angular = vel.angular + d;
    }
    input.fire_just_pressed
}

/// Acceleration deltas stay small: the product of the two control factors is
/// far inside `i64`, and the scaled delta is at most a tenth of the velocity
/// range.
proof fn lemma_accel_fits(a: int, b: int)
    requires
        -1_000_000 <= a <= 1_000_000,
        -60_000_000_000 <= b <= 60_000_000_000,
    ensures
        crate::motion::abs_val(a * b) < (i64::MAX + 1) * 1000,
        crate::motion::abs_val(mul_div_trunc(a, b, 1000)) <= 100_000_000_000_000,
{
    assert(crate::motion::abs_val(a * b) < 100_000_000_000_001 * 1000) by (nonlinear_arith)
        requires
            -1_000_000 <= a <= 1_000_000,
            -60_000_000_000 <= b <= 60_000_000_000,
    ;
    crate::motion::lemma_mul_div_trunc_bound(a, b, 1000, 100_000_000_000_000);
}

/// The rising edge of a held button: pressed now and not pressed the tick
/// before.
pub open spec fn rising_edge(prev: bool, now: bool) -> bool {
    now && !prev
}

/// Tracks one logical button across ticks so that a press held over many
/// ticks is reported as pressed just once.
#[derive(Clone, Copy, PartialEq, Eq, Structural, Debug)]
pub struct ButtonTracker {
    pub held: bool,
}

impl ButtonTracker {
    pub fn new() -> (t: ButtonTracker)
        ensures
            !t.held,
    {
        ButtonTracker { held: false }
    }

    /// Feed one tick's raw "is held" sample; returns whether this tick is
    /// the press's rising edge.
    pub fn update(&mut self, held_now: bool) -> (just_pressed: bool)
        ensures
            just_pressed == rising_edge(old(self).held, held_now),
            final(self).held == held_now,
    {
        let just_pressed = held_now && !self.held;
        self.held = held_now;
        just_pressed
    }
}

/// How many rising edges a run of raw samples contains, starting from a
/// given previous state.
pub open spec fn count_rising_edges(prev: bool, samples: Seq<bool>) -> int
    decreases samples.len(),
{
    if samples.len() == 0 {
        0
    } else {
        (if rising_edge(prev, samples[0]) {
            1int
        } else {
            0int
        }) + count_rising_edges(samples[0], samples.subrange(1, samples.len() as int))
    }
}

/// A fire button held across any number of consecutive ticks yields exactly
/// one rising edge when it was up before, and none when it was already held:
/// one shot per press, not one per tick held.
pub proof fn lemma_one_edge_per_press(prev: bool, samples: Seq<bool>)
    requires
        samples.len() >= 1,
        forall|k: int| 0 <= k < samples.len() ==> #[trigger] samples[k],
    ensures
        count_rising_edges(prev, samples) == if prev {
            0int
        } else {
            1int
        },
    decreases samples.len(),
{
    let rest = samples.subrange(1, samples.len() as int);
    assert(samples[0]);
    if rest.len() >= 1 {
        assert(forall|k: int| 0 <= k < rest.len() ==> #[trigger] rest[k]);
        lemma_one_edge_per_press(samples[0], rest);
    } else {
        assert(count_rising_edges(samples[0], rest) == 0);
    }
}

} // verus!
