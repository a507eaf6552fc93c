//! Pairwise circle collision detection.
//!
//! Every ordered pair of distinct collidable entities is distance-tested once
//! per tick. The test is deliberately asymmetric: an overlap is registered
//! from entity A's perspective when the distance between the two centres is
//! below A's own radius alone, not the sum of both radii. A physically exact
//! detector would sum the radii; this one keeps the arcade rule as stated.
//! A pair is reported at most once: when both perspectives would register,
//! only the earlier entity's report is kept. Report order is an
//! implementation detail; consumers must not rely on it.
use crate::motion::Vec2i;
use vstd::prelude::*;

verus! {

/// Largest coordinate magnitude, in micro-units, accepted by the detector.
pub const COORD_MAX: i64 = 2_000_000_000_000_000_000;

/// Largest collider radius, in micro-units, accepted by the detector.
pub const RADIUS_MAX: i64 = 2_000_000_000_000_000_000;

/// A circular collision extent: radius in micro-units, positive.
#[derive(Clone, Copy, PartialEq, Eq, Structural, Debug)]
pub struct CircleCollider {
    pub radius: i64,
}

impl Default for CircleCollider {
    /// A collider of one world unit radius.
    fn default() -> (r: CircleCollider)
        ensures
            r == (CircleCollider { radius: 1_000_000 }),
    {
        CircleCollider { radius: 1_000_000 }
    }
}

/// A report that the two named entities' colliders overlapped this tick.
#[derive(Clone, Copy, PartialEq, Eq, Structural, Debug)]
pub struct CollisionEvent(pub u64, pub u64);

/// One entity as the detector sees it: its handle, the centre of its
/// collider, and the collider itself.
#[derive(Clone, Copy, PartialEq, Eq, Structural, Debug)]
pub struct Collidable {
    pub entity: u64,
    pub position: Vec2i,
    pub collider: CircleCollider,
}

impl Collidable {
    pub open spec fn wf(self) -> bool {
        &&& -COORD_MAX <= self.position.x <= COORD_MAX
        &&& -COORD_MAX <= self.position.y <= COORD_MAX
        &&& 0 < self.collider.radius <= RADIUS_MAX
    }
}

/// Every element in range and no entity handle repeated.
pub open spec fn collidables_wf(s: Seq<Collidable>) -> bool {
    &&& forall|i: int| 0 <= i < s.len() ==> (#[trigger] s[i]).wf()
    &&& forall|i: int, j: int|
        0 <= i < s.len() && 0 <= j < s.len() && i != j ==> #[trigger] s[i].entity
            != #[trigger] s[j].entity
}

/// Squared Euclidean distance between two points.
pub open spec fn sq_dist(a: Vec2i, b: Vec2i) -> int {
    (a.x - b.x) * (a.x - b.x) + (a.y - b.y) * (a.y - b.y)
}

/// The asymmetric overlap test, seen from entity `i`: the distance to `j` is
/// below `i`'s own radius.
pub open spec fn hits(s: Seq<Collidable>, i: int, j: int) -> bool {
    sq_dist(s[i].position, s[j].position) < s[i].collider.radius * s[i].collider.radius
}

/// What the unordered pair `(i, j)`, with `i` visited first, contributes to
/// the tick's report: the earlier entity's perspective wins, the later one is
/// consulted only when the earlier registered nothing.
pub open spec fn pair_events(s: Seq<Collidable>, i: int, j: int) -> Seq<CollisionEvent> {
    if hits(s, i, j) {
        seq![CollisionEvent(s[i].entity, s[j].entity)]
    } else if hits(s, j, i) {
        seq![CollisionEvent(s[j].entity, s[i].entity)]
    } else {
        Seq::empty()
    }
}

/// Reports of entity `i` paired with every entity from index `j` up.
pub open spec fn row_events(s: Seq<Collidable>, i: int, j: int) -> Seq<CollisionEvent>
    decreases s.len() - j,
{
    if j >= s.len() || j < 0 {
        Seq::empty()
    } else {
        pair_events(s, i, j) + row_events(s, i, j + 1)
    }
}

/// Reports of every unordered pair drawn from index `i` up.
pub open spec fn detect_from(s: Seq<Collidable>, i: int) -> Seq<CollisionEvent>
    decreases s.len() - i,
{
    if i >= s.len() || i < 0 {
        Seq::empty()
    } else {
        row_events(s, i, i + 1) + detect_from(s, i + 1)
    }
}

/// The full tick report for the entity snapshot `s`.
pub open spec fn detect_spec(s: Seq<Collidable>) -> Seq<CollisionEvent> {
    detect_from(s, 0)
}

/// The overlap test from `a`'s perspective, computed in unsigned magnitudes
/// so that the squares cannot overflow.
fn overlaps(a: &Collidable, b: &Collidable) -> (r: bool)
    requires
        a.wf(),
        b.wf(),
    ensures
        r == (sq_dist(a.position, b.position) < a.collider.radius * a.collider.radius),
{
    let dx: i64 = a.position.x - b.position.x;
    let dy: i64 = a.position.y - b.position.y;
    let dxm: u64 = if dx >= 0 {
        dx as u64
    } else {
        (-dx) as u64
    };
    let dym: u64 = if dy >= 0 {
        dy as u64
    } else {
        (-dy) as u64
    };
    proof {
        lemma_sq_mag(dx as int, dxm as int);
        lemma_sq_mag(dy as int, dym as int);
    }
    let d2: u128 = (dxm as u128) * (dxm as u128) + (dym as u128) * (dym as u128);
    proof {
        assert((a.collider.radius as int) * (a.collider.radius as int)
            <= 4_000_000_000_000_000_000_000_000_000_000_000_000) by (nonlinear_arith)
            requires
                0 < a.collider.radius <= 2_000_000_000_000_000_000,
        ;
    }
    let r2: u128 = (a.collider.radius as u128) * (a.collider.radius as u128);
    d2 < r2
}

/// The square of a magnitude is the square of the signed value, and small
/// enough that summing two of them fits in `u128`.
proof fn lemma_sq_mag(d: int, m: int)
    requires
        -4_000_000_000_000_000_000 <= d <= 4_000_000_000_000_000_000,
        m == crate::motion::abs_val(d),
    ensures
        m * m == d * d,
        0 <= m * m <= 16_000_000_000_000_000_000_000_000_000_000_000_000,
{
    assert(m * m == d * d && 0 <= m * m <= 16_000_000_000_000_000_000_000_000_000_000_000_000)
        by (nonlinear_arith)
        requires
            -4_000_000_000_000_000_000 <= d <= 4_000_000_000_000_000_000,
            m == (if d >= 0 {
                d
            } else {
                -d
            }),
    ;
}

/// Run the pairwise detector over the tick's entity snapshot and report each
/// overlapping pair exactly once.
pub fn detect_collisions(physical: &Vec<Collidable>) -> (events: Vec<CollisionEvent>)
    requires
        collidables_wf(physical@),
    ensures
        events@ == detect_spec(physical@),
{
    let ghost s = physical@;
    let n = physical.len();
    let mut events: Vec<CollisionEvent> = Vec::new();
    assert(events@ + detect_from(s, 0) =~= detect_from(s, 0));
    let mut i: usize = 0;
    while i < n
        invariant
            collidables_wf(s),
            s == physical@,
            n == s.len(),
            i <= n,
            events@ + detect_from(s, i as int) == detect_spec(s),
        decreases n - i,
    {
        let mut j: usize = i + 1;
        assert(events@ + (row_events(s, i as int, i as int + 1) + detect_from(s, i as int + 1))
            =~= events@ + detect_from(s, i as int));
        while j < n
            invariant
                collidables_wf(s),
                s == physical@,
                n == s.len(),
                i < n,
                i < j <= n,
                events@ + (row_events(s, i as int, j as int) + detect_from(s, i as int + 1))
                    == detect_spec(s),
            decreases n - j,
        {
            let ghost gi = i as int;
            let ghost gj = j as int;
            let ghost before = events@;
            if overlaps(&physical[i], &physical[j]) {
                events.push(CollisionEvent(physical[i].entity, physical[j].entity));
                assert(pair_events(s, gi, gj) =~= seq![
                    CollisionEvent(s[gi].entity, s[gj].entity),
                ]);
            } else if overlaps(&physical[j], &physical[i]) {
                events.push(CollisionEvent(physical[j].entity, physical[i].entity));
                assert(pair_events(s, gi, gj) =~= seq![
                    CollisionEvent(s[gj].entity, s[gi].entity),
                ]);
            } else {
                assert(pair_events(s, gi, gj) =~= Seq::<CollisionEvent>::empty());
            }
            assert(events@ + (row_events(s, gi, gj + 1) + detect_from(s, gi + 1)) =~= before + (
            row_events(s, gi, gj) + detect_from(s, gi + 1)));
            j = j + 1;
        }
        assert(row_events(s, i as int, n as int) =~= Seq::<CollisionEvent>::empty());
        assert(events@ + detect_from(s, i as int + 1) =~= events@ + (row_events(
            s,
            i as int,
            n as int,
        ) + detect_from(s, i as int + 1)));
        i = i + 1;
    }
    assert(events@ =~= events@ + detect_from(s, n as int));
    events
}

/// The one report that the pair of indices `(i, j)`, `i` visited first, can
/// put into the tick's output.
pub open spec fn emitted(s: Seq<Collidable>, i: int, j: int, ev: CollisionEvent) -> bool {
    &&& 0 <= i < j < s.len()
    &&& if hits(s, i, j) {
        ev == CollisionEvent(s[i].entity, s[j].entity)
    } else {
        hits(s, j, i) && ev == CollisionEvent(s[j].entity, s[i].entity)
    }
}

proof fn lemma_pair_contains(s: Seq<Collidable>, i: int, j: int, ev: CollisionEvent)
    requires
        0 <= i < j < s.len(),
    ensures
        pair_events(s, i, j).contains(ev) <==> emitted(s, i, j, ev),
{
    let p = pair_events(s, i, j);
    if p.len() == 1 {
        assert(p.contains(p[0]));
    }
}

proof fn lemma_row_contains(s: Seq<Collidable>, i: int, j: int, ev: CollisionEvent)
    requires
        0 <= i < s.len(),
        i < j,
    ensures
        row_events(s, i, j).contains(ev) <==> exists|k: int|
            j <= k && #[trigger] emitted(s, i, k, ev),
    decreases s.len() - j,
{
    if j >= s.len() {
        assert(!row_events(s, i, j).contains(ev));
        assert(forall|k: int| j <= k ==> !(#[trigger] emitted(s, i, k, ev)));
    } else {
        lemma_row_contains(s, i, j + 1, ev);
        lemma_pair_contains(s, i, j, ev);
        let head = pair_events(s, i, j);
        let tail = row_events(s, i, j + 1);
        assert(row_events(s, i, j) == head + tail);
        if (head + tail).contains(ev) {
            let idx = choose|idx: int|
                0 <= idx < (head + tail).len() && (head + tail)[idx] == ev;
            if idx < head.len() {
                assert(head[idx] == ev);
                assert(head.contains(ev));
            } else {
                assert(tail[idx - head.len()] == ev);
                assert(tail.contains(ev));
            }
        }
        if exists|k: int| j <= k && #[trigger] emitted(s, i, k, ev) {
            let k = choose|k: int| j <= k && #[trigger] emitted(s, i, k, ev);
            if k == j {
                assert(head.contains(ev));
                let idx = choose|idx: int| 0 <= idx < head.len() && head[idx] == ev;
                assert((head + tail)[idx] == ev);
                assert(row_events(s, i, j).contains(ev));
            } else {
                assert(tail.contains(ev));
                let idx = choose|idx: int| 0 <= idx < tail.len() && tail[idx] == ev;
                assert((head + tail)[head.len() + idx] == ev);
                assert(row_events(s, i, j).contains(ev));
            }
        }
    }
}

/// An event stands in the tick's report if and only if some pair of indices
/// emits it: the unordered pair overlapped from the earlier entity's
/// perspective, or failing that from the later one's.
pub proof fn lemma_detect_contains(s: Seq<Collidable>, i0: int, ev: CollisionEvent)
    requires
        0 <= i0,
    ensures
        detect_from(s, i0).contains(ev) <==> exists|i: int, j: int|
            i0 <= i && #[trigger] emitted(s, i, j, ev),
    decreases s.len() - i0,
{
    if i0 >= s.len() {
        assert(!detect_from(s, i0).contains(ev));
    } else {
        lemma_detect_contains(s, i0 + 1, ev);
        lemma_row_contains(s, i0, i0 + 1, ev);
        let head = row_events(s, i0, i0 + 1);
        let tail = detect_from(s, i0 + 1);
        assert(detect_from(s, i0) == head + tail);
        if (head + tail).contains(ev) {
            let idx = choose|idx: int|
                0 <= idx < (head + tail).len() && (head + tail)[idx] == ev;
            if idx < head.len() {
                assert(head[idx] == ev);
                assert(head.contains(ev));
            } else {
                assert(tail[idx - head.len()] == ev);
                assert(tail.contains(ev));
            }
        }
        if exists|i: int, j: int| i0 <= i && #[trigger] emitted(s, i, j, ev) {
            let (i, j) = choose|i: int, j: int| i0 <= i && #[trigger] emitted(s, i, j, ev);
            if i == i0 {
                assert(head.contains(ev));
                let idx = choose|idx: int| 0 <= idx < head.len() && head[idx] == ev;
                assert((head + tail)[idx] == ev);
                assert(detect_from(s, i0).contains(ev));
            } else {
                assert(tail.contains(ev));
                let idx = choose|idx: int| 0 <= idx < tail.len() && tail[idx] == ev;
                assert((head + tail)[head.len() + idx] == ev);
                assert(detect_from(s, i0).contains(ev));
            }
        }
    }
}

/// The detector never pairs an entity with itself: both handles in any
/// reported event differ.
pub proof fn lemma_no_self_pair(s: Seq<Collidable>, ev: CollisionEvent)
    requires
        collidables_wf(s),
        detect_spec(s).contains(ev),
    ensures
        ev.0 != ev.1,
{
    lemma_detect_contains(s, 0, ev);
}

/// The detector reports each overlapping pair at most once per tick: it
/// never reports both orderings of the same two entities.
pub proof fn lemma_no_reversed_pair(s: Seq<Collidable>, a: u64, b: u64)
    requires
        collidables_wf(s),
        detect_spec(s).contains(CollisionEvent(a, b)),
    ensures
        !detect_spec(s).contains(CollisionEvent(b, a)),
{
    lemma_detect_contains(s, 0, CollisionEvent(a, b));
    if detect_spec(s).contains(CollisionEvent(b, a)) {
        lemma_detect_contains(s, 0, CollisionEvent(b, a));
        let (i1, j1) = choose|i: int, j: int| 0 <= i && #[trigger] emitted(
            s,
            i,
            j,
            CollisionEvent(a, b),
        );
        let (i2, j2) = choose|i: int, j: int| 0 <= i && #[trigger] emitted(
            s,
            i,
            j,
            CollisionEvent(b, a),
        );
        assert(s[i1].entity != s[j1].entity);
        assert(i1 == i2 || i1 == j2 || (s[i1].entity != s[i2].entity && s[i1].entity != s[
            j2
        ].entity));
        assert(j1 == i2 || j1 == j2 || (s[j1].entity != s[i2].entity && s[j1].entity != s[
            j2
        ].entity));
        assert(false);
    }
}

/// No event stands at two positions of the report.
pub open spec fn distinct_events(q: Seq<CollisionEvent>) -> bool {
    forall|k1: int, k2: int| 0 <= k1 < k2 < q.len() ==> #[trigger] q[k1] != #[trigger] q[k2]
}

proof fn lemma_row_distinct(s: Seq<Collidable>, i: int, j: int)
    requires
        collidables_wf(s),
        0 <= i < s.len(),
        i < j,
    ensures
        distinct_events(row_events(s, i, j)),
    decreases s.len() - j,
{
    if j >= s.len() {
        assert(row_events(s, i, j).len() == 0);
    } else {
        lemma_row_distinct(s, i, j + 1);
        let head = pair_events(s, i, j);
        let tail = row_events(s, i, j + 1);
        let q = head + tail;
        assert(row_events(s, i, j) == q);
        if head.len() > 0 {
            let ev = head[0];
            if tail.contains(ev) {
                lemma_row_contains(s, i, j + 1, ev);
                let k = choose|k: int| j + 1 <= k && #[trigger] emitted(s, i, k, ev);
                assert(s[i].entity != s[j].entity);
                assert(s[i].entity != s[k].entity);
                assert(s[j].entity == s[k].entity);
                assert(false);
            }
        }
        assert forall|k1: int, k2: int| 0 <= k1 < k2 < q.len() implies #[trigger] q[k1]
            != #[trigger] q[k2] by {
            if k1 < head.len() {
                if q[k2] == q[k1] {
                    assert(tail[k2 - head.len()] == head[0]);
                    assert(tail.contains(head[0]));
                }
            } else {
                assert(q[k1] == tail[k1 - head.len()]);
                assert(q[k2] == tail[k2 - head.len()]);
            }
        }
    }
}

proof fn lemma_detect_distinct(s: Seq<Collidable>, i0: int)
    requires
        collidables_wf(s),
        0 <= i0,
    ensures
        distinct_events(detect_from(s, i0)),
    decreases s.len() - i0,
{
    if i0 >= s.len() {
        assert(detect_from(s, i0).len() == 0);
    } else {
        lemma_detect_distinct(s, i0 + 1);
        lemma_row_distinct(s, i0, i0 + 1);
        let head = row_events(s, i0, i0 + 1);
        let tail = detect_from(s, i0 + 1);
        let q = head + tail;
        assert(detect_from(s, i0) == q);
        assert forall|k1: int, k2: int| 0 <= k1 < k2 < q.len() implies #[trigger] q[k1]
            != #[trigger] q[k2] by {
            if k1 < head.len() && k2 >= head.len() {
                if q[k2] == q[k1] {
                    let ev = q[k1];
                    assert(head[k1] == ev);
                    assert(head.contains(ev));
                    assert(tail[k2 - head.len()] == ev);
                    assert(tail.contains(ev));
                    lemma_row_contains(s, i0, i0 + 1, ev);
                    let k = choose|k: int| i0 + 1 <= k && #[trigger] emitted(s, i0, k, ev);
                    lemma_detect_contains(s, i0 + 1, ev);
                    let (a, b) = choose|a: int, b: int|
                        i0 + 1 <= a && #[trigger] emitted(s, a, b, ev);
                    assert(s[i0].entity != s[a].entity);
                    assert(s[i0].entity != s[b].entity);
                    assert(ev.0 == s[i0].entity || ev.1 == s[i0].entity);
                    assert(false);
                }
            } else if k1 < head.len() {
                assert(q[k1] == head[k1]);
                assert(q[k2] == head[k2]);
            } else {
                assert(q[k1] == tail[k1 - head.len()]);
                assert(q[k2] == tail[k2 - head.len()]);
            }
        }
    }
}

/// Each overlapping pair is reported at most once per tick in the exact
/// sense: the report never holds two equal events. Together with
/// `lemma_no_reversed_pair`, an unordered pair of entities appears at most
/// once, in one orientation.
pub proof fn lemma_no_duplicate_report(s: Seq<Collidable>)
    requires
        collidables_wf(s),
    ensures
        distinct_events(detect_spec(s)),
{
    lemma_detect_distinct(s, 0);
}

/// With exactly two collidable entities: if neither registers the other,
/// the tick reports nothing; if the first registers the second, the tick
/// reports exactly that one pair; if only the second registers the first,
/// the tick reports exactly the reversed pair.
pub proof fn lemma_two_entities(s: Seq<Collidable>)
    requires
        collidables_wf(s),
        s.len() == 2,
    ensures
        !hits(s, 0, 1) && !hits(s, 1, 0) ==> detect_spec(s).len() == 0,
        hits(s, 0, 1) ==> detect_spec(s) == seq![CollisionEvent(s[0].entity, s[1].entity)],
        !hits(s, 0, 1) && hits(s, 1, 0) ==> detect_spec(s) == seq![
            CollisionEvent(s[1].entity, s[0].entity),
        ],
{
    assert(detect_from(s, 2) =~= Seq::<CollisionEvent>::empty());
    assert(row_events(s, 1, 2) =~= Seq::<CollisionEvent>::empty());
    assert(row_events(s, 0, 2) =~= Seq::<CollisionEvent>::empty());
    assert(detect_from(s, 1) =~= Seq::<CollisionEvent>::empty());
    assert(row_events(s, 0, 1) == pair_events(s, 0, 1) + row_events(s, 0, 2));
    assert(detect_spec(s) =~= pair_events(s, 0, 1));
    if !hits(s, 0, 1) && !hits(s, 1, 0) {
        assert(detect_spec(s).len() == 0);
    }
    if hits(s, 0, 1) {
        assert(detect_spec(s) =~= seq![CollisionEvent(s[0].entity, s[1].entity)]);
    }
    if !hits(s, 0, 1) && hits(s, 1, 0) {
        assert(detect_spec(s) =~= seq![CollisionEvent(s[1].entity, s[0].entity)]);
    }
}

} // verus!
