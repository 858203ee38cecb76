use vstd::prelude::*;

use crate::chunk::{lemma_one_record_per_coordinate, ChunkCoordinate, ChunkRegistry, ChunkState};
use crate::configuration::{ChunkDespawnStrategy, VoxelWorldConfig};

verus! {

/// Squared distance between two chunk positions, in chunks.
pub open spec fn distance_sq(a: ChunkCoordinate, b: ChunkCoordinate) -> int {
    (a.x - b.x) * (a.x - b.x) + (a.y - b.y) * (a.y - b.y) + (a.z - b.z) * (a.z - b.z)
}

/// Whether chunk `c` lies within `distance` chunks of the camera's chunk.
pub open spec fn within_distance(camera: ChunkCoordinate, c: ChunkCoordinate, distance: u32) -> bool {
    distance_sq(camera, c) <= distance as int * distance as int
}

/// Whether a spawned chunk at `c` goes, under `strategy`, given whether it is in view.
pub open spec fn despawn_due(
    strategy: ChunkDespawnStrategy,
    camera: ChunkCoordinate,
    c: ChunkCoordinate,
    distance: u32,
    in_view: bool,
) -> bool {
    match strategy {
        ChunkDespawnStrategy::FarAwayOrOutOfView => !within_distance(camera, c, distance) || !in_view,
        ChunkDespawnStrategy::FarAway => !within_distance(camera, c, distance),
    }
}

/// Whether chunk `c` lies within `distance` chunks of the camera's chunk.
pub fn is_within_distance(camera: ChunkCoordinate, c: ChunkCoordinate, distance: u32) -> (r: bool)
    ensures
        r == within_distance(camera, c, distance),
{
    let dx: i128 = camera.x as i128 - c.x as i128;
    let dy: i128 = camera.y as i128 - c.y as i128;
    let dz: i128 = camera.z as i128 - c.z as i128;
    assert(dx * dx <= 0x1_0000_0000_0000_0000) by (nonlinear_arith)
        requires -0x1_0000_0000 <= dx <= 0x1_0000_0000;
    assert(dy * dy <= 0x1_0000_0000_0000_0000) by (nonlinear_arith)
        requires -0x1_0000_0000 <= dy <= 0x1_0000_0000;
    assert(dz * dz <= 0x1_0000_0000_0000_0000) by (nonlinear_arith)
        requires -0x1_0000_0000 <= dz <= 0x1_0000_0000;
    assert(0 <= dx * dx && 0 <= dy * dy && 0 <= dz * dz) by (nonlinear_arith);
    let d: i128 = distance as i128;
    assert(d * d <= 0x1_0000_0000_0000_0000) by (nonlinear_arith)
        requires 0 <= d <= 0x1_0000_0000;
    dx * dx + dy * dy + dz * dz <= d * d
}

/// Whether a spawned chunk at `c` should be despawned under `strategy`: when it is too far
/// from the camera, or, with `FarAwayOrOutOfView`, when it is out of view.
pub fn should_despawn(
    strategy: ChunkDespawnStrategy,
    camera: ChunkCoordinate,
    c: ChunkCoordinate,
    distance: u32,
    in_view: bool,
) -> (r: bool)
    ensures
        r == despawn_due(strategy, camera, c, distance, in_view),
{
    let far = !is_within_distance(camera, c, distance);
    match strategy {
        ChunkDespawnStrategy::FarAwayOrOutOfView => far || !in_view,
        ChunkDespawnStrategy::FarAway => far,
    }
}

/// Whether `v` holds `c`.
pub fn contains_coordinate(v: &Vec<ChunkCoordinate>, c: ChunkCoordinate) -> (r: bool)
    ensures
        r == v@.contains(c),
{
    let mut i: usize = 0;
    while i < v.len()
        invariant
            i <= v@.len(),
            forall|j: int| 0 <= j < i ==> v@[j] != c,
        decreases v@.len() - i,
    {
        if v[i] == c {
            assert(v@[i as int] == c);
            return true;
        }
        i = i + 1;
    }
    false
}

/// The chunks found by casting rays that are worth spawning: in order, those within
/// `distance` of the camera that are unspawned.
pub open spec fn spawnable(
    states: Map<ChunkCoordinate, ChunkState>,
    camera: ChunkCoordinate,
    distance: u32,
    seen: Seq<ChunkCoordinate>,
) -> Seq<ChunkCoordinate>
    decreases seen.len(),
{
    if seen.len() == 0 {
        Seq::empty()
    } else {
        let prev = spawnable(states, camera, distance, seen.drop_last());
        let c = seen.last();
        if within_distance(camera, c, distance) && !states.contains_key(c) {
            prev.push(c)
        } else {
            prev
        }
    }
}

/// Of the chunks that rays passed through, those to offer for spawning: the ones within
/// `distance` of the camera that are unspawned, in the order they were seen.
pub fn spawn_candidates(
    chunks: &ChunkRegistry,
    camera: ChunkCoordinate,
    distance: u32,
    seen: &Vec<ChunkCoordinate>,
) -> (r: Vec<ChunkCoordinate>)
    requires
        chunks.wf(),
    ensures
        r@ == spawnable(chunks.states(), camera, distance, seen@),
{
    let mut out: Vec<ChunkCoordinate> = Vec::new();
    let mut i: usize = 0;
    proof {
        chunks.lemma_states();
    }
    while i < seen.len()
        invariant
            chunks.wf(),
            i <= seen@.len(),
            out@ == spawnable(chunks.states(), camera, distance, seen@.subrange(0, i as int)),
        decreases seen@.len() - i,
    {
        let c = seen[i];
        proof {
            let s = seen@.subrange(0, i + 1);
            assert(s.drop_last() =~= seen@.subrange(0, i as int));
            assert(s.last() == c);
            chunks.lemma_states();
        }
        if is_within_distance(camera, c, distance) {
            let st = chunks.state(c);
            if st == ChunkState::Unspawned {
                out.push(c);
            }
        }
        i = i + 1;
    }
    proof {
        assert(seen@.subrange(0, i as int) =~= seen@);
    }
    out
}

/// The spawned chunks that should be despawned under `strategy`: those too far from the
/// camera, and with `FarAwayOrOutOfView` also those not in `visible`. Each appears once.
pub fn despawn_candidates(
    chunks: &ChunkRegistry,
    camera: ChunkCoordinate,
    distance: u32,
    strategy: ChunkDespawnStrategy,
    visible: &Vec<ChunkCoordinate>,
) -> (r: Vec<ChunkCoordinate>)
    requires
        chunks.wf(),
    ensures
        r@.no_duplicates(),
        forall|c: ChunkCoordinate|
            #[trigger] r@.contains(c) == (chunks.state_of(c) is Spawned && despawn_due(
                strategy,
                camera,
                c,
                distance,
                visible@.contains(c),
            )),
{
    proof {
        lemma_one_record_per_coordinate(chunks);
    }
    let n = chunks.record_count();
    let mut out: Vec<ChunkCoordinate> = Vec::new();
    let mut i: usize = 0;
    proof {
        assert forall|c: ChunkCoordinate| !(#[trigger] out@.contains(c)) by {}
    }
    while i < n
        invariant
            chunks.wf(),
            n == chunks.records().len(),
            i <= n,
            out@.no_duplicates(),
            forall|c: ChunkCoordinate|
                #[trigger] out@.contains(c) == ((exists|j: int|
                    0 <= j < i && #[trigger] chunks.records()[j].0 == c) && chunks.state_of(c) is Spawned
                    && despawn_due(strategy, camera, c, distance, visible@.contains(c))),
        decreases n - i,
    {
        let (c, st) = chunks.record(i);
        let ghost prev = out@;
        proof {
            lemma_one_record_per_coordinate(chunks);
        }
        let mut wanted = false;
        match st {
            ChunkState::Spawned(_) => {
                let in_view = contains_coordinate(visible, c);
                wanted = should_despawn(strategy, camera, c, distance, in_view);
            },
            _ => {},
        }
        if wanted {
            proof {
                assert(!prev.contains(c)) by {
                    if prev.contains(c) {
                        let j = choose|j: int| 0 <= j < i && #[trigger] chunks.records()[j].0 == c;
                        assert(chunks.records()[j].0 != chunks.records()[i as int].0);
                    }
                };
            }
            out.push(c);
        }
        proof {
            assert(chunks.state_of(c) == st);
            assert forall|k: ChunkCoordinate|
                #[trigger] out@.contains(k) == ((exists|j: int|
                    0 <= j < i + 1 && #[trigger] chunks.records()[j].0 == k) && chunks.state_of(k) is Spawned
                    && despawn_due(strategy, camera, k, distance, visible@.contains(k))) by {
                if k == c {
                    assert(chunks.records()[i as int].0 == k);
                    if wanted {
                        assert(out@[prev.len() as int] == k);
                    }
                } else {
                    if out@.contains(k) {
                        let m = choose|m: int| 0 <= m < out@.len() && out@[m] == k;
                        assert(prev[m] == k);
                    }
                    if prev.contains(k) {
                        let m = choose|m: int| 0 <= m < prev.len() && prev[m] == k;
                        assert(out@[m] == k);
                    }
                    if exists|j: int| 0 <= j < i + 1 && #[trigger] chunks.records()[j].0 == k {
                        let j = choose|j: int| 0 <= j < i + 1 && #[trigger] chunks.records()[j].0 == k;
                        assert(j != i);
                    }
                }
            }
        }
        i = i + 1;
    }
    out
}

/// A chunk within `distance` of the camera is no further than `distance` along each axis.
pub proof fn lemma_within_distance_axes(camera: ChunkCoordinate, c: ChunkCoordinate, distance: u32)
    requires
        within_distance(camera, c, distance),
    ensures
        -(distance as int) <= c.x - camera.x <= distance as int,
        -(distance as int) <= c.y - camera.y <= distance as int,
        -(distance as int) <= c.z - camera.z <= distance as int,
{
    let d = distance as int;
    let a = camera.x - c.x;
    let b = camera.y - c.y;
    let e = camera.z - c.z;
    assert(a * a <= d * d && b * b <= d * d && e * e <= d * d) by (nonlinear_arith)
        requires a * a + b * b + e * e <= d * d;
    assert(-d <= a <= d) by (nonlinear_arith)
        requires a * a <= d * d, d >= 0;
    assert(-d <= b <= d) by (nonlinear_arith)
        requires b * b <= d * d, d >= 0;
    assert(-d <= e <= d) by (nonlinear_arith)
        requires e * e <= d * d, d >= 0;
}

/// Whether `c` is a chunk that full-radius discovery offers: within `distance` of the camera
/// and unspawned.
pub open spec fn in_radius_unspawned(
    states: Map<ChunkCoordinate, ChunkState>,
    camera: ChunkCoordinate,
    distance: u32,
    c: ChunkCoordinate,
) -> bool {
    within_distance(camera, c, distance) && !states.contains_key(c)
}

/// Whether the offset of `c` from the camera comes before `(z, y, x)`, taking `z` first.
pub open spec fn offset_before(camera: ChunkCoordinate, c: ChunkCoordinate, z: int, y: int, x: int) -> bool {
    c.z - camera.z < z || (c.z - camera.z == z && c.y - camera.y < y) || (c.z - camera.z == z && c.y
        - camera.y == y && c.x - camera.x < x)
}

/// Every unspawned chunk within `distance` of the camera, each once. This is the set that a
/// flood fill reaches when it spreads from the camera's chunk to orthogonal neighbours while
/// they stay within `distance`, so that coverage does not depend on where the camera looks.
pub fn radius_candidates(chunks: &ChunkRegistry, camera: ChunkCoordinate, distance: u32) -> (r: Vec<
    ChunkCoordinate,
>)
    requires
        chunks.wf(),
    ensures
        r@.no_duplicates(),
        forall|c: ChunkCoordinate|
            #[trigger] r@.contains(c) == in_radius_unspawned(chunks.states(), camera, distance, c),
{
    let ghost states = chunks.states();
    let d: i64 = distance as i64;
    let mut out: Vec<ChunkCoordinate> = Vec::new();
    let mut z: i64 = -d;
    proof {
        assert forall|c: ChunkCoordinate| #[trigger] out@.contains(c) == (in_radius_unspawned(
            states,
            camera,
            distance,
            c,
        ) && c.z - camera.z < z) by {
            if in_radius_unspawned(states, camera, distance, c) {
                lemma_within_distance_axes(camera, c, distance);
            }
        }
    }
    while z <= d
        invariant
            chunks.wf(),
            states == chunks.states(),
            d == distance,
            -d <= z <= d + 1,
            out@.no_duplicates(),
            forall|c: ChunkCoordinate| #[trigger] out@.contains(c) == (in_radius_unspawned(
                states,
                camera,
                distance,
                c,
            ) && c.z - camera.z < z),
        decreases d + 1 - z,
    {
        let mut y: i64 = -d;
        proof {
            assert forall|c: ChunkCoordinate| #[trigger] out@.contains(c) == (in_radius_unspawned(
                states,
                camera,
                distance,
                c,
            ) && offset_before(camera, c, z as int, y as int, -d)) by {
                if in_radius_unspawned(states, camera, distance, c) {
                    lemma_within_distance_axes(camera, c, distance);
                }
            }
        }
        while y <= d
            invariant
                chunks.wf(),
                states == chunks.states(),
                d == distance,
                -d <= z <= d,
                -d <= y <= d + 1,
                out@.no_duplicates(),
                forall|c: ChunkCoordinate| #[trigger] out@.contains(c) == (in_radius_unspawned(
                    states,
                    camera,
                    distance,
                    c,
                ) && offset_before(camera, c, z as int, y as int, -d)),
            decreases d + 1 - y,
        {
            let mut x: i64 = -d;
            while x <= d
                invariant
                    chunks.wf(),
                    states == chunks.states(),
                    d == distance,
                    -d <= z <= d,
                    -d <= y <= d,
                    -d <= x <= d + 1,
                    out@.no_duplicates(),
                    forall|c: ChunkCoordinate| #[trigger] out@.contains(c) == (in_radius_unspawned(
                        states,
                        camera,
                        distance,
                        c,
                    ) && offset_before(camera, c, z as int, y as int, x as int)),
                decreases d + 1 - x,
            {
                let cx: i64 = camera.x as i64 + x;
                let cy: i64 = camera.y as i64 + y;
                let cz: i64 = camera.z as i64 + z;
                let ghost prev = out@;
                if i32::MIN as i64 <= cx && cx <= i32::MAX as i64 && i32::MIN as i64 <= cy && cy
                    <= i32::MAX as i64 && i32::MIN as i64 <= cz && cz <= i32::MAX as i64 {
                    let c = ChunkCoordinate { x: cx as i32, y: cy as i32, z: cz as i32 };
                    if is_within_distance(camera, c, distance) {
                        proof {
                            chunks.lemma_states();
                        }
                        let st = chunks.state(c);
                        if st == ChunkState::Unspawned {
                            proof {
                                assert(!prev.contains(c));
                            }
                            out.push(c);
                            proof {
                                assert forall|k: ChunkCoordinate| #[trigger] out@.contains(k) == (
                                prev.contains(k) || k == c) by {
                                    if prev.contains(k) {
                                        let j = choose|j: int| 0 <= j < prev.len() && prev[j] == k;
                                        assert(out@[j] == k);
                                    }
                                    if k == c {
                                        assert(out@[prev.len() as int] == k);
                                    }
                                }
                            }
                        } else {
                            proof {
                                chunks.lemma_states();
                            }
                        }
                    }
                }
                x = x + 1;
                proof {
                    chunks.lemma_states();
                }
            }
            y = y + 1;
            proof {
                assert forall|c: ChunkCoordinate| #[trigger] out@.contains(c) == (in_radius_unspawned(
                    states,
                    camera,
                    distance,
                    c,
                ) && offset_before(camera, c, z as int, y as int, -d)) by {
                    if in_radius_unspawned(states, camera, distance, c) {
                        lemma_within_distance_axes(camera, c, distance);
                    }
                }
            }
        }
        z = z + 1;
        proof {
            assert forall|c: ChunkCoordinate| #[trigger] out@.contains(c) == (in_radius_unspawned(
                states,
                camera,
                distance,
                c,
            ) && c.z - camera.z < z) by {
                if in_radius_unspawned(states, camera, distance, c) {
                    lemma_within_distance_axes(camera, c, distance);
                }
            }
        }
    }
    proof {
        assert forall|c: ChunkCoordinate| #[trigger] out@.contains(c) == in_radius_unspawned(
            states,
            camera,
            distance,
            c,
        ) by {
            if in_radius_unspawned(states, camera, distance, c) {
                lemma_within_distance_axes(camera, c, distance);
            }
        }
    }
    out
}

/// This frame's spawn candidates under the configured strategies. With the `Close` spawn
/// strategy and the `FarAway` despawn strategy, every unspawned chunk within the spawning
/// distance; otherwise those of the chunks that rays passed through (`seen`) that are within
/// the distance and unspawned.
pub fn frame_spawn_candidates(
    chunks: &ChunkRegistry,
    config: &VoxelWorldConfig,
    camera: ChunkCoordinate,
    seen: &Vec<ChunkCoordinate>,
) -> (r: Vec<ChunkCoordinate>)
    requires
        chunks.wf(),
    ensures
        config.spawns_out_of_view() ==> forall|c: ChunkCoordinate|
            #[trigger] r@.contains(c) == in_radius_unspawned(
                chunks.states(),
                camera,
                config.spawning_distance,
                c,
            ),
        !config.spawns_out_of_view() ==> r@ == spawnable(
            chunks.states(),
            camera,
            config.spawning_distance,
            seen@,
        ),
{
    if config.spawns_outside_view() {
        radius_candidates(chunks, camera, config.spawning_distance)
    } else {
        spawn_candidates(chunks, camera, config.spawning_distance, seen)
    }
}

} // verus!
