use crate::chunk::Chunk;
use crate::chunk::ChunkView;
use crate::coordinates::ChunkCoordinates;
use crate::coordinates::TerrainVec;
use crate::delta::position_delta;
use crate::delta::step_bytes;
use crate::voxel::extend;
use std::collections::BTreeMap;
use vstd::prelude::*;
use vstd::std_specs::btree::increasing_seq;
use vstd::std_specs::cmp::OrdSpec;
use vstd::std_specs::iter::IteratorSpec;

verus! {

/// The version of the encoded form, its first byte.
pub const FORMAT_VERSION: u8 = 0x01;

/// The second byte of the encoded form: the length of a chunk's edge, as a
/// power of two.
pub const CHUNK_SIZE_LOG2: u8 = 0x05;

/// A world of terrain: chunks by their coordinates.
#[derive(Debug, PartialEq)]
pub struct SmoothGrid {
    world: BTreeMap<(i32, i32, i32), Chunk>,
}

/// A world of terrain, under the name of the engine's object.
pub type Terrain = SmoothGrid;

/// Whether each position comes before all that follow it.
pub open spec fn ascending(positions: Seq<TerrainVec>) -> bool {
    forall|i: int, j: int|
        0 <= i < j < positions.len() ==> (#[trigger] positions[i]).precedes(#[trigger] positions[j])
}

/// Whether the positions are those of the world's chunks, in ascending
/// order.
pub open spec fn is_order_of(positions: Seq<TerrainVec>, world: Map<TerrainVec, ChunkView>) -> bool {
    &&& ascending(positions)
    &&& forall|vec: TerrainVec|
        #![trigger positions.contains(vec)]
        #![trigger world.contains_key(vec)]
        positions.contains(vec) <==> world.contains_key(vec)
}

/// The positions of the world's chunks in ascending order: by `x`, then by
/// `y`, then by `z`.
pub open spec fn ordered_positions(world: Map<TerrainVec, ChunkView>) -> Seq<TerrainVec> {
    choose|positions: Seq<TerrainVec>| is_order_of(positions, world)
}

/// The bytes for one chunk: the step to it from the chunk before it in
/// the order, or from itself where it is the first, and then the chunk's
/// encoded form.
pub open spec fn entry_bytes(
    world: Map<TerrainVec, ChunkView>,
    positions: Seq<TerrainVec>,
    index: int,
) -> Seq<u8> {
    let from = if index == 0 {
        positions[0]
    } else {
        positions[index - 1]
    };
    position_delta(from, positions[index]) + world[positions[index]].encoding()
}

/// The bytes for the first `count` chunks of the order.
pub open spec fn entries_bytes(
    world: Map<TerrainVec, ChunkView>,
    positions: Seq<TerrainVec>,
    count: nat,
) -> Seq<u8>
    decreases count,
{
    if count == 0 {
        Seq::empty()
    } else {
        entries_bytes(world, positions, (count - 1) as nat) + entry_bytes(
            world,
            positions,
            count - 1,
        )
    }
}

/// The encoded form of a world: the version, the size of a chunk, and
/// then chunk after chunk in ascending order of their positions.
pub open spec fn world_encoding(world: Map<TerrainVec, ChunkView>) -> Seq<u8> {
    seq![FORMAT_VERSION, CHUNK_SIZE_LOG2] + entries_bytes(
        world,
        ordered_positions(world),
        ordered_positions(world).len(),
    )
}

/// Only one sequence holds the positions of a world in ascending order.
pub proof fn lemma_order_unique(
    first: Seq<TerrainVec>,
    second: Seq<TerrainVec>,
    world: Map<TerrainVec, ChunkView>,
)
    requires
        is_order_of(first, world),
        is_order_of(second, world),
    ensures
        first == second,
    decreases first.len(),
{
    if first.len() == 0 {
        if second.len() > 0 {
            assert(second.contains(second[0]));
            assert(first.contains(second[0]));
        }
        assert(first =~= second);
    } else {
        assert(first.contains(first[0]));
        assert(second.contains(first[0]));
        assert(second.contains(second[0]));
        assert(first.contains(second[0]));
        let i = choose|i: int| 0 <= i < first.len() && first[i] == second[0];
        let j = choose|j: int| 0 <= j < second.len() && second[j] == first[0];
        if i != 0 && j != 0 {
            assert(first[0].precedes(first[i]));
            assert(second[0].precedes(second[j]));
        }
        assert(first[0] == second[0]);
        let head = first[0];
        let rest = world.remove(head);
        lemma_rest_of_order(first, world);
        lemma_rest_of_order(second, world);
        lemma_order_unique(first.drop_first(), second.drop_first(), rest);
        assert(first =~= seq![head] + first.drop_first());
        assert(second =~= seq![head] + second.drop_first());
    }
}

proof fn lemma_rest_of_order(positions: Seq<TerrainVec>, world: Map<TerrainVec, ChunkView>)
    requires
        is_order_of(positions, world),
        positions.len() > 0,
    ensures
        is_order_of(positions.drop_first(), world.remove(positions[0])),
{
    let rest = positions.drop_first();
    let head = positions[0];
    assert forall|i: int, j: int| 0 <= i < j < rest.len() implies (#[trigger] rest[i]).precedes(
        #[trigger] rest[j],
    ) by {
        assert(rest[i] == positions[i + 1] && rest[j] == positions[j + 1]);
    }
    assert forall|vec: TerrainVec| rest.contains(vec) <==> world.remove(head).contains_key(
        vec,
    ) by {
        if rest.contains(vec) {
            let k = choose|k: int| 0 <= k < rest.len() && rest[k] == vec;
            assert(positions[k + 1] == vec);
            assert(positions.contains(vec));
            assert(positions[0].precedes(positions[k + 1]));
        }
        if world.remove(head).contains_key(vec) {
            assert(positions.contains(vec));
            let k = choose|k: int| 0 <= k < positions.len() && positions[k] == vec;
            assert(rest[k - 1] == vec);
        }
    }
}

/// Ascending positions with one more position put in at its place.
pub open spec fn with_position(positions: Seq<TerrainVec>, position: TerrainVec) -> Seq<TerrainVec>
    decreases positions.len(),
{
    if positions.len() == 0 {
        seq![position]
    } else if position.precedes(positions[0]) {
        seq![position] + positions
    } else {
        seq![positions[0]] + with_position(positions.drop_first(), position)
    }
}

proof fn lemma_with_position(positions: Seq<TerrainVec>, position: TerrainVec)
    requires
        ascending(positions),
        !positions.contains(position),
    ensures
        ascending(with_position(positions, position)),
        forall|vec: TerrainVec|
            #![trigger with_position(positions, position).contains(vec)]
            #![trigger positions.contains(vec)]
            with_position(positions, position).contains(vec) <==> vec == position
                || positions.contains(vec),
    decreases positions.len(),
{
    let all = with_position(positions, position);
    if positions.len() == 0 {
        assert(all[0] == position);
        assert forall|vec: TerrainVec| all.contains(vec) <==> vec == position
            || positions.contains(vec) by {
            if all.contains(vec) {
                let k = choose|k: int| 0 <= k < all.len() && all[k] == vec;
            }
        }
    } else if position.precedes(positions[0]) {
        assert forall|i: int, j: int| 0 <= i < j < all.len() implies (#[trigger] all[i]).precedes(
            #[trigger] all[j],
        ) by {
            if i == 0 {
                assert(all[j] == positions[j - 1]);
                if j > 1 {
                    assert(positions[0].precedes(positions[j - 1]));
                }
            } else {
                assert(all[i] == positions[i - 1] && all[j] == positions[j - 1]);
            }
        }
        assert forall|vec: TerrainVec| all.contains(vec) <==> vec == position
            || positions.contains(vec) by {
            if all.contains(vec) {
                let k = choose|k: int| 0 <= k < all.len() && all[k] == vec;
                if k > 0 {
                    assert(positions[k - 1] == vec);
                }
            }
            if vec == position {
                assert(all[0] == vec);
            }
            if positions.contains(vec) {
                let k = choose|k: int| 0 <= k < positions.len() && positions[k] == vec;
                assert(all[k + 1] == vec);
            }
        }
    } else {
        let head = positions[0];
        let rest = positions.drop_first();
        let tail = with_position(rest, position);
        assert(positions.contains(head));
        assert forall|i: int, j: int| 0 <= i < j < rest.len() implies (#[trigger] rest[i]).precedes(
            #[trigger] rest[j],
        ) by {
            assert(rest[i] == positions[i + 1] && rest[j] == positions[j + 1]);
        }
        if rest.contains(position) {
            let k = choose|k: int| 0 <= k < rest.len() && rest[k] == position;
            assert(positions[k + 1] == position);
        }
        lemma_with_position(rest, position);
        assert forall|i: int, j: int| 0 <= i < j < all.len() implies (#[trigger] all[i]).precedes(
            #[trigger] all[j],
        ) by {
            assert(all[j] == tail[j - 1]);
            assert(tail.contains(tail[j - 1]));
            if i == 0 {
                if tail[j - 1] != position {
                    let k = choose|k: int| 0 <= k < rest.len() && rest[k] == tail[j - 1];
                    assert(positions[0].precedes(positions[k + 1]));
                }
            } else {
                assert(all[i] == tail[i - 1]);
            }
        }
        assert forall|vec: TerrainVec| all.contains(vec) <==> vec == position
            || positions.contains(vec) by {
            if all.contains(vec) {
                let k = choose|k: int| 0 <= k < all.len() && all[k] == vec;
                if k > 0 {
                    assert(tail[k - 1] == vec);
                    assert(tail.contains(vec));
                    if vec != position {
                        let m = choose|m: int| 0 <= m < rest.len() && rest[m] == vec;
                        assert(positions[m + 1] == vec);
                    }
                }
            }
            if vec == position {
                assert(tail.contains(vec));
                let k = choose|k: int| 0 <= k < tail.len() && tail[k] == vec;
                assert(all[k + 1] == vec);
            }
            if positions.contains(vec) {
                let k = choose|k: int| 0 <= k < positions.len() && positions[k] == vec;
                if k == 0 {
                    assert(all[0] == vec);
                } else {
                    assert(rest[k - 1] == vec);
                    assert(rest.contains(vec));
                    assert(tail.contains(vec));
                    let m = choose|m: int| 0 <= m < tail.len() && tail[m] == vec;
                    assert(all[m + 1] == vec);
                }
            }
        }
    }
}

/// Every world of finitely many chunks has its ascending order.
pub proof fn lemma_order_exists(world: Map<TerrainVec, ChunkView>)
    requires
        world.dom().finite(),
    ensures
        is_order_of(ordered_positions(world), world),
    decreases world.dom().len(),
{
    if world.dom().len() == 0 {
        assert(is_order_of(Seq::<TerrainVec>::empty(), world)) by {
            assert forall|vec: TerrainVec| !world.contains_key(vec) by {
                if world.dom().contains(vec) {
                    vstd::set_lib::lemma_set_empty_equivalency_len(world.dom());
                }
            }
        }
    } else {
        let position = world.dom().choose();
        let fewer = world.remove(position);
        vstd::set_lib::lemma_set_empty_equivalency_len(world.dom());
        assert(world.dom().contains(position));
        assert(fewer.dom() =~= world.dom().remove(position));
        lemma_order_exists(fewer);
        let positions = ordered_positions(fewer);
        lemma_with_position(positions, position);
        assert(is_order_of(with_position(positions, position), world));
    }
}

/// The first chunk of the order steps from itself: its bytes begin with
/// nine zero bytes.
pub proof fn lemma_first_step_is_zero(world: Map<TerrainVec, ChunkView>, positions: Seq<TerrainVec>)
    ensures
        entry_bytes(world, positions, 0) == Seq::new(9, |i: int| 0u8) + world[positions[0]].encoding(),
{
    crate::delta::lemma_position_delta_to_self(positions[0]);
}

/// A world without chunks is encoded as the version and the size of a
/// chunk, and nothing more.
pub proof fn lemma_empty_world_encoding()
    ensures
        world_encoding(Map::<TerrainVec, ChunkView>::empty()) == seq![
            FORMAT_VERSION,
            CHUNK_SIZE_LOG2,
        ],
{
    let world = Map::<TerrainVec, ChunkView>::empty();
    assert(is_order_of(Seq::<TerrainVec>::empty(), world));
    lemma_order_unique(Seq::<TerrainVec>::empty(), ordered_positions(world), world);
    assert(world_encoding(world) =~= seq![FORMAT_VERSION, CHUNK_SIZE_LOG2]);
}

/// The encoded form of a world depends on nothing but the chunks it holds
/// and where it holds them; in particular not on the order in which they
/// were written.
pub proof fn lemma_write_order_is_irrelevant(
    world: Map<TerrainVec, ChunkView>,
    first: TerrainVec,
    first_chunk: ChunkView,
    second: TerrainVec,
    second_chunk: ChunkView,
)
    requires
        first != second,
    ensures
        world_encoding(world.insert(first, first_chunk).insert(second, second_chunk))
            == world_encoding(world.insert(second, second_chunk).insert(first, first_chunk)),
{
    assert(world.insert(first, first_chunk).insert(second, second_chunk) =~= world.insert(
        second,
        second_chunk,
    ).insert(first, first_chunk));
}

/// The order by which a map of triples walks its keys is the order of the
/// positions.
proof fn lemma_key_order(first: (i32, i32, i32), second: (i32, i32, i32))
    ensures
        (first.cmp_spec(&second) is Less) <==> key_position(first).precedes(key_position(second)),
{
}

/// The position that a key of the map stands for.
pub open spec fn key_position(key: (i32, i32, i32)) -> TerrainVec {
    TerrainVec { x: key.0, y: key.1, z: key.2 }
}

proof fn lemma_increasing_keys(keys: Seq<(i32, i32, i32)>)
    requires
        increasing_seq(keys),
    ensures
        ascending(keys.map_values(|key: (i32, i32, i32)| key_position(key))),
{
    broadcast use vstd::std_specs::btree::group_btree_axioms;

    let positions = keys.map_values(|key: (i32, i32, i32)| key_position(key));
    assert forall|i: int, j: int| 0 <= i < j < positions.len() implies (
    #[trigger] positions[i]).precedes(#[trigger] positions[j]) by {
        lemma_key_order(keys[i], keys[j]);
    }
}

/// `BTreeMap::get_mut`, for a key that is a chunk's position: a reference
/// to the chunk under the key, if the map holds one there. What the holder
/// of the reference leaves in it is what the map then holds under the key;
/// the rest of the map stays.
#[verifier::external_body]
fn world_get_mut(world: &mut BTreeMap<(i32, i32, i32), Chunk>, key: (i32, i32, i32)) -> (found:
    Option<&mut Chunk>)
    ensures
        found is Some <==> old(world)@.contains_key(key),
        found matches Some(chunk) ==> {
            &&& *chunk == old(world)@[key]
            &&& final(world)@ == old(world)@.insert(key, *final(chunk))
        },
        found is None ==> final(world)@ == old(world)@,
{
    world.get_mut(&key)
}

impl View for SmoothGrid {
    type V = Map<TerrainVec, ChunkView>;

    closed spec fn view(&self) -> Map<TerrainVec, ChunkView> {
        Map::new(
            |vec: TerrainVec| self.world@.contains_key((vec.x, vec.y, vec.z)),
            |vec: TerrainVec| self.world@[(vec.x, vec.y, vec.z)]@,
        )
    }
}

/// The entries that a walk over the map yields are the chunks of the
/// world, in the ascending order of their positions.
proof fn lemma_walk_is_order(grid: &SmoothGrid, all: Seq<(&(i32, i32, i32), &Chunk)>)
    requires
        all == grid.world.iter().remaining(),
        increasing_seq(all.map_values(|entry: (&(i32, i32, i32), &Chunk)| *entry.0)),
    ensures
        is_order_of(ordered_positions(grid@), grid@),
        all.map_values(|entry: (&(i32, i32, i32), &Chunk)| key_position(*entry.0))
            == ordered_positions(grid@),
{
    broadcast use vstd::std_specs::btree::group_btree_axioms;

    let world = grid@;
    let positions = all.map_values(|entry: (&(i32, i32, i32), &Chunk)| key_position(*entry.0));
    let keys = all.map_values(|entry: (&(i32, i32, i32), &Chunk)| *entry.0);
    lemma_increasing_keys(keys);
    assert(positions =~= keys.map_values(|key: (i32, i32, i32)| key_position(key)));
    assert forall|vec: TerrainVec| positions.contains(vec) <==> world.contains_key(vec) by {
        if positions.contains(vec) {
            let i = choose|i: int| 0 <= i < positions.len() && positions[i] == vec;
            assert(grid.world@.contains_key(*all[i].0));
        }
        if world.contains_key(vec) {
            let key = (vec.x, vec.y, vec.z);
            assert(grid.world@.contains_key(key));
            assert(all.contains((&key, &grid.world@[key])));
            let i = choose|i: int| 0 <= i < all.len() && all[i] == (&key, &grid.world@[key]);
            assert(positions[i] == vec);
        }
    }
    assert(is_order_of(positions, world));
    lemma_order_unique(positions, ordered_positions(world), world);
}

impl SmoothGrid {
    /// A world without chunks.
    pub fn new() -> (grid: SmoothGrid)
        ensures
            grid@ == Map::<TerrainVec, ChunkView>::empty(),
    {
        let grid = SmoothGrid { world: BTreeMap::new() };
        assert(grid@ =~= Map::<TerrainVec, ChunkView>::empty());
        grid
    }

    /// The chunk at the given position, if there is one.
    pub fn get_chunk(&self, position: &ChunkCoordinates) -> (found: Option<&Chunk>)
        ensures
            found is Some <==> self@.contains_key(position@),
            found matches Some(chunk) ==> chunk@ == self@[position@],
    {
        let vec = position.components();
        let key = (vec.x, vec.y, vec.z);
        self.world.get(&key)
    }

    /// The chunk at the given position, if there is one, to be changed in
    /// place.
    pub fn get_chunk_mut(&mut self, position: &ChunkCoordinates) -> (found: Option<&mut Chunk>)
        ensures
            found is Some <==> old(self)@.contains_key(position@),
            found matches Some(chunk) ==> {
                &&& chunk@ == old(self)@[position@]
                &&& final(self)@ == old(self)@.insert(position@, final(chunk)@)
            },
            found is None ==> final(self)@ == old(self)@,
    {
        let vec = position.components();
        let found = world_get_mut(&mut self.world, (vec.x, vec.y, vec.z));
        found
    }

    /// Writes a chunk at the given position, in place of the one that was
    /// there, if any.
    pub fn write_chunk(&mut self, position: &ChunkCoordinates, chunk: Chunk)
        ensures
            final(self)@ == old(self)@.insert(position@, chunk@),
    {
        let vec = position.components();
        let key = (vec.x, vec.y, vec.z);
        self.world.insert(key, chunk);
        proof {
            assert(self@ =~= old(self)@.insert(position@, chunk@));
        }
    }

    /// The positions of the chunks, in ascending order: by `x`, then by
    /// `y`, then by `z`.
    pub fn positions(&self) -> (positions: Vec<TerrainVec>)
        ensures
            positions@ == ordered_positions(self@),
            is_order_of(positions@, self@),
    {
        let mut positions: Vec<TerrainVec> = Vec::new();
        let ghost all = self.world.iter().remaining();
        for entry in walk: self.world.iter()
            invariant
                walk.seq() == all,
                all == self.world.iter().remaining(),
                increasing_seq(all.map_values(|entry: (&(i32, i32, i32), &Chunk)| *entry.0)),
                positions@.len() == walk.index(),
                forall|i: int|
                    0 <= i < positions@.len() ==> #[trigger] positions@[i] == key_position(
                        *all[i].0,
                    ),
        {
            let (key, _) = entry;
            positions.push(TerrainVec { x: key.0, y: key.1, z: key.2 });
        }
        proof {
            lemma_walk_is_order(self, all);
            assert(positions@ =~= all.map_values(
                |entry: (&(i32, i32, i32), &Chunk)| key_position(*entry.0),
            ));
        }
        positions
    }

    /// The bytes for the step from one chunk's position to another's.
    pub fn encode_position_delta(from: &ChunkCoordinates, to: &ChunkCoordinates) -> (bytes: Vec<u8>)
        ensures
            bytes@ == position_delta(from@, to@),
    {
        step_bytes(from.components(), to.components())
    }

    /// The encoded form of the world.
    pub fn encode(&self) -> (bytes: Vec<u8>)
        ensures
            bytes@ == world_encoding(self@),
            is_order_of(ordered_positions(self@), self@),
    {
        let mut data: Vec<u8> = Vec::new();
        data.push(FORMAT_VERSION);
        data.push(CHUNK_SIZE_LOG2);
        let ghost world = self@;
        let ghost all = self.world.iter().remaining();
        let ghost positions = all.map_values(|entry: (&(i32, i32, i32), &Chunk)| key_position(*entry.0));
        let mut chunk_cursor: Option<TerrainVec> = None;
        for entry in walk: self.world.iter()
            invariant
                world == self@,
                walk.seq() == all,
                all == self.world.iter().remaining(),
                increasing_seq(all.map_values(|entry: (&(i32, i32, i32), &Chunk)| *entry.0)),
                positions == all.map_values(
                    |entry: (&(i32, i32, i32), &Chunk)| key_position(*entry.0),
                ),
                chunk_cursor == if walk.index() == 0 {
                    None
                } else {
                    Some(positions[walk.index() - 1])
                },
                data@ == seq![FORMAT_VERSION, CHUNK_SIZE_LOG2] + entries_bytes(
                    world,
                    positions,
                    walk.index() as nat,
                ),
        {
            broadcast use vstd::std_specs::btree::group_btree_axioms;

            let ghost index = walk.index();
            let (key, chunk) = entry;
            let position = TerrainVec { x: key.0, y: key.1, z: key.2 };
            proof {
                assert(all[index] == entry);
                assert(self.world@.contains_key(*all[index].0));
                assert(position == positions[index]);
                assert(chunk@ == world[position]);
            }
            let cursor = match chunk_cursor {
                None => position,
                Some(cursor) => cursor,
            };
            let step = step_bytes(cursor, position);
            let cells = chunk.encode();
            let ghost before = data@;
            extend(&mut data, &step);
            extend(&mut data, &cells);
            proof {
                assert(step@ + cells@ == entry_bytes(world, positions, index));
                assert(data@ =~= before + (step@ + cells@));
                assert(before + (step@ + cells@) =~= seq![FORMAT_VERSION, CHUNK_SIZE_LOG2] + (
                entries_bytes(world, positions, index as nat) + entry_bytes(
                    world,
                    positions,
                    index,
                )));
            }
            chunk_cursor = Some(position);
        }
        proof {
            lemma_walk_is_order(self, all);
        }
        data
    }
}

impl Clone for SmoothGrid {
    /// A world that holds the same chunks at the same positions.
    fn clone(&self) -> (grid: SmoothGrid)
        ensures
            grid@ == self@,
    {
        let grid = SmoothGrid { world: self.world.clone() };
        assert(grid@ =~= self@);
        grid
    }
}

impl Default for SmoothGrid {
    /// A world without chunks.
    fn default() -> (grid: SmoothGrid)
        ensures
            grid@ == Map::<TerrainVec, ChunkView>::empty(),
    {
        SmoothGrid::new()
    }
}

} // verus!
