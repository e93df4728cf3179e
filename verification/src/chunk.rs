use crate::coordinates::TerrainVec;
use crate::coordinates::VoxelCoordinates;
use crate::coordinates::VOXEL_MAX;
use crate::material::Material;
use crate::single::Single;
use crate::voxel::extend;
use crate::voxel::repeated;
use crate::voxel::Voxel;
use crate::voxel::VoxelView;
use crate::voxel::COUNT_FLAG;
use crate::voxel::MAX_RUN;
use std::collections::HashMap;
use vstd::prelude::*;

verus! {

/// The number of voxels in a chunk.
pub const CHUNK_VOLUME: u32 = 32768;

/// A cube of 32 by 32 by 32 voxels. It holds the voxels that were written
/// to it; every other cell is full of the base material.
#[derive(Debug, PartialEq)]
pub struct Chunk {
    /// The written voxels, each under its place in the written order.
    grid: HashMap<u32, Voxel>,
    base_material: Material,
}

/// What a chunk holds: the written voxels by their coordinates, and the
/// base material.
pub struct ChunkView {
    pub voxels: Map<TerrainVec, VoxelView>,
    pub base_material: Material,
}

/// A number of equal voxels in a row.
pub struct Run {
    pub voxel: VoxelView,
    pub count: nat,
}

/// Given that the first `so_far` cells are equal, the length of the run
/// that begins the cells: it goes on while the next cell equals the first,
/// and stops at `MAX_RUN` cells.
pub open spec fn extend_run(cells: Seq<VoxelView>, so_far: nat) -> nat
    decreases cells.len() - so_far,
{
    if so_far < MAX_RUN && so_far < cells.len() && cells[so_far as int] == cells[0] {
        extend_run(cells, so_far + 1)
    } else {
        so_far
    }
}

/// The length of the run that begins the cells, of which there is one at
/// least.
pub open spec fn leading_run(cells: Seq<VoxelView>) -> nat {
    extend_run(cells, 1)
}

/// The cells as runs: the run that begins them, then the runs of the
/// cells behind it.
pub open spec fn runs(cells: Seq<VoxelView>) -> Seq<Run>
    decreases cells.len(),
    via runs_decreases
{
    if cells.len() == 0 {
        Seq::empty()
    } else {
        seq![Run { voxel: cells[0], count: leading_run(cells) }] + runs(
            cells.skip(leading_run(cells) as int),
        )
    }
}

#[via_fn]
proof fn runs_decreases(cells: Seq<VoxelView>) {
    if cells.len() != 0 {
        lemma_extend_run(cells, 1);
    }
}

/// The bytes of the runs, one run after the other.
pub open spec fn runs_bytes(runs: Seq<Run>) -> Seq<u8>
    decreases runs.len(),
{
    if runs.len() == 0 {
        Seq::empty()
    } else {
        runs[0].voxel.run_bytes(runs[0].count) + runs_bytes(runs.drop_first())
    }
}

/// What `extend_run` gives: a length from `so_far` on that stays within
/// the cells and within `MAX_RUN`, up to which the cells equal the first,
/// and at which the run ends, by the limit, by the end of the cells, or by
/// a cell that differs.
pub proof fn lemma_extend_run(cells: Seq<VoxelView>, so_far: nat)
    requires
        1 <= so_far <= MAX_RUN,
        so_far <= cells.len(),
        forall|i: int| 0 <= i < so_far ==> #[trigger] cells[i] == cells[0],
    ensures
        so_far <= extend_run(cells, so_far) <= MAX_RUN,
        extend_run(cells, so_far) <= cells.len(),
        forall|i: int| 0 <= i < extend_run(cells, so_far) ==> #[trigger] cells[i] == cells[0],
        extend_run(cells, so_far) == MAX_RUN || extend_run(cells, so_far) == cells.len()
            || cells[extend_run(cells, so_far) as int] != cells[0],
    decreases cells.len() - so_far,
{
    if so_far < MAX_RUN && so_far < cells.len() && cells[so_far as int] == cells[0] {
        lemma_extend_run(cells, so_far + 1);
    }
}

/// A length is that of the leading run if the cells up to it equal the
/// first and the run ends there.
pub proof fn lemma_leading_run_is(cells: Seq<VoxelView>, count: nat)
    requires
        1 <= count <= MAX_RUN,
        count <= cells.len(),
        forall|i: int| 0 <= i < count ==> #[trigger] cells[i] == cells[0],
        count == MAX_RUN || count == cells.len() || cells[count as int] != cells[0],
    ensures
        leading_run(cells) == count,
{
    lemma_extend_run_reaches(cells, 1, count);
}

proof fn lemma_extend_run_reaches(cells: Seq<VoxelView>, so_far: nat, count: nat)
    requires
        1 <= so_far <= count <= MAX_RUN,
        count <= cells.len(),
        forall|i: int| 0 <= i < count ==> #[trigger] cells[i] == cells[0],
        count == MAX_RUN || count == cells.len() || cells[count as int] != cells[0],
    ensures
        extend_run(cells, so_far) == count,
    decreases count - so_far,
{
    if so_far < count {
        lemma_extend_run_reaches(cells, so_far + 1, count);
    }
}

/// The cells that runs stand for: each run's voxel as often as its count
/// says, run after run.
pub open spec fn expand(runs: Seq<Run>) -> Seq<VoxelView>
    decreases runs.len(),
{
    if runs.len() == 0 {
        Seq::empty()
    } else {
        Seq::new(runs[0].count, |i: int| runs[0].voxel) + expand(runs.drop_first())
    }
}

/// The runs of cells are their leading run and then the runs of the cells
/// behind it.
pub proof fn lemma_runs_split(cells: Seq<VoxelView>)
    requires
        cells.len() > 0,
    ensures
        1 <= leading_run(cells) <= cells.len(),
        leading_run(cells) <= MAX_RUN,
        runs(cells).len() == 1 + runs(cells.skip(leading_run(cells) as int)).len(),
        runs(cells)[0] == (Run { voxel: cells[0], count: leading_run(cells) }),
        runs(cells).drop_first() == runs(cells.skip(leading_run(cells) as int)),
{
    lemma_extend_run(cells, 1);
    let first = Run { voxel: cells[0], count: leading_run(cells) };
    let rest = runs(cells.skip(leading_run(cells) as int));
    assert(runs(cells) == seq![first] + rest);
    assert((seq![first] + rest).drop_first() =~= rest);
}

/// The bytes of the runs of cells are the bytes of their leading run and
/// then those of the runs of the cells behind it.
pub proof fn lemma_runs_unfold(cells: Seq<VoxelView>)
    requires
        cells.len() > 0,
    ensures
        1 <= leading_run(cells) <= cells.len(),
        runs_bytes(runs(cells)) == cells[0].run_bytes(leading_run(cells)) + runs_bytes(
            runs(cells.skip(leading_run(cells) as int)),
        ),
{
    lemma_runs_split(cells);
}

/// The runs of cells stand for those very cells.
pub proof fn lemma_runs_round_trip(cells: Seq<VoxelView>)
    ensures
        expand(runs(cells)) == cells,
    decreases cells.len(),
{
    if cells.len() == 0 {
        assert(expand(runs(cells)) =~= cells);
    } else {
        let count = leading_run(cells);
        lemma_extend_run(cells, 1);
        lemma_runs_split(cells);
        lemma_runs_round_trip(cells.skip(count as int));
        assert(Seq::new(count, |i: int| cells[0]) + cells.skip(count as int) =~= cells);
    }
}

/// Every run holds at least one voxel and at most `MAX_RUN`, so that no
/// cells make fewer runs than one for every `MAX_RUN` of them, nor more
/// runs than there are cells.
pub proof fn lemma_runs_counts(cells: Seq<VoxelView>)
    ensures
        forall|i: int| 0 <= i < runs(cells).len() ==> 1 <= (#[trigger] runs(cells)[i]).count <= MAX_RUN,
        runs(cells).len() * MAX_RUN >= cells.len(),
        runs(cells).len() <= cells.len(),
    decreases cells.len(),
{
    if cells.len() > 0 {
        let rest = cells.skip(leading_run(cells) as int);
        lemma_runs_split(cells);
        lemma_runs_counts(rest);
        assert forall|i: int| 0 <= i < runs(cells).len() implies 1 <= (#[trigger] runs(
            cells,
        )[i]).count <= MAX_RUN by {
            if i > 0 {
                assert(runs(cells)[i] == runs(cells).drop_first()[i - 1]);
            }
        }
    }
}

/// Whether every run is as long as it can be: where two runs that follow
/// one another hold the same voxel, the first of them holds `MAX_RUN`
/// voxels.
pub open spec fn maximal(runs: Seq<Run>) -> bool {
    forall|i: int, j: int|
        0 <= i && j == i + 1 && j < runs.len() ==> (#[trigger] runs[i]).count == MAX_RUN
            || runs[i].voxel != (#[trigger] runs[j]).voxel
}

/// Every run of the runs of cells is as long as it can be.
pub proof fn lemma_runs_maximal(cells: Seq<VoxelView>)
    ensures
        maximal(runs(cells)),
    decreases cells.len(),
{
    if cells.len() > 0 {
        let count = leading_run(cells);
        let rest = cells.skip(count as int);
        let all = runs(cells);
        lemma_extend_run(cells, 1);
        lemma_runs_split(cells);
        lemma_runs_maximal(rest);
        assert forall|i: int, j: int| 0 <= i && j == i + 1 && j < all.len() implies (
        #[trigger] all[i]).count == MAX_RUN || all[i].voxel != (#[trigger] all[j]).voxel by {
            assert(all[j] == runs(rest)[j - 1]);
            if i > 0 {
                assert(all[i] == runs(rest)[i - 1]);
            } else {
                lemma_runs_split(rest);
                assert(rest[0] == cells[count as int]);
            }
        }
    }
}

/// Copies of some bytes come to the same whether one more copy is put in
/// front of them or behind them.
pub proof fn lemma_repeated_front(bytes: Seq<u8>, times: nat)
    ensures
        bytes + repeated(bytes, times) == repeated(bytes, times) + bytes,
    decreases times,
{
    if times == 0 {
        assert(bytes + repeated(bytes, 0) =~= repeated(bytes, 0) + bytes);
    } else {
        lemma_repeated_front(bytes, (times - 1) as nat);
        let shorter = repeated(bytes, (times - 1) as nat);
        assert(bytes + (shorter + bytes) =~= (bytes + shorter) + bytes);
    }
}

/// Cells that all hold one voxel, `MAX_RUN` times some number of them,
/// make that number of runs, each of `MAX_RUN` voxels; their bytes are as
/// many copies of the bytes of one such run.
pub proof fn lemma_uniform_runs(cells: Seq<VoxelView>, voxel: VoxelView, full_runs: nat)
    requires
        cells.len() == MAX_RUN * full_runs,
        forall|i: int| 0 <= i < cells.len() ==> #[trigger] cells[i] == voxel,
    ensures
        runs(cells).len() == full_runs,
        forall|i: int|
            0 <= i < full_runs ==> #[trigger] runs(cells)[i] == (Run {
                voxel,
                count: MAX_RUN as nat,
            }),
        runs_bytes(runs(cells)) == repeated(voxel.run_bytes(MAX_RUN as nat), full_runs),
    decreases full_runs,
{
    if full_runs == 0 {
        assert(runs_bytes(runs(cells)) =~= repeated(voxel.run_bytes(MAX_RUN as nat), 0));
    } else {
        let rest = cells.skip(MAX_RUN as int);
        lemma_leading_run_is(cells, MAX_RUN as nat);
        lemma_runs_unfold(cells);
        lemma_uniform_runs(rest, voxel, (full_runs - 1) as nat);
        lemma_repeated_front(voxel.run_bytes(MAX_RUN as nat), (full_runs - 1) as nat);
    }
}

/// Where the first `MAX_RUN` cells are equal and more cells follow, the
/// first run holds `MAX_RUN` voxels, whatever comes behind them. Where the
/// cell behind them is equal too and the one after that is not, or is not
/// there, the second run holds that one voxel.
pub proof fn lemma_run_boundary(cells: Seq<VoxelView>)
    requires
        cells.len() > MAX_RUN,
        forall|i: int| 0 <= i < MAX_RUN ==> #[trigger] cells[i] == cells[0],
    ensures
        runs(cells)[0] == (Run { voxel: cells[0], count: MAX_RUN as nat }),
        cells[MAX_RUN as int] == cells[0] && (cells.len() == MAX_RUN + 1 || cells[MAX_RUN + 1]
            != cells[0]) ==> runs(cells)[1] == (Run { voxel: cells[0], count: 1 }),
{
    lemma_leading_run_is(cells, MAX_RUN as nat);
    let rest = cells.skip(MAX_RUN as int);
    if cells[MAX_RUN as int] == cells[0] && (cells.len() == MAX_RUN + 1 || cells[MAX_RUN + 1]
        != cells[0]) {
        assert(rest[0] == cells[MAX_RUN as int]);
        if rest.len() > 1 {
            assert(rest[1] == cells[MAX_RUN + 1]);
        }
        lemma_leading_run_is(rest, 1);
        assert(runs(cells)[1] == runs(rest)[0]);
    }
}

impl ChunkView {
    /// The voxel at the given coordinates: the written one, or a cell
    /// full of the base material.
    pub open spec fn voxel_at(self, vec: TerrainVec) -> VoxelView {
        if self.voxels.contains_key(vec) {
            self.voxels[vec]
        } else {
            VoxelView::full(self.base_material)
        }
    }

    /// All the voxels of the chunk in the written order: row after row
    /// along `x`, the rows of a layer along `z`, layer after layer along
    /// `y`.
    pub open spec fn cells(self) -> Seq<VoxelView> {
        Seq::new(
            CHUNK_VOLUME as nat,
            |index: int| self.voxel_at(VoxelCoordinates::at_scan_index(index)),
        )
    }

    /// The encoded form of the chunk: its cells in the written order, as
    /// runs of equal voxels, each run as long as it can be within the
    /// limit of `MAX_RUN`.
    pub open spec fn encoding(self) -> Seq<u8> {
        runs_bytes(runs(self.cells()))
    }

    /// A chunk to which no voxel was written makes 128 runs of `MAX_RUN`
    /// voxels, and its encoded form is 128 times two bytes: the code of
    /// the base material with `COUNT_FLAG`, and 255 for the count.
    pub proof fn lemma_uniform_chunk(self)
        requires
            self.voxels == Map::<TerrainVec, VoxelView>::empty(),
        ensures
            runs(self.cells()).len() == 128,
            forall|i: int|
                0 <= i < 128 ==> #[trigger] runs(self.cells())[i] == (Run {
                    voxel: VoxelView::full(self.base_material),
                    count: MAX_RUN as nat,
                }),
            self.encoding() == repeated(
                seq![(self.base_material.spec_code() + COUNT_FLAG) as u8, 0xFFu8],
                128,
            ),
    {
        let voxel = VoxelView::full(self.base_material);
        Single::lemma_levels_of_zero_and_one();
        lemma_uniform_runs(self.cells(), voxel, 128);
        assert(voxel.run_bytes(MAX_RUN as nat) =~= seq![
            (self.base_material.spec_code() + COUNT_FLAG) as u8,
            0xFFu8,
        ]);
    }
}

impl View for Chunk {
    type V = ChunkView;

    closed spec fn view(&self) -> ChunkView {
        ChunkView {
            voxels: Map::new(
                |vec: TerrainVec|
                    vec.within(0, VOXEL_MAX as int) && self.grid@.contains_key(
                        VoxelCoordinates::scan_index(vec) as u32,
                    ),
                |vec: TerrainVec| self.grid@[VoxelCoordinates::scan_index(vec) as u32]@,
            ),
            base_material: self.base_material,
        }
    }
}

/// Where the bytes written so far, with the bytes of the runs of the
/// cells from `start` on behind them, are the bytes of the runs of all
/// cells, and the run that begins at `start` holds `count` cells, the same
/// is true once the bytes of that run are written and the cells behind
/// the run are to come.
proof fn lemma_run_written(
    cells: Seq<VoxelView>,
    written: Seq<u8>,
    start: int,
    count: nat,
    voxel: VoxelView,
)
    requires
        0 <= start,
        1 <= count <= MAX_RUN,
        start + count <= cells.len(),
        forall|i: int| start <= i < start + count ==> #[trigger] cells[i] == voxel,
        count == MAX_RUN || start + count == cells.len() || cells[start + count] != voxel,
        written + runs_bytes(runs(cells.skip(start))) == runs_bytes(runs(cells)),
    ensures
        (written + voxel.run_bytes(count)) + runs_bytes(runs(cells.skip(start + count)))
            == runs_bytes(runs(cells)),
{
    let pending = cells.skip(start);
    let rest = runs_bytes(runs(cells.skip(start + count)));
    assert forall|i: int| 0 <= i < count implies #[trigger] pending[i] == pending[0] by {
        assert(pending[i] == cells[start + i]);
        assert(pending[0] == cells[start]);
    }
    if count < pending.len() {
        assert(pending[count as int] == cells[start + count]);
    }
    lemma_leading_run_is(pending, count);
    lemma_runs_unfold(pending);
    assert(pending.skip(count as int) =~= cells.skip(start + count));
    assert(written + (voxel.run_bytes(count) + rest) =~= (written + voxel.run_bytes(count)) + rest);
}

/// `HashMap::get_mut`, for a key that is a place of the written order:
/// a reference to the voxel under the key, if the map holds one there. What
/// the holder of the reference leaves in it is what the map then holds
/// under the key; the rest of the map stays.
#[verifier::external_body]
fn grid_get_mut(grid: &mut HashMap<u32, Voxel>, index: u32) -> (found: Option<&mut Voxel>)
    ensures
        found is Some <==> old(grid)@.contains_key(index),
        found matches Some(voxel) ==> {
            &&& *voxel == old(grid)@[index]
            &&& final(grid)@ == old(grid)@.insert(index, *final(voxel))
        },
        found is None ==> final(grid)@ == old(grid)@,
{
    grid.get_mut(&index)
}

impl Chunk {
    /// An empty chunk: every cell full of air.
    pub fn new() -> (chunk: Chunk)
        ensures
            chunk@.voxels == Map::<TerrainVec, VoxelView>::empty(),
            chunk@.base_material == Material::Air,
    {
        let chunk = Chunk { grid: HashMap::new(), base_material: Material::Air };
        assert(chunk@.voxels =~= Map::<TerrainVec, VoxelView>::empty());
        chunk
    }

    /// An empty chunk: every cell full of the given material.
    pub fn new_with_base(base_material: Material) -> (chunk: Chunk)
        ensures
            chunk@.voxels == Map::<TerrainVec, VoxelView>::empty(),
            chunk@.base_material == base_material,
    {
        let chunk = Chunk { grid: HashMap::new(), base_material };
        assert(chunk@.voxels =~= Map::<TerrainVec, VoxelView>::empty());
        chunk
    }

    /// Sets the material that fills the cells to which no voxel was
    /// written.
    pub fn set_base(&mut self, base_material: Material)
        ensures
            final(self)@.voxels == old(self)@.voxels,
            final(self)@.base_material == base_material,
    {
        self.base_material = base_material;
        assert(self@.voxels =~= old(self)@.voxels);
    }

    /// The material that fills the cells to which no voxel was written.
    pub fn base_material(&self) -> (base_material: Material)
        ensures
            base_material == self@.base_material,
    {
        self.base_material
    }

    /// The voxel that was written at the given coordinates, if one was.
    pub fn get_voxel(&self, position: &VoxelCoordinates) -> (found: Option<&Voxel>)
        ensures
            found is Some <==> self@.voxels.contains_key(position@),
            found matches Some(voxel) ==> voxel@ == self@.voxels[position@],
    {
        let index = position.index();
        proof {
            VoxelCoordinates::lemma_scan_index(position@);
        }
        self.grid.get(&index)
    }

    /// The voxel that was written at the given coordinates, if one was,
    /// to be changed in place.
    pub fn get_voxel_mut(&mut self, position: &VoxelCoordinates) -> (found: Option<&mut Voxel>)
        ensures
            found is Some <==> old(self)@.voxels.contains_key(position@),
            found matches Some(voxel) ==> {
                &&& voxel@ == old(self)@.voxels[position@]
                &&& final(self)@.voxels == old(self)@.voxels.insert(position@, final(voxel)@)
            },
            found is None ==> final(self)@.voxels == old(self)@.voxels,
            final(self)@.base_material == old(self)@.base_material,
    {
        let index = position.index();
        proof {
            VoxelCoordinates::lemma_scan_index(position@);
        }
        let found = grid_get_mut(&mut self.grid, index);
        found
    }

    /// Writes a voxel at the given coordinates, in place of the one that
    /// was there, if any.
    pub fn write_voxel(&mut self, position: &VoxelCoordinates, voxel: Voxel)
        ensures
            final(self)@.voxels == old(self)@.voxels.insert(position@, voxel@),
            final(self)@.base_material == old(self)@.base_material,
    {
        let index = position.index();
        self.grid.insert(index, voxel);
        proof {
            let target = position@;
            VoxelCoordinates::lemma_scan_index(target);
            assert forall|vec: TerrainVec|
                vec.within(0, VOXEL_MAX as int) && vec != target implies VoxelCoordinates::scan_index(
                vec,
            ) as u32 != index by {
                VoxelCoordinates::lemma_scan_index(vec);
            }
            assert(self@.voxels =~= old(self)@.voxels.insert(target, voxel@));
        }
    }

    /// The voxel of a cell, by its place in the written order.
    fn cell(&self, index: u32, base_voxel: &Voxel) -> (voxel: Voxel)
        requires
            index < CHUNK_VOLUME,
            base_voxel@ == VoxelView::full(self@.base_material),
        ensures
            voxel@ == self@.cells()[index as int],
    {
        proof {
            VoxelCoordinates::lemma_at_scan_index(index as int);
        }
        match self.grid.get(&index) {
            Some(voxel) => *voxel,
            None => *base_voxel,
        }
    }

    /// The encoded form of the chunk.
    pub fn encode(&self) -> (bytes: Vec<u8>)
        ensures
            bytes@ == self@.encoding(),
    {
        let mut data: Vec<u8> = Vec::with_capacity(512);
        let base_voxel = Voxel::full(self.base_material);
        let ghost cells = self@.cells();
        let mut run_length: u16 = 0;
        let mut run_voxel: Voxel = base_voxel;
        let mut index: u32 = 0;
        proof {
            assert(cells.skip(0) =~= cells);
            assert(data@ + runs_bytes(runs(cells)) =~= runs_bytes(runs(cells)));
        }
        while index < CHUNK_VOLUME
            invariant
                index <= CHUNK_VOLUME,
                run_length <= 0xFF,
                run_length <= index,
                cells == self@.cells(),
                base_voxel@ == VoxelView::full(self@.base_material),
                forall|i: int| index - run_length <= i < index ==> #[trigger] cells[i] == run_voxel@,
                data@ + runs_bytes(runs(cells.skip(index - run_length))) == runs_bytes(
                    runs(cells),
                ),
            decreases CHUNK_VOLUME - index,
        {
            let grabbed_voxel = self.cell(index, &base_voxel);
            if run_length == 0 {
                run_voxel = grabbed_voxel;
            }
            if grabbed_voxel.same(&run_voxel) {
                if run_length < 0xFF {
                    run_length = run_length + 1;
                } else {
                    let run = grabbed_voxel.encode_run_length(run_length + 1);
                    proof {
                        lemma_run_written(
                            cells,
                            data@,
                            index - run_length,
                            MAX_RUN as nat,
                            run_voxel@,
                        );
                    }
                    extend(&mut data, &run);
                    run_length = 0;
                }
            } else {
                let run = run_voxel.encode_run_length(run_length);
                proof {
                    lemma_run_written(
                        cells,
                        data@,
                        index - run_length,
                        run_length as nat,
                        run_voxel@,
                    );
                }
                extend(&mut data, &run);
                run_length = 1;
                run_voxel = grabbed_voxel;
            }
            index = index + 1;
        }
        if run_length > 0 {
            let run = run_voxel.encode_run_length(run_length);
            proof {
                lemma_run_written(
                    cells,
                    data@,
                    index - run_length,
                    run_length as nat,
                    run_voxel@,
                );
            }
            extend(&mut data, &run);
        }
        proof {
            assert(cells.skip(index as int) =~= Seq::<VoxelView>::empty());
            assert(data@ + Seq::<u8>::empty() =~= data@);
        }
        data
    }
}

impl Clone for Chunk {
    /// A chunk that holds the same voxels over the same base material.
    fn clone(&self) -> (chunk: Chunk)
        ensures
            chunk@ == self@,
    {
        let chunk = Chunk { grid: self.grid.clone(), base_material: self.base_material };
        assert(chunk@.voxels =~= self@.voxels);
        chunk
    }
}

impl Default for Chunk {
    /// An empty chunk: every cell full of air.
    fn default() -> (chunk: Chunk)
        ensures
            chunk@.voxels == Map::<TerrainVec, VoxelView>::empty(),
            chunk@.base_material == Material::Air,
    {
        Chunk::new()
    }
}

} // verus!
