//! The spatial hash grid: which particles lie near a given position.
//!
//! Every particle is filed under the key of the cell it is in. The grid keeps
//! one entry per particle, sorted by key, and for every key the place of its
//! first entry. A query walks the block of three by three cells around the
//! cell of a position and collects the particles filed under their keys.
//! Cells that are far apart can share a key, so the particles collected are
//! candidates: the query hands out those whose distance to the position is
//! small enough.

use vstd::prelude::*;
use vstd::relations::{sorted_by, total_ordering};
use vstd::seq_lib::*;
use crate::cell::{
    adjacent,
    cell_key,
    cell_of,
    is_within,
    key_of_coords,
    lemma_near_positions_share_a_block,
    within,
    world_pos_to_cell_pos,
    CellPos,
    WorldPos,
};
use crate::sort::{entry_le, sort_entries, sorted_entries};

verus! {

/// Marks a key under which no particle is filed.
pub const NO_ENTRY: usize = usize::MAX;

/// The entries of the particles in `cells`, in particle order: the index of
/// each particle with the key of its cell.
pub open spec fn entries_of(cells: Seq<CellPos>, table_size: int) -> Seq<(usize, usize)> {
    Seq::new(cells.len(), |i: int| (i as usize, cells[i].key_spec(table_size) as usize))
}

/// The particles of `cells` whose cell has the key `key`, lowest index first.
pub open spec fn bucket(cells: Seq<CellPos>, table_size: int, key: int) -> Seq<usize>
    decreases cells.len(),
{
    if cells.len() == 0 {
        Seq::empty()
    } else {
        let rest = bucket(cells.drop_last(), table_size, key);
        if cells.last().key_spec(table_size) == key {
            rest.push((cells.len() - 1) as usize)
        } else {
            rest
        }
    }
}

/// The key of one cell of the block around `center`. The nine cells are
/// numbered row by row, from the cell at `(-1, -1)` to the cell at `(1, 1)`.
pub open spec fn block_key(center: CellPos, slot: int, table_size: int) -> int {
    cell_key(center.x + slot % 3 - 1, center.y + slot / 3 - 1, table_size)
}

/// Whether the key of the block cell `slot` is also the key of a block
/// cell before it.
pub open spec fn key_seen(center: CellPos, slot: int, table_size: int) -> bool {
    exists|earlier: int|
        0 <= earlier < slot && #[trigger] block_key(center, earlier, table_size) == block_key(
            center,
            slot,
            table_size,
        )
}

/// The particles filed under the keys of the first `slots` cells of the
/// block around `center`, cell after cell. A cell whose key is the key of
/// a cell before it adds nothing: its particles are there already.
pub open spec fn candidates(
    cells: Seq<CellPos>,
    table_size: int,
    center: CellPos,
    slots: int,
) -> Seq<usize>
    decreases slots,
{
    if slots <= 0 {
        Seq::empty()
    } else if key_seen(center, slots - 1, table_size) {
        candidates(cells, table_size, center, slots - 1)
    } else {
        candidates(cells, table_size, center, slots - 1) + bucket(
            cells,
            table_size,
            block_key(center, slots - 1, table_size),
        )
    }
}

/// The candidates of a query around the cell `center`: the particles filed
/// under the keys of the nine cells of the block, cell after cell, each
/// particle once.
pub open spec fn block_candidates(cells: Seq<CellPos>, table_size: int, center: CellPos) -> Seq<usize> {
    candidates(cells, table_size, center, 9)
}

/// The cells of the positions `positions`, in their order.
pub open spec fn cells_of(positions: Seq<WorldPos>, cell_size: int) -> Seq<CellPos> {
    Seq::new(positions.len(), |i: int| cell_of(positions[i], cell_size))
}

/// What a query around `world_pos` hands out when the particles at
/// `positions` are filed: the candidates of the block around the cell of
/// `world_pos` that are no farther from `world_pos` than `radius`, in the
/// order of the candidates.
pub open spec fn neighbours(
    positions: Seq<WorldPos>,
    table_size: int,
    cell_size: int,
    world_pos: WorldPos,
    radius: int,
) -> Seq<usize> {
    block_candidates(
        cells_of(positions, cell_size),
        table_size,
        cell_of(world_pos, cell_size),
    ).filter(|other: usize| within(positions[other as int], world_pos, radius))
}

/// Every element of `s` is smaller than all elements behind it.
pub open spec fn ascending(s: Seq<usize>) -> bool {
    forall|i: int, j: int| 0 <= i < j < s.len() ==> #[trigger] s[i] < #[trigger] s[j]
}

/// What the place `start` recorded for `key` says of the sorted entries:
/// either no entry has the key, or `start` is the place of the first one.
pub open spec fn start_matches(lookup: Seq<(usize, usize)>, start: usize, key: int) -> bool {
    if start == NO_ENTRY {
        forall|j: int| 0 <= j < lookup.len() ==> (#[trigger] lookup[j]).1 != key
    } else {
        &&& start < lookup.len()
        &&& lookup[start as int].1 == key
        &&& start > 0 ==> lookup[start - 1].1 != key
    }
}

/// The two tables of a grid describe the particles in `cells`: the lookup
/// holds the entry of every particle once, sorted by key and then by
/// particle, so that the entries of one key are side by side; and the start
/// table, with one slot per key, holds for every key the place of its first
/// entry, or the mark that it has none.
#[verifier::opaque]
pub open spec fn tables_match(
    lookup: Seq<(usize, usize)>,
    start_indices: Seq<usize>,
    cells: Seq<CellPos>,
) -> bool {
    &&& cells.len() > 0 ==> start_indices.len() > 0
    &&& lookup.len() == cells.len()
    &&& sorted_entries(lookup)
    &&& lookup.to_multiset() == entries_of(cells, start_indices.len() as int).to_multiset()
    &&& forall|key: int|
        0 <= key < start_indices.len() ==> start_matches(lookup, #[trigger] start_indices[key], key)
}

/// The particle `particle` has an entry in `lookup`.
pub open spec fn has_entry(lookup: Seq<(usize, usize)>, particle: int) -> bool {
    exists|j: int| 0 <= j < lookup.len() && (#[trigger] lookup[j]).0 == particle
}

/// The particle indices of the entries of `lookup` from `start` up to `end`.
pub open spec fn run(lookup: Seq<(usize, usize)>, start: int, end: int) -> Seq<usize> {
    Seq::new((end - start) as nat, |t: int| lookup[start + t].0)
}

/// Tells whether `key` is among `keys`.
fn holds_key(keys: &Vec<usize>, key: usize) -> (held: bool)
    ensures
        held == exists|at: int| 0 <= at < keys.len() && keys[at] == key,
{
    let mut at: usize = 0;
    while at < keys.len()
        invariant
            at <= keys.len(),
            forall|before: int| 0 <= before < at ==> keys[before] != key,
        decreases keys.len() - at,
    {
        if keys[at] == key {
            return true;
        }
        at = at + 1;
    }
    false
}

/// The spatial hash grid of a particle ensemble.
pub struct SpatialHashGrid {
    /// The width of a cell.
    cell_size: i32,
    /// The positions of the particles as of the last rebuild.
    positions: Vec<WorldPos>,
    /// One entry per particle, `(particle index, cell key)`, sorted by key.
    spatial_lookup: Vec<(usize, usize)>,
    /// For every key the place of its first entry in the lookup.
    start_indices: Vec<usize>,
}

impl View for SpatialHashGrid {
    type V = Seq<WorldPos>;

    /// The positions under which the grid files the particles, in particle
    /// order.
    closed spec fn view(&self) -> Seq<WorldPos> {
        self.positions@
    }
}

impl SpatialHashGrid {
    /// The sorted entries.
    pub closed spec fn lookup(&self) -> Seq<(usize, usize)> {
        self.spatial_lookup@
    }

    /// The start table.
    pub closed spec fn starts(&self) -> Seq<usize> {
        self.start_indices@
    }

    /// The number of keys, fixed when the grid is made.
    pub closed spec fn spec_table_size(&self) -> usize {
        self.start_indices.len()
    }

    /// The width of a cell, fixed when the grid is made.
    pub closed spec fn spec_cell_size(&self) -> i32 {
        self.cell_size
    }

    /// The cells under which the grid files the particles.
    pub open spec fn cells(&self) -> Seq<CellPos> {
        cells_of(self@, self.cell_size() as int)
    }

    /// Cells have a width, and the tables describe the particles that the
    /// grid files.
    pub open spec fn wf(&self) -> bool {
        &&& self.cell_size() > 0
        &&& self.starts().len() == self.table_size()
        &&& tables_match(self.lookup(), self.starts(), self.cells())
    }

    /// Makes a grid with `table_size` keys and cells of the width
    /// `cell_size` that files no particle yet.
    pub fn new(table_size: usize, cell_size: i32) -> (grid: SpatialHashGrid)
        requires
            cell_size > 0,
        ensures
            grid.wf(),
            grid.table_size() == table_size,
            grid.cell_size() == cell_size,
            grid@ == Seq::<WorldPos>::empty(),
    {
        let mut start_indices: Vec<usize> = Vec::new();
        let mut k: usize = 0;
        while k < table_size
            invariant
                k <= table_size,
                start_indices.len() == k,
                forall|i: int| 0 <= i < k ==> start_indices[i] == NO_ENTRY,
            decreases table_size - k,
        {
            start_indices.push(NO_ENTRY);
            k = k + 1;
        }
        let grid = SpatialHashGrid {
            cell_size,
            positions: Vec::new(),
            spatial_lookup: Vec::new(),
            start_indices,
        };
        proof {
            reveal(tables_match);
            assert(entries_of(grid.cells(), table_size as int) =~= grid.lookup());
        }
        grid
    }

    /// The width of a cell.
    #[verifier::when_used_as_spec(spec_cell_size)]
    pub fn cell_size(&self) -> (width: i32)
        ensures
            width == self.spec_cell_size(),
    {
        self.cell_size
    }

    /// The number of keys.
    #[verifier::when_used_as_spec(spec_table_size)]
    pub fn table_size(&self) -> (n: usize)
        ensures
            n == self.spec_table_size(),
    {
        self.start_indices.len()
    }

    /// The sorted entries, `(particle index, cell key)`.
    pub fn spatial_lookup(&self) -> (entries: &Vec<(usize, usize)>)
        ensures
            entries@ == self.lookup(),
    {
        &self.spatial_lookup
    }

    /// The start table: for every key the place of its first entry in the
    /// lookup, or `NO_ENTRY`.
    pub fn start_indices(&self) -> (starts: &Vec<usize>)
        ensures
            starts@ == self.starts(),
    {
        &self.start_indices
    }

    /// A grid files no more particles than a vector can hold, and files
    /// particles only if it has keys to file them under.
    pub proof fn lemma_sizes(&self)
        requires
            self.wf(),
        ensures
            self@.len() == self.lookup().len(),
            self@.len() == self.cells().len(),
            self@.len() <= usize::MAX,
            self@.len() > 0 ==> self.table_size() > 0,
    {
        reveal(tables_match);
        assert(self.lookup().len() == self.spatial_lookup.len());
    }

    /// Files the particles anew: `positions` holds the position of every
    /// particle, in particle order. What the grid filed before is
    /// forgotten.
    pub fn update_spatial_lookup(&mut self, positions: &Vec<WorldPos>)
        requires
            old(self).wf(),
            positions.len() > 0 ==> old(self).table_size() > 0,
        ensures
            final(self).wf(),
            final(self)@ == positions@,
            final(self).table_size() == old(self).table_size(),
            final(self).cell_size() == old(self).cell_size(),
    {
        let table_size: usize = self.start_indices.len();
        let cell_size: i32 = self.cell_size;
        let count: usize = positions.len();
        let ghost cells = cells_of(positions@, cell_size as int);
        let mut filed: Vec<WorldPos> = Vec::new();
        let mut entries: Vec<(usize, usize)> = Vec::new();
        let mut i: usize = 0;
        while i < count
            invariant
                i <= count,
                count == positions.len(),
                count > 0 ==> table_size > 0,
                cell_size > 0,
                cells == cells_of(positions@, cell_size as int),
                filed@ == positions@.take(i as int),
                entries.len() == i,
                forall|j: int|
                    0 <= j < i ==> #[trigger] entries[j] == (
                        j as usize,
                        cells[j].key_spec(table_size as int) as usize,
                    ),
            decreases count - i,
        {
            let cell: CellPos = world_pos_to_cell_pos(positions[i], cell_size);
            let key: usize = cell.key(table_size);
            entries.push((i, key));
            filed.push(positions[i]);
            proof {
                assert(filed@ =~= positions@.take(i + 1));
            }
            i = i + 1;
        }
        proof {
            assert(filed@ =~= positions@);
            assert(entries@ =~= entries_of(cells, table_size as int));
        }
        let lookup: Vec<(usize, usize)> = sort_entries(&entries);
        proof {
            lemma_lookup_entries(lookup@, cells, table_size as int);
        }
        let mut k: usize = 0;
        while k < table_size
            invariant
                k <= table_size,
                table_size == self.start_indices.len(),
                self.cell_size == cell_size,
                forall|key: int| 0 <= key < k ==> self.start_indices[key] == NO_ENTRY,
            decreases table_size - k,
        {
            self.start_indices.set(k, NO_ENTRY);
            k = k + 1;
        }
        let mut at: usize = 0;
        while at < count
            invariant
                at <= count,
                count == lookup.len(),
                table_size == self.start_indices.len(),
                self.cell_size == cell_size,
                sorted_entries(lookup@),
                forall|j: int| 0 <= j < lookup.len() ==> (#[trigger] lookup[j]).1 < table_size,
                forall|key: int|
                    0 <= key < table_size ==> start_matches(
                        lookup@.take(at as int),
                        #[trigger] self.start_indices[key],
                        key,
                    ),
            decreases count - at,
        {
            let key: usize = lookup[at].1;
            let first: bool = at == 0 || lookup[at - 1].1 != key;
            let ghost before = self.start_indices@;
            if first {
                self.start_indices.set(key, at);
            }
            proof {
                let shorter = lookup@.take(at as int);
                let longer = lookup@.take(at + 1);
                assert forall|other: int| 0 <= other < table_size implies start_matches(
                    longer,
                    #[trigger] self.start_indices[other],
                    other,
                ) by {
                    assert(start_matches(shorter, before[other], other));
                    if other == key {
                        if first {
                            assert(longer[at as int] == lookup[at as int]);
                            if at > 0 {
                                assert(longer[at - 1] == lookup[at - 1]);
                            }
                        } else {
                            assert(shorter[at - 1] == lookup[at - 1]);
                            assert(before[other] != NO_ENTRY);
                            assert(longer[before[other] as int] == shorter[before[other] as int]);
                            if before[other] > 0 {
                                assert(longer[before[other] - 1] == shorter[before[other] - 1]);
                            }
                        }
                    } else {
                        if before[other] == NO_ENTRY {
                            assert forall|j: int| 0 <= j < longer.len() implies (
                            #[trigger] longer[j]).1 != other by {
                                if j < at {
                                    assert(shorter[j] == longer[j]);
                                }
                            }
                        } else {
                            assert(longer[before[other] as int] == shorter[before[other] as int]);
                            if before[other] > 0 {
                                assert(longer[before[other] - 1] == shorter[before[other] - 1]);
                            }
                        }
                    }
                }
            }
            at = at + 1;
        }
        proof {
            reveal(tables_match);
            assert(lookup@.take(count as int) =~= lookup@);
        }
        self.spatial_lookup = lookup;
        self.positions = filed;
    }

    /// Appends to `out` the particles filed under `key`.
    fn append_bucket(&self, key: usize, out: &mut Vec<usize>)
        requires
            self.wf(),
            key < self.table_size(),
        ensures
            final(out)@ == old(out)@ + bucket(self.cells(), self.table_size() as int, key as int),
    {
        let ghost cells = self.cells();
        let ghost table_size = self.start_indices.len() as int;
        proof {
            reveal(tables_match);
        }
        let start: usize = self.start_indices[key];
        let count: usize = self.spatial_lookup.len();
        if start == NO_ENTRY {
            proof {
                lemma_run_is_bucket(self.lookup(), cells, table_size, key as int, 0, 0);
                assert(run(self.lookup(), 0, 0) =~= Seq::<usize>::empty());
                assert(out@ =~= old(out)@ + bucket(cells, table_size, key as int));
            }
            return ;
        }
        let mut at: usize = start;
        while at < count && self.spatial_lookup[at].1 == key
            invariant
                start <= at <= count,
                count == self.spatial_lookup.len(),
                forall|j: int| start <= j < at ==> (#[trigger] self.spatial_lookup[j]).1 == key,
                out@ == old(out)@ + run(self.spatial_lookup@, start as int, at as int),
            decreases count - at,
        {
            let ghost before = out@;
            out.push(self.spatial_lookup[at].0);
            proof {
                assert(run(self.spatial_lookup@, start as int, at + 1) =~= run(
                    self.spatial_lookup@,
                    start as int,
                    at as int,
                ).push(self.spatial_lookup[at as int].0));
                assert(out@ =~= old(out)@ + run(self.spatial_lookup@, start as int, at + 1));
            }
            at = at + 1;
        }
        proof {
            lemma_run_bounds(self.lookup(), key as int, start as int, at as int);
            lemma_run_is_bucket(self.lookup(), cells, table_size, key as int, start as int, at as int);
        }
    }

    /// Collects the candidates of a query around the cell `center`: the
    /// particles filed under the keys of the nine cells around it, cell
    /// after cell and within a cell by ascending index. Every particle
    /// whose cell is one of the nine is among them, and none is there
    /// twice.
    pub fn get_candidates(&self, center: CellPos) -> (found: Vec<usize>)
        requires
            self.wf(),
        ensures
            found@ == block_candidates(self.cells(), self.table_size() as int, center),
            found@.no_duplicates(),
            forall|k: int| 0 <= k < found.len() ==> found[k] < self@.len(),
            forall|i: int|
                0 <= i < self@.len() && adjacent(self.cells()[i], center) ==> found@.contains(
                    i as usize,
                ),
    {
        let table_size: usize = self.start_indices.len();
        let mut found: Vec<usize> = Vec::new();
        proof {
            self.lemma_sizes();
            lemma_candidates_sound(self.cells(), table_size as int, center);
            lemma_candidates_complete(self.cells(), table_size as int, center);
            lemma_candidates_differ(self.cells(), table_size as int, center, 9);
        }
        if table_size == 0 {
            proof {
                lemma_no_particles_no_candidates(self.cells(), table_size as int, center, 9);
            }
            return found;
        }
        let mut keys: Vec<usize> = Vec::new();
        let mut slot: usize = 0;
        while slot < 9
            invariant
                slot <= 9,
                self.wf(),
                table_size == self.table_size(),
                table_size > 0,
                keys.len() == slot,
                forall|s: int|
                    0 <= s < slot ==> #[trigger] keys[s] == block_key(center, s, table_size as int),
                found@ == candidates(self.cells(), table_size as int, center, slot as int),
            decreases 9 - slot,
        {
            let dx: i64 = (slot % 3) as i64 - 1;
            let dy: i64 = (slot / 3) as i64 - 1;
            let key: usize = key_of_coords(center.x as i64 + dx, center.y as i64 + dy, table_size);
            let seen: bool = holds_key(&keys, key);
            proof {
                assert(key == block_key(center, slot as int, table_size as int));
                lemma_key_seen(keys@, center, slot as int, table_size as int);
            }
            if !seen {
                self.append_bucket(key, &mut found);
            }
            keys.push(key);
            slot = slot + 1;
        }
        proof {
            let all = block_candidates(self.cells(), table_size as int, center);
            assert forall|k: int| 0 <= k < found.len() implies found[k] < self@.len() by {
                assert(all[k] < self.cells().len());
            }
        }
        found
    }

    /// Finds the particles near `world_pos`: the candidates of the block
    /// around its cell that are no farther from it than `radius`, in the
    /// order of the candidates, each once. Where `radius` is no more than
    /// the width of a cell, these are all particles that are no farther
    /// from `world_pos` than `radius`: what a search through all particles
    /// finds.
    pub fn get_neighbours_by_pos(&self, world_pos: WorldPos, radius: i32) -> (found: Vec<usize>)
        requires
            self.wf(),
        ensures
            found@ == neighbours(
                self@,
                self.table_size() as int,
                self.cell_size() as int,
                world_pos,
                radius as int,
            ),
            found@.no_duplicates(),
            forall|k: int|
                0 <= k < found.len() ==> found[k] < self@.len() && within(
                    self@[found[k] as int],
                    world_pos,
                    radius as int,
                ),
            radius <= self.cell_size() ==> forall|i: int|
                0 <= i < self@.len() && within(self@[i], world_pos, radius as int)
                    ==> found@.contains(i as usize),
    {
        let center: CellPos = world_pos_to_cell_pos(world_pos, self.cell_size);
        let all: Vec<usize> = self.get_candidates(center);
        let ghost near = |other: usize| within(self@[other as int], world_pos, radius as int);
        let mut found: Vec<usize> = Vec::new();
        let mut at: usize = 0;
        proof {
            assert(all@.take(0) =~= Seq::<usize>::empty());
            reveal(Seq::filter);
        }
        while at < all.len()
            invariant
                at <= all.len(),
                forall|k: int| 0 <= k < all.len() ==> all[k] < self.positions.len(),
                near == |other: usize| within(self@[other as int], world_pos, radius as int),
                found@ == all@.take(at as int).filter(near),
            decreases all.len() - at,
        {
            let other: usize = all[at];
            proof {
                all@.take(at as int).lemma_filter_push(other, near);
                assert(all@.take(at + 1) =~= all@.take(at as int).push(other));
            }
            if is_within(self.positions[other], world_pos, radius) {
                found.push(other);
            }
            at = at + 1;
        }
        proof {
            assert(all@.take(at as int) =~= all@);
            self.lemma_sizes();
            lemma_neighbours_differ(
                self@,
                self.table_size() as int,
                self.cell_size() as int,
                world_pos,
                radius as int,
            );
            lemma_neighbours_members(
                self@,
                self.table_size() as int,
                self.cell_size() as int,
                world_pos,
                radius as int,
            );
            let handed_out = neighbours(
                self@,
                self.table_size() as int,
                self.cell_size() as int,
                world_pos,
                radius as int,
            );
            assert(found@ == handed_out);
            assert forall|k: int| 0 <= k < found.len() implies found[k] < self@.len() && within(
                self@[found[k] as int],
                world_pos,
                radius as int,
            ) by {
                assert(handed_out.contains(handed_out[k]));
            }
        }
        found
    }
}

/// The bucket of a key holds exactly the particles with that key, each once,
/// in ascending order.
pub proof fn lemma_bucket_members(cells: Seq<CellPos>, table_size: int, key: int)
    requires
        cells.len() <= usize::MAX,
    ensures
        ascending(bucket(cells, table_size, key)),
        forall|x: usize|
            bucket(cells, table_size, key).contains(x) <==> (x < cells.len() && cells[x as int].key_spec(
                table_size,
            ) == key),
    decreases cells.len(),
{
    let b = bucket(cells, table_size, key);
    if cells.len() == 0 {
        assert forall|x: usize| !b.contains(x) by {}
    } else {
        let front = cells.drop_last();
        let rest = bucket(front, table_size, key);
        let last: usize = (cells.len() - 1) as usize;
        lemma_bucket_members(front, table_size, key);
        assert forall|i: int| 0 <= i < rest.len() implies #[trigger] rest[i] < last by {
            assert(rest.contains(rest[i]));
        }
        if cells.last().key_spec(table_size) == key {
            assert(b == rest.push(last));
            assert forall|x: usize| b.contains(x) <==> (x < cells.len() && cells[x as int].key_spec(
                table_size,
            ) == key) by {
                if b.contains(x) {
                    let i = choose|i: int| 0 <= i < b.len() && b[i] == x;
                    if i < rest.len() {
                        assert(rest.contains(rest[i]));
                        assert(front[x as int] == cells[x as int]);
                    }
                }
                if x < cells.len() && cells[x as int].key_spec(table_size) == key {
                    if x == last {
                        assert(b[rest.len() as int] == x);
                    } else {
                        assert(front[x as int] == cells[x as int]);
                        assert(rest.contains(x));
                        let i = choose|i: int| 0 <= i < rest.len() && rest[i] == x;
                        assert(b[i] == x);
                    }
                }
            }
        } else {
            assert(b == rest);
            assert forall|x: usize| b.contains(x) <==> (x < cells.len() && cells[x as int].key_spec(
                table_size,
            ) == key) by {
                if x < cells.len() - 1 {
                    assert(front[x as int] == cells[x as int]);
                }
            }
        }
    }
}

/// Two ascending sequences with the same elements are the same sequence.
pub proof fn lemma_ascending_unique(a: Seq<usize>, b: Seq<usize>)
    requires
        ascending(a),
        ascending(b),
        forall|x: usize| a.contains(x) <==> b.contains(x),
    ensures
        a == b,
    decreases a.len(),
{
    if a.len() == 0 {
        if b.len() > 0 {
            assert(b.contains(b[0]));
        }
        assert(a =~= b);
    } else {
        assert(a.contains(a.last()));
        let jb = choose|j: int| 0 <= j < b.len() && b[j] == a.last();
        assert(b.contains(b.last()));
        let ja = choose|j: int| 0 <= j < a.len() && a[j] == b.last();
        assert(a.last() == b.last());
        let a0 = a.drop_last();
        let b0 = b.drop_last();
        assert forall|x: usize| a0.contains(x) <==> b0.contains(x) by {
            if a0.contains(x) {
                let i = choose|i: int| 0 <= i < a0.len() && a0[i] == x;
                assert(a[i] == x);
                assert(a.contains(x));
                let j = choose|j: int| 0 <= j < b.len() && b[j] == x;
                assert(b0[j] == x);
            }
            if b0.contains(x) {
                let i = choose|i: int| 0 <= i < b0.len() && b0[i] == x;
                assert(b[i] == x);
                assert(b.contains(x));
                let j = choose|j: int| 0 <= j < a.len() && a[j] == x;
                assert(a0[j] == x);
            }
        }
        lemma_ascending_unique(a0, b0);
        assert(a =~= a0.push(a.last()));
        assert(b =~= b0.push(b.last()));
    }
}

/// What follows for the single entries when a sorted lookup holds the
/// entries of `cells`: every entry is the entry of its particle, every
/// particle has one, and no two entries are of the same particle, so that
/// later entries have a larger key, or the same key and a larger particle.
pub proof fn lemma_lookup_entries(lookup: Seq<(usize, usize)>, cells: Seq<CellPos>, table_size: int)
    requires
        cells.len() <= usize::MAX,
        cells.len() > 0 ==> 0 < table_size <= usize::MAX,
        sorted_entries(lookup),
        lookup.to_multiset() == entries_of(cells, table_size).to_multiset(),
    ensures
        lookup.len() == cells.len(),
        forall|j: int|
            0 <= j < lookup.len() ==> (#[trigger] lookup[j]).0 < cells.len() && lookup[j].1
                == cells[lookup[j].0 as int].key_spec(table_size),
        forall|i: int| 0 <= i < cells.len() ==> has_entry(lookup, i),
        forall|i: int, j: int|
            0 <= i < j < lookup.len() ==> (#[trigger] lookup[i]).1 < (#[trigger] lookup[j]).1 || (
            lookup[i].1 == lookup[j].1 && lookup[i].0 < lookup[j].0),
{
    let entries = entries_of(cells, table_size);
    to_multiset_len(lookup);
    to_multiset_len(entries);
    assert forall|i: int| 0 <= i < cells.len() implies 0 <= #[trigger] cells[i].key_spec(table_size)
        < table_size by {
        crate::cell::lemma_cell_key_bounds(cells[i].x as int, cells[i].y as int, table_size);
    }
    assert forall|j: int| 0 <= j < lookup.len() implies (#[trigger] lookup[j]).0 < cells.len()
        && lookup[j].1 == cells[lookup[j].0 as int].key_spec(table_size) by {
        assert(lookup.contains(lookup[j]));
        to_multiset_contains(lookup, lookup[j]);
        to_multiset_contains(entries, lookup[j]);
        let i = choose|i: int| 0 <= i < entries.len() && entries[i] == lookup[j];
        assert(entries[i] == (i as usize, cells[i].key_spec(table_size) as usize));
    }
    assert forall|i: int| 0 <= i < cells.len() implies has_entry(lookup, i) by {
        assert(entries.contains(entries[i]));
        to_multiset_contains(entries, entries[i]);
        to_multiset_contains(lookup, entries[i]);
        let j = choose|j: int| 0 <= j < lookup.len() && lookup[j] == entries[i];
        assert(lookup[j].0 == i);
    }
    assert(entries.no_duplicates()) by {
        assert forall|i: int, j: int|
            0 <= i < entries.len() && 0 <= j < entries.len() && i != j implies entries[i]
            != entries[j] by {
            assert(entries[i].0 == i);
            assert(entries[j].0 == j);
        }
    }
    entries.lemma_multiset_has_no_duplicates();
    lookup.lemma_multiset_has_no_duplicates_conv();
    assert forall|i: int, j: int| 0 <= i < j < lookup.len() implies (#[trigger] lookup[i]).1 < (
    #[trigger] lookup[j]).1 || (lookup[i].1 == lookup[j].1 && lookup[i].0 < lookup[j].0) by {
        assert(entry_le(lookup[i], lookup[j]));
        assert(lookup[i] != lookup[j]);
    }
}

/// In a grid's lookup, the entries of one key stand side by side, and their
/// particles are the bucket of that key: where the entries from `start` up
/// to `end` have the key and no other entry has it, their particles are the
/// particles with that key, lowest index first.
pub proof fn lemma_run_is_bucket(
    lookup: Seq<(usize, usize)>,
    cells: Seq<CellPos>,
    table_size: int,
    key: int,
    start: int,
    end: int,
)
    requires
        cells.len() <= usize::MAX,
        cells.len() > 0 ==> 0 < table_size <= usize::MAX,
        sorted_entries(lookup),
        lookup.to_multiset() == entries_of(cells, table_size).to_multiset(),
        0 <= start <= end <= lookup.len(),
        forall|j: int| start <= j < end ==> (#[trigger] lookup[j]).1 == key,
        forall|j: int| 0 <= j < start ==> (#[trigger] lookup[j]).1 != key,
        forall|j: int| end <= j < lookup.len() ==> (#[trigger] lookup[j]).1 != key,
    ensures
        run(lookup, start, end) == bucket(cells, table_size, key),
{
    let r = run(lookup, start, end);
    let b = bucket(cells, table_size, key);
    lemma_lookup_entries(lookup, cells, table_size);
    lemma_bucket_members(cells, table_size, key);
    assert(ascending(r)) by {
        assert forall|i: int, j: int| 0 <= i < j < r.len() implies #[trigger] r[i] < #[trigger] r[j] by {
            assert(lookup[start + i].1 == key);
            assert(lookup[start + j].1 == key);
        }
    }
    assert forall|x: usize| r.contains(x) <==> b.contains(x) by {
        if r.contains(x) {
            let t = choose|t: int| 0 <= t < r.len() && r[t] == x;
            assert(lookup[start + t].1 == key);
        }
        if b.contains(x) {
            assert(has_entry(lookup, x as int));
            let j = choose|j: int| 0 <= j < lookup.len() && (#[trigger] lookup[j]).0 == x;
            assert(lookup[j].1 == key);
            assert(start <= j < end);
            assert(r[j - start] == x);
        }
    }
    lemma_ascending_unique(r, b);
}

/// In a sorted lookup, the entries of a key begin at its first entry and
/// none follows the first entry behind them that has another key.
pub proof fn lemma_run_bounds(lookup: Seq<(usize, usize)>, key: int, start: int, end: int)
    requires
        sorted_entries(lookup),
        0 <= start <= end <= lookup.len(),
        start < lookup.len(),
        lookup[start].1 == key,
        start > 0 ==> lookup[start - 1].1 != key,
        forall|j: int| start <= j < end ==> (#[trigger] lookup[j]).1 == key,
        end < lookup.len() ==> lookup[end].1 != key,
    ensures
        forall|j: int| 0 <= j < start ==> (#[trigger] lookup[j]).1 != key,
        forall|j: int| end <= j < lookup.len() ==> (#[trigger] lookup[j]).1 != key,
{
    assert forall|j: int| 0 <= j < start implies (#[trigger] lookup[j]).1 != key by {
        if j < start - 1 {
            assert(entry_le(lookup[j], lookup[start - 1]));
        }
        assert(entry_le(lookup[start - 1], lookup[start]));
    }
    assert forall|j: int| end <= j < lookup.len() implies (#[trigger] lookup[j]).1 != key by {
        if end < j {
            assert(entry_le(lookup[end], lookup[j]));
        }
        assert(entry_le(lookup[start], lookup[end]));
    }
}

/// Where no particle is filed, no query finds one.
pub proof fn lemma_no_particles_no_candidates(
    cells: Seq<CellPos>,
    table_size: int,
    center: CellPos,
    slots: int,
)
    requires
        cells.len() == 0,
    ensures
        candidates(cells, table_size, center, slots) == Seq::<usize>::empty(),
    decreases slots,
{
    if slots > 0 {
        lemma_no_particles_no_candidates(cells, table_size, center, slots - 1);
        assert(candidates(cells, table_size, center, slots) =~= Seq::<usize>::empty());
    }
}

/// The candidates of the first `slots` cells of a block are the members of
/// the buckets of these cells.
pub proof fn lemma_candidates_members(
    cells: Seq<CellPos>,
    table_size: int,
    center: CellPos,
    slots: int,
)
    ensures
        forall|x: usize|
            candidates(cells, table_size, center, slots).contains(x) <==> exists|slot: int|
                0 <= slot < slots && #[trigger] bucket(
                    cells,
                    table_size,
                    block_key(center, slot, table_size),
                ).contains(x),
    decreases slots,
{
    let all = candidates(cells, table_size, center, slots);
    if slots <= 0 {
        assert forall|x: usize| !all.contains(x) by {}
    } else {
        lemma_candidates_members(cells, table_size, center, slots - 1);
        let front = candidates(cells, table_size, center, slots - 1);
        let back = bucket(cells, table_size, block_key(center, slots - 1, table_size));
        let seen = key_seen(center, slots - 1, table_size);
        assert(all == if seen {
            front
        } else {
            front + back
        });
        assert forall|x: usize| all.contains(x) <==> exists|slot: int|
            0 <= slot < slots && #[trigger] bucket(
                cells,
                table_size,
                block_key(center, slot, table_size),
            ).contains(x) by {
            lemma_seq_concat_contains_all_elements(front, back, x);
            if all.contains(x) {
                if !seen && back.contains(x) {
                    assert(0 <= slots - 1 < slots && bucket(
                        cells,
                        table_size,
                        block_key(center, slots - 1, table_size),
                    ).contains(x));
                } else {
                    let slot = choose|slot: int|
                        0 <= slot < slots - 1 && #[trigger] bucket(
                            cells,
                            table_size,
                            block_key(center, slot, table_size),
                        ).contains(x);
                    assert(0 <= slot < slots);
                }
            }
            if exists|slot: int|
                0 <= slot < slots && #[trigger] bucket(
                    cells,
                    table_size,
                    block_key(center, slot, table_size),
                ).contains(x) {
                let slot = choose|slot: int|
                    0 <= slot < slots && #[trigger] bucket(
                        cells,
                        table_size,
                        block_key(center, slot, table_size),
                    ).contains(x);
                if slot < slots - 1 {
                    assert(front.contains(x));
                } else if seen {
                    let earlier = choose|earlier: int|
                        0 <= earlier < slots - 1 && #[trigger] block_key(
                            center,
                            earlier,
                            table_size,
                        ) == block_key(center, slots - 1, table_size);
                    assert(bucket(
                        cells,
                        table_size,
                        block_key(center, earlier, table_size),
                    ).contains(x));
                    assert(front.contains(x));
                }
            }
        }
    }
}

/// The key of a block cell is the key of a cell before it just when it is
/// among the keys of the cells before it.
pub proof fn lemma_key_seen(keys: Seq<usize>, center: CellPos, slot: int, table_size: int)
    requires
        keys.len() == slot,
        forall|s: int| 0 <= s < slot ==> #[trigger] keys[s] == block_key(center, s, table_size),
    ensures
        key_seen(center, slot, table_size) <==> exists|at: int|
            0 <= at < keys.len() && keys[at] == block_key(center, slot, table_size),
{
    if key_seen(center, slot, table_size) {
        let earlier = choose|earlier: int|
            0 <= earlier < slot && #[trigger] block_key(center, earlier, table_size) == block_key(
                center,
                slot,
                table_size,
            );
        assert(keys[earlier] == block_key(center, slot, table_size));
    }
    if exists|at: int| 0 <= at < keys.len() && keys[at] == block_key(center, slot, table_size) {
        let at = choose|at: int|
            0 <= at < keys.len() && keys[at] == block_key(center, slot, table_size);
        assert(block_key(center, at, table_size) == block_key(center, slot, table_size));
    }
}

/// No particle is among the candidates twice.
pub proof fn lemma_candidates_differ(
    cells: Seq<CellPos>,
    table_size: int,
    center: CellPos,
    slots: int,
)
    requires
        cells.len() <= usize::MAX,
    ensures
        candidates(cells, table_size, center, slots).no_duplicates(),
    decreases slots,
{
    if slots > 0 {
        lemma_candidates_differ(cells, table_size, center, slots - 1);
        if !key_seen(center, slots - 1, table_size) {
            let key = block_key(center, slots - 1, table_size);
            let front = candidates(cells, table_size, center, slots - 1);
            let back = bucket(cells, table_size, key);
            lemma_candidates_members(cells, table_size, center, slots - 1);
            lemma_bucket_members(cells, table_size, key);
            assert forall|i: int, j: int| 0 <= i < front.len() && 0 <= j < back.len() implies front[i]
                != back[j] by {
                assert(front.contains(front[i]));
                assert(back.contains(back[j]));
                let slot = choose|slot: int|
                    0 <= slot < slots - 1 && #[trigger] bucket(
                        cells,
                        table_size,
                        block_key(center, slot, table_size),
                    ).contains(front[i]);
                lemma_bucket_members(cells, table_size, block_key(center, slot, table_size));
                assert(block_key(center, slot, table_size) != key);
            }
            lemma_no_dup_in_concat(front, back);
        }
    }
}

/// What is kept of a sequence without repeats has no repeats.
pub proof fn lemma_filter_keeps_apart(items: Seq<usize>, keep: spec_fn(usize) -> bool)
    requires
        items.no_duplicates(),
    ensures
        items.filter(keep).no_duplicates(),
    decreases items.len(),
{
    reveal(Seq::filter);
    if items.len() > 0 {
        let front = items.drop_last();
        let last = items.last();
        lemma_filter_keeps_apart(front, keep);
        if keep(last) {
            let kept = front.filter(keep);
            assert forall|i: int| 0 <= i < kept.len() implies kept[i] != last by {
                assert(kept.contains(kept[i]));
                front.lemma_filter_contains_rev(keep, kept[i]);
                let at = choose|at: int| 0 <= at < front.len() && front[at] == kept[i];
                assert(items[at] == kept[i]);
            }
        }
    }
}

/// No particle is handed out twice.
pub proof fn lemma_neighbours_differ(
    positions: Seq<WorldPos>,
    table_size: int,
    cell_size: int,
    world_pos: WorldPos,
    radius: int,
)
    requires
        positions.len() <= usize::MAX,
    ensures
        neighbours(positions, table_size, cell_size, world_pos, radius).no_duplicates(),
{
    let cells = cells_of(positions, cell_size);
    let center = cell_of(world_pos, cell_size);
    lemma_candidates_differ(cells, table_size, center, 9);
    lemma_filter_keeps_apart(
        block_candidates(cells, table_size, center),
        |other: usize| within(positions[other as int], world_pos, radius),
    );
}

/// A query hands out particles of the grid only, and only particles whose
/// key is the key of one of the nine cells around the query cell.
pub proof fn lemma_candidates_sound(cells: Seq<CellPos>, table_size: int, center: CellPos)
    requires
        cells.len() <= usize::MAX,
    ensures
        forall|k: int|
            0 <= k < block_candidates(cells, table_size, center).len() ==> {
                let x = #[trigger] block_candidates(cells, table_size, center)[k];
                &&& x < cells.len()
                &&& exists|slot: int|
                    0 <= slot < 9 && cells[x as int].key_spec(table_size) == #[trigger] block_key(
                        center,
                        slot,
                        table_size,
                    )
            },
{
    let all = block_candidates(cells, table_size, center);
    lemma_candidates_members(cells, table_size, center, 9);
    assert forall|k: int| 0 <= k < all.len() implies {
        let x = #[trigger] all[k];
        &&& x < cells.len()
        &&& exists|slot: int|
            0 <= slot < 9 && cells[x as int].key_spec(table_size) == #[trigger] block_key(
                center,
                slot,
                table_size,
            )
    } by {
        let x = all[k];
        assert(all.contains(x));
        let slot = choose|slot: int|
            0 <= slot < 9 && #[trigger] bucket(
                cells,
                table_size,
                block_key(center, slot, table_size),
            ).contains(x);
        lemma_bucket_members(cells, table_size, block_key(center, slot, table_size));
    }
}

/// A query misses no particle of the block: every particle whose cell is
/// one of the nine cells around the query cell is handed out.
pub proof fn lemma_candidates_complete(cells: Seq<CellPos>, table_size: int, center: CellPos)
    requires
        cells.len() <= usize::MAX,
    ensures
        forall|i: int|
            0 <= i < cells.len() && adjacent(#[trigger] cells[i], center) ==> block_candidates(
                cells,
                table_size,
                center,
            ).contains(i as usize),
{
    lemma_candidates_members(cells, table_size, center, 9);
    assert forall|i: int| 0 <= i < cells.len() && adjacent(#[trigger] cells[i], center) implies block_candidates(
        cells,
        table_size,
        center,
    ).contains(i as usize) by {
        let slot = (cells[i].y - center.y + 1) * 3 + (cells[i].x - center.x + 1);
        assert(0 <= slot < 9);
        assert(slot % 3 == cells[i].x - center.x + 1);
        assert(slot / 3 == cells[i].y - center.y + 1);
        assert(block_key(center, slot, table_size) == cells[i].key_spec(table_size));
        lemma_bucket_members(cells, table_size, block_key(center, slot, table_size));
        assert(bucket(cells, table_size, block_key(center, slot, table_size)).contains(i as usize));
    }
}

/// The particles that a query hands out are particles of the grid that are
/// no farther from the position than the radius; and where the radius is no
/// more than the width of a cell, every such particle is handed out.
pub proof fn lemma_neighbours_members(
    positions: Seq<WorldPos>,
    table_size: int,
    cell_size: int,
    world_pos: WorldPos,
    radius: int,
)
    requires
        positions.len() <= usize::MAX,
    ensures
        forall|x: usize|
            neighbours(positions, table_size, cell_size, world_pos, radius).contains(x) ==> x
                < positions.len() && within(positions[x as int], world_pos, radius),
        radius <= cell_size ==> forall|i: int|
            0 <= i < positions.len() && within(positions[i], world_pos, radius) ==> neighbours(
                positions,
                table_size,
                cell_size,
                world_pos,
                radius,
            ).contains(i as usize),
{
    let cells = cells_of(positions, cell_size);
    let center = cell_of(world_pos, cell_size);
    let all = block_candidates(cells, table_size, center);
    let near = |other: usize| within(positions[other as int], world_pos, radius);
    let kept = all.filter(near);
    lemma_candidates_sound(cells, table_size, center);
    lemma_candidates_complete(cells, table_size, center);
    assert forall|x: usize| kept.contains(x) implies x < positions.len() && within(
        positions[x as int],
        world_pos,
        radius,
    ) by {
        let k = choose|k: int| 0 <= k < kept.len() && kept[k] == x;
        all.lemma_filter_pred(near, k);
        all.lemma_filter_contains_rev(near, x);
        let at = choose|at: int| 0 <= at < all.len() && all[at] == x;
        assert(all[at] < cells.len());
    }
    if radius <= cell_size {
        assert forall|i: int|
            0 <= i < positions.len() && within(positions[i], world_pos, radius) implies kept.contains(
            i as usize,
        ) by {
            lemma_near_positions_share_a_block(positions[i], world_pos, cell_size, radius);
            assert(adjacent(cells[i], center));
            assert(all.contains(i as usize));
            let at = choose|at: int| 0 <= at < all.len() && all[at] == i as usize;
            all.lemma_filter_contains(near, at);
        }
    }
}

/// A search through the grid finds what a search through all particles
/// finds: where the radius of a query is no more than the width of a cell,
/// the particles that the query hands out are, as a set, the particles
/// that are no farther from the position than the radius.
pub proof fn lemma_grid_search_is_brute_force_search(
    positions: Seq<WorldPos>,
    table_size: int,
    cell_size: int,
    world_pos: WorldPos,
    radius: int,
)
    requires
        positions.len() <= usize::MAX,
        radius <= cell_size,
    ensures
        neighbours(positions, table_size, cell_size, world_pos, radius).to_set() == Set::new(
            |i: usize| i < positions.len() && within(positions[i as int], world_pos, radius),
        ),
{
    lemma_neighbours_members(positions, table_size, cell_size, world_pos, radius);
    let found = neighbours(positions, table_size, cell_size, world_pos, radius);
    let scanned = Set::new(
        |i: usize| i < positions.len() && within(positions[i as int], world_pos, radius),
    );
    assert forall|x: usize| found.to_set().contains(x) <==> scanned.contains(x) by {
        if scanned.contains(x) {
            assert(found.contains((x as int) as usize));
        }
    }
    assert(found.to_set() =~= scanned);
}

/// A query around the position of a particle finds that particle, whatever
/// the radius, so long as it is not negative.
pub proof fn lemma_particle_finds_itself(
    positions: Seq<WorldPos>,
    table_size: int,
    cell_size: int,
    particle: int,
    radius: int,
)
    requires
        positions.len() <= usize::MAX,
        0 <= particle < positions.len(),
        0 <= radius,
    ensures
        neighbours(positions, table_size, cell_size, positions[particle], radius).contains(
            particle as usize,
        ),
{
    let cells = cells_of(positions, cell_size);
    let center = cell_of(positions[particle], cell_size);
    let all = block_candidates(cells, table_size, center);
    let near = |other: usize| within(positions[other as int], positions[particle], radius);
    lemma_candidates_complete(cells, table_size, center);
    assert(adjacent(cells[particle], center));
    assert(all.contains(particle as usize));
    let at = choose|at: int| 0 <= at < all.len() && all[at] == particle as usize;
    assert(within(positions[particle], positions[particle], radius)) by (nonlinear_arith)
        requires
            0 <= radius,
    ;
    all.lemma_filter_contains(near, at);
}

/// In a sorted lookup the entries of one key stand side by side: an entry
/// between two entries of a key has that key too.
pub proof fn lemma_same_key_side_by_side(lookup: Seq<(usize, usize)>, first: int, mid: int, last: int)
    requires
        sorted_entries(lookup),
        0 <= first <= mid <= last < lookup.len(),
        lookup[first].1 == lookup[last].1,
    ensures
        lookup[mid].1 == lookup[first].1,
{
    if first < mid {
        assert(entry_le(lookup[first], lookup[mid]));
    }
    if mid < last {
        assert(entry_le(lookup[mid], lookup[last]));
    }
}

/// The tables of a grid are determined by the cells of its particles and
/// the number of keys: two pairs of tables that describe the same particles
/// under as many keys are the same.
pub proof fn lemma_tables_determined(
    lookup: Seq<(usize, usize)>,
    start_indices: Seq<usize>,
    other_lookup: Seq<(usize, usize)>,
    other_start_indices: Seq<usize>,
    cells: Seq<CellPos>,
)
    requires
        tables_match(lookup, start_indices, cells),
        tables_match(other_lookup, other_start_indices, cells),
        start_indices.len() == other_start_indices.len(),
    ensures
        lookup == other_lookup,
        start_indices == other_start_indices,
{
    reveal(tables_match);
    let leq = |a: (usize, usize), b: (usize, usize)| entry_le(a, b);
    assert(total_ordering(leq));
    assert(sorted_by(lookup, leq)) by {
        assert forall|i: int, j: int| 0 <= i < j < lookup.len() implies #[trigger] leq(
            lookup[i],
            lookup[j],
        ) by {
            assert(entry_le(lookup[i], lookup[j]));
        }
    }
    assert(sorted_by(other_lookup, leq)) by {
        assert forall|i: int, j: int| 0 <= i < j < other_lookup.len() implies #[trigger] leq(
            other_lookup[i],
            other_lookup[j],
        ) by {
            assert(entry_le(other_lookup[i], other_lookup[j]));
        }
    }
    lemma_sorted_unique(lookup, other_lookup, leq);
    assert forall|key: int| 0 <= key < start_indices.len() implies start_indices[key]
        == other_start_indices[key] by {
        let start = start_indices[key];
        let other = other_start_indices[key];
        assert(start_matches(lookup, start, key));
        assert(start_matches(lookup, other, key));
        if start != NO_ENTRY && other != NO_ENTRY {
            if start < other {
                lemma_same_key_side_by_side(lookup, start as int, other - 1, other as int);
            }
            if other < start {
                lemma_same_key_side_by_side(lookup, other as int, start - 1, start as int);
            }
        }
    }
    assert(start_indices =~= other_start_indices);
}

} // verus!
