//! Spatial model: directions, integer block coordinates, and (further down)
//! chunks and the world grid.
//!
//! A block never knows its own position; the grid hands every operation a
//! `ChunkBlockMetadata` (absolute position plus facing), so the grid stays the
//! single source of spatial truth.

use vstd::prelude::*;
use crate::serialization::{
    enc_len, enc_trap, enc_u8, parse_len, parse_trap, parse_u8, try_read_i32, try_read_len,
    write_i32, write_len, Buffer, SerializationError, SerializationTrap,
};
use crate::serialization::{enc_i32, parse_i32};

verus! {

/// The four facings, in cyclic order North, East, South, West.
#[derive(Clone, Copy, Debug, PartialEq, Eq, Hash, Structural)]
pub enum Direction {
    North,
    East,
    South,
    West,
}

/// The byte a direction is stored as, and its index in the cycle.
pub open spec fn spec_dir_u8(d: Direction) -> u8 {
    match d {
        Direction::North => 0,
        Direction::East => 1,
        Direction::South => 2,
        Direction::West => 3,
    }
}

/// The direction a byte stands for, modulo four.
pub open spec fn spec_dir_from_u8(v: u8) -> Direction {
    if v % 4 == 0 {
        Direction::North
    } else if v % 4 == 1 {
        Direction::East
    } else if v % 4 == 2 {
        Direction::South
    } else {
        Direction::West
    }
}

/// One step around the cycle: right is clockwise.
pub open spec fn spec_next(d: Direction, right: bool) -> Direction {
    match d {
        Direction::North => if right { Direction::East } else { Direction::West },
        Direction::East => if right { Direction::South } else { Direction::North },
        Direction::South => if right { Direction::West } else { Direction::East },
        Direction::West => if right { Direction::North } else { Direction::South },
    }
}

/// The 180-degree rotation.
pub open spec fn spec_opposite(d: Direction) -> Direction {
    match d {
        Direction::North => Direction::South,
        Direction::South => Direction::North,
        Direction::West => Direction::East,
        Direction::East => Direction::West,
    }
}

/// Modulo-4 combination: rotates `a` by `b`. Used to rotate a relative side
/// into an absolute one, or to negate a side.
pub open spec fn spec_combine(a: Direction, b: Direction) -> Direction {
    spec_dir_from_u8((spec_dir_u8(a) + spec_dir_u8(b)) as u8)
}

impl Direction {
    pub fn to_u8(self) -> (r: u8)
        ensures
            r == spec_dir_u8(self),
    {
        match self {
            Direction::North => 0,
            Direction::East => 1,
            Direction::South => 2,
            Direction::West => 3,
        }
    }

    pub fn from_u8(value: u8) -> (r: Self)
        ensures
            r == spec_dir_from_u8(value),
    {
        match value % 4 {
            0 => Direction::North,
            1 => Direction::East,
            2 => Direction::South,
            _ => Direction::West,
        }
    }

    /// Rotate one step; right is clockwise.
    pub fn next(&self, right: bool) -> (r: Self)
        ensures
            r == spec_next(*self, right),
    {
        match self {
            Direction::North => if right { Direction::East } else { Direction::West },
            Direction::East => if right { Direction::South } else { Direction::North },
            Direction::South => if right { Direction::West } else { Direction::East },
            Direction::West => if right { Direction::North } else { Direction::South },
        }
    }

    pub fn opposite(&self) -> (r: Self)
        ensures
            r == spec_opposite(*self),
    {
        match self {
            Direction::North => Direction::South,
            Direction::South => Direction::North,
            Direction::West => Direction::East,
            Direction::East => Direction::West,
        }
    }

    /// Modulo-4 combination of two directions.
    pub fn combine(self, rhs: Self) -> (r: Self)
        ensures
            r == spec_combine(self, rhs),
    {
        Direction::from_u8(self.to_u8() + rhs.to_u8())
    }

    pub fn serialize(self, buf: &mut Vec<u8>)
        ensures
            final(buf)@ == old(buf)@ + enc_dir(self),
    {
        buf.push(self.to_u8());
        assert(buf@ =~= old(buf)@ + enc_dir(self));
    }

    pub fn try_deserialize(buf: &mut Buffer) -> (r: Result<Self, SerializationError>)
        requires
            old(buf).wf(),
        ensures
            final(buf).wf(),
            match parse_dir(old(buf).remaining()) {
                Some((d, rest)) => r == Ok::<Direction, SerializationError>(d)
                    && final(buf).remaining() == rest,
                None => r == Err::<Direction, SerializationError>(
                    SerializationError::NotEnoughSpace,
                ) && final(buf).remaining() == old(buf).remaining(),
            },
    {
        match buf.try_read_element() {
            Ok(b) => Ok(Direction::from_u8(b)),
            Err(e) => Err(e),
        }
    }

    pub fn required_length(self) -> (r: usize)
        ensures
            r == enc_dir(self).len(),
    {
        1
    }
}

impl Default for Direction {
    fn default() -> (r: Self)
        ensures
            r == Direction::North,
    {
        Direction::North
    }
}

/// A direction on the wire is its index byte.
pub open spec fn enc_dir(d: Direction) -> Seq<u8> {
    enc_u8(spec_dir_u8(d))
}

/// Any byte parses to a direction, modulo four.
pub open spec fn parse_dir(s: Seq<u8>) -> Option<(Direction, Seq<u8>)> {
    match parse_u8(s) {
        Some((b, rest)) => Some((spec_dir_from_u8(b), rest)),
        None => None,
    }
}

pub proof fn lemma_parse_dir_enc(d: Direction, rest: Seq<u8>)
    ensures
        parse_dir(enc_dir(d) + rest) == Some((d, rest)),
{
    let s = enc_dir(d) + rest;
    assert(s.skip(1) =~= rest);
}

/// Integer 2D world-space block coordinates.
#[derive(Clone, Copy, Debug, PartialEq, Eq, Hash, Structural)]
pub struct Vec2i {
    pub x: i32,
    pub y: i32,
}

/// The coordinates reached by walking `steps` along a facing. By the source
/// convention North is -y, South is +y, East is -x and West is +x: East and
/// West are inverted relative to naive intuition, and every caller relies on
/// that.
pub open spec fn spec_add_directional(p: Vec2i, d: Direction, steps: int) -> (int, int) {
    match d {
        Direction::North => (p.x as int, p.y - steps),
        Direction::South => (p.x as int, p.y + steps),
        Direction::East => (p.x - steps, p.y as int),
        Direction::West => (p.x + steps, p.y as int),
    }
}

impl Vec2i {
    pub fn new(x: i32, y: i32) -> (r: Self)
        ensures
            r == (Vec2i { x, y }),
    {
        Vec2i { x, y }
    }

    /// Walk `steps` along a facing (North -y, South +y, East -x, West +x).
    pub fn add_directional(&self, direction: &Direction, steps: i32) -> (r: Vec2i)
        requires
            i32::MIN <= spec_add_directional(*self, *direction, steps as int).0 <= i32::MAX,
            i32::MIN <= spec_add_directional(*self, *direction, steps as int).1 <= i32::MAX,
        ensures
            r.x == spec_add_directional(*self, *direction, steps as int).0,
            r.y == spec_add_directional(*self, *direction, steps as int).1,
    {
        match direction {
            Direction::North => Vec2i { x: self.x, y: self.y - steps },
            Direction::South => Vec2i { x: self.x, y: self.y + steps },
            Direction::East => Vec2i { x: self.x - steps, y: self.y },
            Direction::West => Vec2i { x: self.x + steps, y: self.y },
        }
    }

    /// In-place form of `add_directional`.
    pub fn add_directional_assign(&mut self, direction: &Direction, steps: i32)
        requires
            i32::MIN <= spec_add_directional(*old(self), *direction, steps as int).0 <= i32::MAX,
            i32::MIN <= spec_add_directional(*old(self), *direction, steps as int).1 <= i32::MAX,
        ensures
            final(self).x == spec_add_directional(*old(self), *direction, steps as int).0,
            final(self).y == spec_add_directional(*old(self), *direction, steps as int).1,
    {
        match direction {
            Direction::North => {
                self.y = self.y - steps;
            },
            Direction::South => {
                self.y = self.y + steps;
            },
            Direction::East => {
                self.x = self.x - steps;
            },
            Direction::West => {
                self.x = self.x + steps;
            },
        }
    }

    pub fn serialize(self, buf: &mut Vec<u8>)
        ensures
            final(buf)@ == old(buf)@ + enc_vec2i(self),
    {
        SerializationTrap::Vec.serialize(buf);
        write_len(buf, 2);
        write_i32(buf, self.x);
        write_i32(buf, self.y);
        proof {
            assert(buf@ =~= old(buf)@ + enc_vec2i(self));
        }
    }

    pub fn try_deserialize(buf: &mut Buffer) -> (r: Result<Self, SerializationError>)
        requires
            old(buf).wf(),
        ensures
            final(buf).wf(),
            match parse_vec2i(old(buf).remaining()) {
                Some((v, rest)) => r == Ok::<Vec2i, SerializationError>(v)
                    && final(buf).remaining() == rest,
                None => r is Err,
            },
    {
        match SerializationTrap::Vec.try_deserialize(buf) {
            Err(e) => {
                return Err(e);
            },
            Ok(()) => {},
        }
        let len = match try_read_len(buf) {
            Err(e) => {
                return Err(e);
            },
            Ok(v) => v,
        };
        if len != 2 {
            return Err(SerializationError::InvalidData);
        }
        let x = match try_read_i32(buf) {
            Err(e) => {
                return Err(e);
            },
            Ok(v) => v,
        };
        let y = match try_read_i32(buf) {
            Err(e) => {
                return Err(e);
            },
            Ok(v) => v,
        };
        Ok(Vec2i { x, y })
    }

    pub fn required_length(self) -> (r: usize)
        ensures
            r == enc_vec2i(self).len(),
    {
        proof {
            crate::serialization::lemma_le_bytes_len(2, 8);
            crate::serialization::lemma_le_bytes_len(
                crate::serialization::u32_of_i32(self.x),
                4,
            );
            crate::serialization::lemma_le_bytes_len(
                crate::serialization::u32_of_i32(self.y),
                4,
            );
        }
        17
    }
}

/// A pair of coordinates on the wire: a vector trap, the length two, then the
/// two signed components.
pub open spec fn enc_vec2i(v: Vec2i) -> Seq<u8> {
    enc_trap(SerializationTrap::Vec) + enc_len(2) + enc_i32(v.x) + enc_i32(v.y)
}

pub open spec fn parse_vec2i(s: Seq<u8>) -> Option<(Vec2i, Seq<u8>)> {
    match parse_trap(s, SerializationTrap::Vec) {
        None => None,
        Some(s1) => match parse_len(s1) {
            None => None,
            Some((n, s2)) => if n != 2 {
                None
            } else {
                match parse_i32(s2) {
                    None => None,
                    Some((x, s3)) => match parse_i32(s3) {
                        None => None,
                        Some((y, s4)) => Some((Vec2i { x, y }, s4)),
                    },
                }
            },
        },
    }
}

pub proof fn lemma_parse_vec2i_enc(v: Vec2i, rest: Seq<u8>)
    ensures
        parse_vec2i(enc_vec2i(v) + rest) == Some((v, rest)),
{
    let s = enc_vec2i(v) + rest;
    let s1 = enc_len(2) + enc_i32(v.x) + enc_i32(v.y) + rest;
    assert(s.skip(1) =~= s1);
    assert(s1 =~= enc_len(2) + (enc_i32(v.x) + enc_i32(v.y) + rest));
    crate::serialization::lemma_parse_len_enc(2, enc_i32(v.x) + enc_i32(v.y) + rest);
    assert(enc_i32(v.x) + enc_i32(v.y) + rest =~= enc_i32(v.x) + (enc_i32(v.y) + rest));
    crate::serialization::lemma_parse_i32_enc(v.x, enc_i32(v.y) + rest);
    crate::serialization::lemma_parse_i32_enc(v.y, rest);
}

/// What every block operation is handed: its absolute position and facing.
#[derive(Clone, Copy, Debug, PartialEq, Eq, Structural)]
pub struct ChunkBlockMetadata {
    pub position: Vec2i,
    pub direction: Direction,
}

impl ChunkBlockMetadata {
    pub fn new(direction: Direction, position: Vec2i) -> (r: Self)
        ensures
            r == (ChunkBlockMetadata { position, direction }),
    {
        ChunkBlockMetadata { position, direction }
    }

    /// Metadata with only a facing, at the origin.
    pub fn from_direction(direction: Direction) -> (r: Self)
        ensures
            r == (ChunkBlockMetadata { position: Vec2i { x: 0, y: 0 }, direction }),
    {
        ChunkBlockMetadata { position: Vec2i { x: 0, y: 0 }, direction }
    }
}


/// Blocks per chunk along x.
pub const BLOCKS_PER_CHUNK_X: u32 = 32;

/// Blocks per chunk along y.
pub const BLOCKS_PER_CHUNK_Y: u32 = 32;

/// The chunk coordinate a block coordinate falls in: floor division by the
/// chunk size, so negative coordinates resolve into the previous chunk.
pub open spec fn spec_chunk_coord(v: int) -> int {
    v / 32
}

/// The cell offset within its chunk: always in 0..32, negative coordinates
/// included.
pub open spec fn spec_chunk_offset(v: int) -> int {
    v % 32
}

/// Floor-divide a block coordinate by the chunk size. Returns the chunk
/// coordinate and the in-chunk offset; the "borrow" correction for negative
/// coordinates is applied here, once, for every caller.
pub fn chunk_coord_of(v: i32) -> (r: (i32, u32))
    ensures
        r.0 == spec_chunk_coord(v as int),
        r.1 == spec_chunk_offset(v as int),
        32 * r.0 + r.1 == v,
        r.1 < 32,
{
    let q: i64;
    let m: i64;
    if v >= 0 {
        let u = v as u32;
        q = (u / 32) as i64;
        m = (u % 32) as i64;
    } else {
        let neg = -(v as i64);
        let qm = (neg + 31) / 32;
        q = -qm;
        m = (v as i64) - q * 32;
    }
    proof {
        assert(32 * q + m == v);
        assert(0 <= m < 32);
        vstd::arithmetic::div_mod::lemma_fundamental_div_mod(v as int, 32);
        assert(v as int == 32 * (v as int / 32) + (v as int % 32));
        vstd::arithmetic::div_mod::lemma_mod_bound(v as int, 32);
        assert(0 <= (v as int % 32) < 32);
        assert(32 * (q - v as int / 32) == (v as int % 32) - m);
        assert(q == v as int / 32);
    }
    (q as i32, m as u32)
}

/// One grid cell: the block and the metadata (absolute position, facing)
/// handed to its every operation.
pub struct ChunkBlock {
    pub inner: crate::blocks::Block,
    pub data: ChunkBlockMetadata,
}

impl ChunkBlock {
    pub fn new(
        inner: crate::blocks::Block,
        pos_x: i32,
        pos_y: i32,
        direction: Direction,
    ) -> (r: Self)
        ensures
            r.inner@ == inner@,
            r.data == (ChunkBlockMetadata { position: Vec2i { x: pos_x, y: pos_y }, direction }),
    {
        ChunkBlock {
            inner,
            data: ChunkBlockMetadata { position: Vec2i { x: pos_x, y: pos_y }, direction },
        }
    }

    /// Run the block's placement initialisation with this cell's metadata.
    pub fn init(&mut self)
        ensures
            final(self).data == old(self).data,
            final(self).inner@ == crate::blocks::spec_init(old(self).inner@),
            final(self).inner.wf(),
    {
        let data = self.data;
        self.inner.init(data);
    }
}

/// A fixed 32 x 32 region of cells: the unit of spatial storage and of
/// serialization. Cells are stored row-major by their in-chunk offset.
pub struct Chunk {
    pub blocks: Vec<ChunkBlock>,
    pub chunk_x: i32,
    pub chunk_y: i32,
}

/// The largest magnitude a chunk coordinate may have (so that block
/// coordinates stay within `i32`).
pub const CHUNK_COORD_LIMIT: i32 = 0x0200_0000;

impl Chunk {
    /// Structural invariant: exactly 1024 cells, each cell's stored position
    /// agreeing with its index, so the grid is the single source of spatial
    /// truth.
    pub open spec fn wf(self) -> bool {
        &&& -CHUNK_COORD_LIMIT <= self.chunk_x < CHUNK_COORD_LIMIT
        &&& -CHUNK_COORD_LIMIT <= self.chunk_y < CHUNK_COORD_LIMIT
        &&& self.blocks@.len() == 1024
        &&& forall|i: int| 0 <= i < 1024 ==> (#[trigger] self.blocks@[i]).data.position.x == 32
            * self.chunk_x + (i % 32)
        &&& forall|i: int| 0 <= i < 1024 ==> (#[trigger] self.blocks@[i]).data.position.y == 32
            * self.chunk_y + (i / 32)
    }

    /// A fresh chunk, every cell an empty block facing North.
    pub fn new(chunk_x: i32, chunk_y: i32) -> (r: Self)
        requires
            -CHUNK_COORD_LIMIT <= chunk_x < CHUNK_COORD_LIMIT,
            -CHUNK_COORD_LIMIT <= chunk_y < CHUNK_COORD_LIMIT,
        ensures
            r.wf(),
            r.chunk_x == chunk_x,
            r.chunk_y == chunk_y,
            forall|i: int| 0 <= i < 1024 ==> (#[trigger] r.blocks@[i]).inner@ is Empty
                && r.blocks@[i].data.direction == Direction::North,
    {
        let mut blocks: Vec<ChunkBlock> = Vec::new();
        let mut i: usize = 0;
        while i < 1024
            invariant
                i <= 1024,
                blocks@.len() == i,
                -CHUNK_COORD_LIMIT <= chunk_x < CHUNK_COORD_LIMIT,
                -CHUNK_COORD_LIMIT <= chunk_y < CHUNK_COORD_LIMIT,
                forall|j: int| 0 <= j < i ==> (#[trigger] blocks@[j]).inner@ is Empty
                    && blocks@[j].data.direction == Direction::North,
                forall|j: int| 0 <= j < i ==> (#[trigger] blocks@[j]).data.position.x == 32
                    * chunk_x + (j % 32),
                forall|j: int| 0 <= j < i ==> (#[trigger] blocks@[j]).data.position.y == 32
                    * chunk_y + (j / 32),
            decreases 1024 - i,
        {
            let off_x = (i as u32) % 32;
            let off_y = (i as u32) / 32;
            let pos_x = chunk_x * 32 + off_x as i32;
            let pos_y = chunk_y * 32 + off_y as i32;
            blocks.push(
                ChunkBlock::new(crate::blocks::Block::Empty, pos_x, pos_y, Direction::North),
            );
            i = i + 1;
        }
        Chunk { blocks, chunk_x, chunk_y }
    }

    /// The cell index of absolute block coordinates that fall in this chunk.
    pub open spec fn spec_cell_index(x: int, y: int) -> int {
        spec_chunk_offset(y) * 32 + spec_chunk_offset(x)
    }

    /// The cell addressed by absolute coordinates `(x, y)`, by their in-chunk
    /// offsets alone (position modulo chunk size, with the negative-coordinate
    /// wraparound correction): defined for any coordinates, whichever chunk
    /// they nominally fall in.
    pub fn get_block_at(&self, x: i32, y: i32) -> (r: &ChunkBlock)
        requires
            self.wf(),
        ensures
            *r == self.blocks@[Chunk::spec_cell_index(x as int, y as int)],
    {
        let (_, off_x) = chunk_coord_of(x);
        let (_, off_y) = chunk_coord_of(y);
        &self.blocks[(off_y * 32 + off_x) as usize]
    }

    /// Replace the cell holding `(x, y)` with a new block facing `dir`,
    /// running its placement initialisation.
    pub fn set_block_at(
        &mut self,
        x: i32,
        y: i32,
        new_block: crate::blocks::Block,
        dir: Direction,
    )
        requires
            old(self).wf(),
            spec_chunk_coord(x as int) == old(self).chunk_x,
            spec_chunk_coord(y as int) == old(self).chunk_y,
        ensures
            final(self).wf(),
            final(self).chunk_x == old(self).chunk_x,
            final(self).chunk_y == old(self).chunk_y,
            final(self).blocks@ == old(self).blocks@.update(
                Chunk::spec_cell_index(x as int, y as int),
                final(self).blocks@[Chunk::spec_cell_index(x as int, y as int)],
            ),
            final(self).blocks@[Chunk::spec_cell_index(x as int, y as int)].data == (
            ChunkBlockMetadata { position: Vec2i { x, y }, direction: dir }),
            final(self).blocks@[Chunk::spec_cell_index(x as int, y as int)].inner@
                == crate::blocks::spec_init(new_block@),
            final(self).blocks@[Chunk::spec_cell_index(x as int, y as int)].inner.wf(),
    {
        let (_, off_x) = chunk_coord_of(x);
        let (_, off_y) = chunk_coord_of(y);
        let idx = (off_y * 32 + off_x) as usize;
        let mut cb = ChunkBlock::new(new_block, x, y, dir);
        cb.init();
        proof {
            assert(32 * self.chunk_x <= x < 32 * self.chunk_x + 32) by {
                vstd::arithmetic::div_mod::lemma_fundamental_div_mod(x as int, 32);
                vstd::arithmetic::div_mod::lemma_mod_bound(x as int, 32);
            }
        }
        self.blocks.set(idx, cb);
        proof {
            assert(final(self).blocks@ =~= old(self).blocks@.update(
                Chunk::spec_cell_index(x as int, y as int),
                final(self).blocks@[Chunk::spec_cell_index(x as int, y as int)],
            ));
        }
    }
}


/// The world: the loaded rectangle of chunks. Chunk `(cx, cy)` lives at index
/// `(cx - startx) + (cy - starty) * w`, so the serialization order is derived
/// deterministically from coordinates and never from iteration order.
pub struct World {
    pub chunks: Vec<Chunk>,
    pub w: u32,
    pub h: u32,
    pub startx: i32,
    pub starty: i32,
}

/// The largest world edge length, in chunks.
pub const WORLD_DIM_LIMIT: u32 = 32768;

impl World {
    /// Structural invariant: the loaded chunk count always equals `w * h`,
    /// and the chunk at each index carries exactly the coordinates the index
    /// stands for.
    pub open spec fn wf(self) -> bool {
        &&& 1 <= self.w <= WORLD_DIM_LIMIT
        &&& 1 <= self.h <= WORLD_DIM_LIMIT
        &&& self.chunks@.len() == self.w * self.h
        &&& -CHUNK_COORD_LIMIT <= self.startx
        &&& self.startx + self.w < CHUNK_COORD_LIMIT
        &&& -CHUNK_COORD_LIMIT <= self.starty
        &&& self.starty + self.h < CHUNK_COORD_LIMIT
        &&& forall|i: int| 0 <= i < self.chunks@.len() ==> (#[trigger] self.chunks@[i]).wf()
        &&& forall|i: int| 0 <= i < self.chunks@.len() ==> (#[trigger] self.chunks@[i]).chunk_x
            == self.startx + (i % (self.w as int))
        &&& forall|i: int| 0 <= i < self.chunks@.len() ==> (#[trigger] self.chunks@[i]).chunk_y
            == self.starty + (i / (self.w as int))
    }

    /// Whether a chunk coordinate pair is within the loaded rectangle.
    pub open spec fn spec_chunk_in_bounds(self, cx: int, cy: int) -> bool {
        self.startx <= cx < self.startx + self.w && self.starty <= cy < self.starty + self.h
    }

    /// The index of a loaded chunk coordinate pair.
    pub open spec fn spec_chunk_index(self, cx: int, cy: int) -> int {
        (cx - self.startx) + (cy - self.starty) * (self.w as int)
    }

    /// Whether block coordinates fall in a loaded chunk.
    pub open spec fn spec_pos_loaded(self, x: int, y: int) -> bool {
        self.spec_chunk_in_bounds(spec_chunk_coord(x), spec_chunk_coord(y))
    }

    /// The cell at block coordinates (meaningful under `spec_pos_loaded`).
    pub open spec fn spec_cell(self, x: int, y: int) -> ChunkBlock {
        self.chunks@[self.spec_chunk_index(spec_chunk_coord(x), spec_chunk_coord(y))].blocks@[
            Chunk::spec_cell_index(x, y)
        ]
    }

    pub proof fn lemma_chunk_index_in_range(self, cx: int, cy: int)
        requires
            self.wf(),
            self.spec_chunk_in_bounds(cx, cy),
        ensures
            0 <= self.spec_chunk_index(cx, cy) < self.chunks@.len(),
            self.chunks@[self.spec_chunk_index(cx, cy)].chunk_x == cx,
            self.chunks@[self.spec_chunk_index(cx, cy)].chunk_y == cy,
    {
        let i = self.spec_chunk_index(cx, cy);
        let wd = self.w as int;
        let a = cx - self.startx;
        let b = cy - self.starty;
        assert(0 <= a < wd);
        assert(0 <= b < self.h);
        assert(i == a + b * wd);
        assert(i < wd * (self.h as int)) by (nonlinear_arith)
            requires
                0 <= a < wd,
                0 <= b < self.h as int,
                i == a + b * wd,
        {
        }
        assert(i % wd == a && i / wd == b) by (nonlinear_arith)
            requires
                0 <= a < wd,
                0 <= b,
                i == a + b * wd,
        {
        }
    }

    /// The vector index of a loaded chunk coordinate pair.
    fn chunk_index(&self, cx: i32, cy: i32) -> (r: usize)
        requires
            self.wf(),
            self.spec_chunk_in_bounds(cx as int, cy as int),
        ensures
            r == self.spec_chunk_index(cx as int, cy as int),
            r < self.chunks@.len(),
            self.chunks@[r as int].chunk_x == cx,
            self.chunks@[r as int].chunk_y == cy,
    {
        proof {
            self.lemma_chunk_index_in_range(cx as int, cy as int);
            assert(((cy - self.starty) as int) * (self.w as int) <= 32768 * 32768)
                by (nonlinear_arith)
                requires
                    0 <= (cy - self.starty) as int <= 32768,
                    0 < self.w as int <= 32768,
            {
            }
        }
        let dx = (cx as i64) - (self.startx as i64);
        let dy = (cy as i64) - (self.starty as i64);
        (dx + dy * (self.w as i64)) as usize
    }

    /// A fresh world of `w` by `h` chunks, centred near the origin and
    /// back-filled with empty chunks.
    pub fn new(w: u32, h: u32) -> (r: Self)
        requires
            1 <= w <= WORLD_DIM_LIMIT,
            1 <= h <= WORLD_DIM_LIMIT,
        ensures
            r.wf(),
            r.w == w,
            r.h == h,
            r.startx == -((w / 2) as i32),
            r.starty == -((h / 2) as i32),
            forall|i: int, j: int| 0 <= i < r.chunks@.len() && 0 <= j < 1024
                ==> (#[trigger] r.chunks@[i].blocks@[j]).inner@ is Empty
                    && r.chunks@[i].blocks@[j].data.direction == Direction::North,
    {
        let off_x = -((w / 2) as i32);
        let off_y = -((h / 2) as i32);
        proof {
            assert((w as int) * (h as int) <= 32768 * 32768) by (nonlinear_arith)
                requires
                    1 <= w as int <= 32768,
                    1 <= h as int <= 32768,
            {
            }
        }
        let total = (w as usize) * (h as usize);
        let mut chunks: Vec<Chunk> = Vec::new();
        let mut i: usize = 0;
        while i < total
            invariant
                i <= total,
                total == w * h,
                1 <= w <= WORLD_DIM_LIMIT,
                1 <= h <= WORLD_DIM_LIMIT,
                off_x == -((w / 2) as i32),
                off_y == -((h / 2) as i32),
                chunks@.len() == i,
                forall|j: int| 0 <= j < i ==> (#[trigger] chunks@[j]).wf(),
                forall|j: int| 0 <= j < i ==> (#[trigger] chunks@[j]).chunk_x == off_x + (j % (
                w as int)),
                forall|j: int| 0 <= j < i ==> (#[trigger] chunks@[j]).chunk_y == off_y + (j / (
                w as int)),
                forall|j: int, k: int| 0 <= j < i && 0 <= k < 1024
                    ==> (#[trigger] chunks@[j].blocks@[k]).inner@ is Empty
                        && chunks@[j].blocks@[k].data.direction == Direction::North,
            decreases total - i,
        {
            proof {
                vstd::arithmetic::div_mod::lemma_mod_bound(i as int, w as int);
                vstd::arithmetic::div_mod::lemma_multiply_divide_lt(
                    i as int,
                    w as int,
                    h as int,
                );
                assert((w as int) * (h as int) == (h as int) * (w as int)) by (nonlinear_arith);
            }
            let cx_off = (i as u64 % w as u64) as u32;
            let cy_off = (i as u64 / w as u64) as u32;
            let cx = off_x + cx_off as i32;
            let cy = off_y + cy_off as i32;
            let c = Chunk::new(cx, cy);
            chunks.push(c);
            i = i + 1;
        }
        World { chunks, w, h, startx: off_x, starty: off_y }
    }

    /// Read access to the block and metadata at absolute coordinates; `None`
    /// outside the loaded rectangle ("no such block", never a panic).
    pub fn get_block_at(&self, x: i32, y: i32) -> (r: Option<(&crate::blocks::Block, ChunkBlockMetadata)>)
        requires
            self.wf(),
        ensures
            match r {
                Some(p) => self.spec_pos_loaded(x as int, y as int) && *p.0 == self.spec_cell(
                    x as int,
                    y as int,
                ).inner && p.1 == self.spec_cell(x as int, y as int).data,
                None => !self.spec_pos_loaded(x as int, y as int),
            },
    {
        let (cx, _) = chunk_coord_of(x);
        let (cy, _) = chunk_coord_of(y);
        if cx < self.startx || cy < self.starty {
            return None;
        }
        let dx = (cx as i64) - (self.startx as i64);
        let dy = (cy as i64) - (self.starty as i64);
        if dx >= self.w as i64 || dy >= self.h as i64 {
            return None;
        }
        let idx = self.chunk_index(cx, cy);
        let chunk = &self.chunks[idx];
        let cb = chunk.get_block_at(x, y);
        Some((&cb.inner, cb.data))
    }

    /// Place a block at absolute coordinates, facing `dir`; its placement
    /// initialisation runs before it takes part in any update. False (and no
    /// change) outside the loaded rectangle.
    pub fn set_block_at(&mut self, x: i32, y: i32, block: crate::blocks::Block, dir: Direction) -> (r: bool)
        requires
            old(self).wf(),
        ensures
            final(self).wf(),
            old(self).blocks_wf() ==> final(self).blocks_wf(),
            final(self).w == old(self).w,
            final(self).h == old(self).h,
            final(self).startx == old(self).startx,
            final(self).starty == old(self).starty,
            if old(self).spec_pos_loaded(x as int, y as int) {
                r && final(self).spec_cell(x as int, y as int).inner@ == crate::blocks::spec_init(
                    block@,
                ) && final(self).spec_cell(x as int, y as int).data == (ChunkBlockMetadata {
                    position: Vec2i { x, y },
                    direction: dir,
                }) && spec_world_unchanged_except(*old(self), *final(self), x as int, y as int)
            } else {
                !r && *final(self) == *old(self)
            },
    {
        let (cx, _) = chunk_coord_of(x);
        let (cy, _) = chunk_coord_of(y);
        if cx < self.startx || cy < self.starty {
            return false;
        }
        let dx = (cx as i64) - (self.startx as i64);
        let dy = (cy as i64) - (self.starty as i64);
        if dx >= self.w as i64 || dy >= self.h as i64 {
            return false;
        }
        let idx = self.chunk_index(cx, cy);
        let chunk = &mut self.chunks[idx];
        chunk.set_block_at(x, y, block, dir);
        proof {
            let xi = x as int;
            let yi = y as int;
            let cxi = spec_chunk_coord(xi);
            let cyi = spec_chunk_coord(yi);
            let idx0 = old(self).spec_chunk_index(cxi, cyi);
            assert(self.chunks@ =~= old(self).chunks@.update(idx0, self.chunks@[idx0]));
            assert forall|i: int| 0 <= i < self.chunks@.len() implies (
            #[trigger] self.chunks@[i]).wf() && self.chunks@[i].chunk_x == self.startx + (i % (
            self.w as int)) && self.chunks@[i].chunk_y == self.starty + (i / (self.w as int)) by {
                if i != idx0 {
                    assert(self.chunks@[i] == old(self).chunks@[i]);
                }
            }
            assert forall|px: int, py: int|
                old(self).spec_pos_loaded(px, py) && !(px == xi && py == yi) implies #[trigger] self
                .spec_cell(px, py) == old(self).spec_cell(px, py) by {
                let cpx = spec_chunk_coord(px);
                let cpy = spec_chunk_coord(py);
                let ci = old(self).spec_chunk_index(cpx, cpy);
                old(self).lemma_chunk_index_in_range(cpx, cpy);
                if ci != idx0 {
                    assert(self.chunks@[ci] == old(self).chunks@[ci]);
                } else {
                    assert(old(self).chunks@[ci].chunk_x == cpx);
                    assert(old(self).chunks@[idx0].chunk_x == cxi);
                    assert(cpx == cxi && cpy == cyi);
                    vstd::arithmetic::div_mod::lemma_fundamental_div_mod(px, 32);
                    vstd::arithmetic::div_mod::lemma_fundamental_div_mod(py, 32);
                    vstd::arithmetic::div_mod::lemma_fundamental_div_mod(xi, 32);
                    vstd::arithmetic::div_mod::lemma_fundamental_div_mod(yi, 32);
                    vstd::arithmetic::div_mod::lemma_mod_bound(px, 32);
                    vstd::arithmetic::div_mod::lemma_mod_bound(py, 32);
                    vstd::arithmetic::div_mod::lemma_mod_bound(xi, 32);
                    vstd::arithmetic::div_mod::lemma_mod_bound(yi, 32);
                    assert(Chunk::spec_cell_index(px, py) != Chunk::spec_cell_index(xi, yi));
                    assert(self.chunks@[ci].blocks@[Chunk::spec_cell_index(px, py)] == old(
                        self,
                    ).chunks@[ci].blocks@[Chunk::spec_cell_index(px, py)]);
                }
            }
            if old(self).blocks_wf() {
                lemma_blocks_wf_preserved(*old(self), *self, xi, yi);
            }
        }
        true
    }
}

/// Every cell except `(x, y)` reads the same in both worlds, and the bounds
/// agree.
pub open spec fn spec_world_unchanged_except(a: World, b: World, x: int, y: int) -> bool {
    &&& b.w == a.w
    &&& b.h == a.h
    &&& b.startx == a.startx
    &&& b.starty == a.starty
    &&& forall|px: int, py: int| a.spec_pos_loaded(px, py) && !(px == x && py == y)
        ==> #[trigger] b.spec_cell(px, py) == a.spec_cell(px, py)
}


/// Negative-coordinate addressing: chunk resolution is floor division, so the
/// cell at (-1, -1) always resolves to chunk (-1, -1) at the last in-chunk
/// offset, which is a different chunk than the one holding (0, 0).
pub proof fn lemma_negative_coordinate_addressing()
    ensures
        spec_chunk_coord(-1) == -1,
        spec_chunk_offset(-1) == 31,
        spec_chunk_coord(0) == 0,
        spec_chunk_offset(0) == 0,
        spec_chunk_coord(-1) != spec_chunk_coord(0),
        Chunk::spec_cell_index(-1, -1) == 1023,
        Chunk::spec_cell_index(0, 0) == 0,
{
}

/// The mathematical content of a chunk.
pub ghost struct ChunkV {
    pub x: i32,
    pub y: i32,
    pub cells: Seq<(Direction, crate::blocks::BlockV)>,
}

impl View for Chunk {
    type V = ChunkV;

    open spec fn view(&self) -> ChunkV {
        ChunkV {
            x: self.chunk_x,
            y: self.chunk_y,
            cells: Seq::new(
                self.blocks@.len(),
                |i: int| (self.blocks@[i].data.direction, self.blocks@[i].inner@),
            ),
        }
    }
}

/// The chunk's cell payloads in index order: each cell's facing byte, then
/// its block.
pub open spec fn enc_cells(
    reg: crate::registry::RegistryV,
    cells: Seq<(Direction, crate::blocks::BlockV)>,
) -> Seq<u8>
    decreases cells.len(),
{
    if cells.len() == 0 {
        Seq::empty()
    } else {
        enc_dir(cells[0].0) + crate::blocks::enc_block(reg, cells[0].1) + enc_cells(
            reg,
            cells.skip(1),
        )
    }
}

/// A chunk on the wire: chunk trap, its coordinates, its cell count, then
/// every one of the 32 x 32 cells.
pub open spec fn enc_chunk(reg: crate::registry::RegistryV, c: ChunkV) -> Seq<u8> {
    enc_trap(SerializationTrap::Chunk) + enc_i32(c.x) + enc_i32(c.y) + enc_len(c.cells.len())
        + enc_cells(reg, c.cells)
}

/// Parse exactly `n` cells.
pub open spec fn parse_cells(
    reg: crate::registry::RegistryV,
    s: Seq<u8>,
    n: nat,
) -> Option<(Seq<(Direction, crate::blocks::BlockV)>, Seq<u8>)>
    decreases n,
{
    if n == 0 {
        Some((Seq::empty(), s))
    } else {
        match parse_dir(s) {
            None => None,
            Some((d, s1)) => match crate::blocks::parse_block(reg, s1) {
                None => None,
                Some((b, s2)) => match parse_cells(reg, s2, (n - 1) as nat) {
                    None => None,
                    Some((v, s3)) => Some((seq![(d, b)] + v, s3)),
                },
            },
        }
    }
}

/// Parse one chunk: its stored cell count is read and ignored (the grid is
/// always 32 x 32); coordinates outside the addressable range are rejected.
pub open spec fn parse_chunk(reg: crate::registry::RegistryV, s: Seq<u8>) -> Option<(ChunkV, Seq<u8>)> {
    match parse_trap(s, SerializationTrap::Chunk) {
        None => None,
        Some(s1) => match parse_i32(s1) {
            None => None,
            Some((x, s2)) => match parse_i32(s2) {
                None => None,
                Some((y, s3)) => match parse_len(s3) {
                    None => None,
                    Some((_, s4)) => if -CHUNK_COORD_LIMIT <= x < CHUNK_COORD_LIMIT
                        && -CHUNK_COORD_LIMIT <= y < CHUNK_COORD_LIMIT {
                        match parse_cells(reg, s4, 1024) {
                            None => None,
                            Some((cells, s5)) => Some((ChunkV { x, y, cells }, s5)),
                        }
                    } else {
                        None
                    },
                },
            },
        },
    }
}

/// Every block of the chunk can be written and read back.
pub open spec fn chunk_serializable(reg: crate::registry::RegistryV, c: Chunk) -> bool {
    forall|i: int| 0 <= i < c.blocks@.len() ==> crate::blocks::block_serializable(
        reg,
        (#[trigger] c.blocks@[i]).inner,
    )
}

/// The cells a decoded chunk reconstructs: facings survive, blocks revert to
/// their persisted projection.
pub open spec fn spec_persisted_cells(
    cells: Seq<(Direction, crate::blocks::BlockV)>,
) -> Seq<(Direction, crate::blocks::BlockV)> {
    Seq::new(cells.len(), |i: int| (cells[i].0, crate::blocks::spec_persisted(cells[i].1)))
}

proof fn lemma_enc_cells_snoc(
    reg: crate::registry::RegistryV,
    cells: Seq<(Direction, crate::blocks::BlockV)>,
    i: int,
)
    requires
        0 <= i < cells.len(),
    ensures
        enc_cells(reg, cells.take(i + 1)) == enc_cells(reg, cells.take(i)) + (enc_dir(cells[i].0)
            + crate::blocks::enc_block(reg, cells[i].1)),
    decreases i,
{
    let a = cells.take(i + 1);
    let b = cells.take(i);
    if i == 0 {
        assert(a.skip(1) =~= Seq::<(Direction, crate::blocks::BlockV)>::empty());
        assert(enc_cells(reg, a.skip(1)) =~= Seq::<u8>::empty());
        assert(a[0] == cells[0]);
        assert(enc_cells(reg, b) =~= Seq::<u8>::empty());
        assert(enc_cells(reg, a) =~= enc_dir(cells[0].0) + crate::blocks::enc_block(
            reg,
            cells[0].1,
        ));
    } else {
        assert(a.skip(1) =~= cells.skip(1).take(i));
        assert(b.skip(1) =~= cells.skip(1).take(i - 1));
        assert(cells.skip(1)[i - 1] == cells[i]);
        lemma_enc_cells_snoc(reg, cells.skip(1), i - 1);
        assert(a[0] == cells[0]);
        assert(b[0] == cells[0]);
        assert(enc_cells(reg, b) + (enc_dir(cells[i].0) + crate::blocks::enc_block(
            reg,
            cells[i].1,
        )) =~= (enc_dir(cells[0].0) + crate::blocks::enc_block(reg, cells[0].1)) + (enc_cells(
            reg,
            cells.skip(1).take(i - 1),
        ) + (enc_dir(cells[i].0) + crate::blocks::enc_block(reg, cells[i].1))));
    }
}

/// Round trip for a cell sequence.
#[verifier::rlimit(80)]
proof fn lemma_parse_cells_enc(
    reg: crate::registry::RegistryV,
    c: Chunk,
    i: int,
    rest: Seq<u8>,
)
    requires
        crate::identifier::pool_unique(reg.pool),
        crate::registry::table_wf(reg.blocks, reg.pool),
        crate::registry::table_wf(reg.items, reg.pool),
        chunk_serializable(reg, c),
        0 <= i <= c.blocks@.len(),
    ensures
        parse_cells(reg, enc_cells(reg, c@.cells.skip(i)) + rest, (c.blocks@.len() - i) as nat)
            == Some((spec_persisted_cells(c@.cells.skip(i)), rest)),
    decreases c.blocks@.len() - i,
{
    let cells = c@.cells;
    if i == c.blocks@.len() {
        assert(cells.skip(i) =~= Seq::<(Direction, crate::blocks::BlockV)>::empty());
        assert(enc_cells(reg, cells.skip(i)) + rest =~= rest);
        assert(spec_persisted_cells(cells.skip(i)) =~= Seq::<(
            Direction,
            crate::blocks::BlockV,
        )>::empty());
    } else {
        let tail = cells.skip(i);
        assert(tail[0] == cells[i]);
        assert(cells[i].0 == c.blocks@[i].data.direction);
        assert(cells[i].1 == c.blocks@[i].inner@);
        let tail_enc = enc_cells(reg, cells.skip(i + 1)) + rest;
        assert(tail.skip(1) =~= cells.skip(i + 1));
        let s = enc_cells(reg, tail) + rest;
        assert(s =~= enc_dir(cells[i].0) + (crate::blocks::enc_block(reg, cells[i].1)
            + tail_enc));
        lemma_parse_dir_enc(cells[i].0, crate::blocks::enc_block(reg, cells[i].1) + tail_enc);
        crate::blocks::lemma_parse_block_enc(reg, c.blocks@[i].inner, tail_enc);
        lemma_parse_cells_enc(reg, c, i + 1, rest);
        assert(seq![(cells[i].0, crate::blocks::spec_persisted(cells[i].1))]
            + spec_persisted_cells(cells.skip(i + 1)) =~= spec_persisted_cells(tail));
    }
}

/// Round trip for one chunk.
pub proof fn lemma_parse_chunk_enc(reg: crate::registry::RegistryV, c: Chunk, rest: Seq<u8>)
    requires
        crate::identifier::pool_unique(reg.pool),
        crate::registry::table_wf(reg.blocks, reg.pool),
        crate::registry::table_wf(reg.items, reg.pool),
        chunk_serializable(reg, c),
        c.wf(),
    ensures
        parse_chunk(reg, enc_chunk(reg, c@) + rest) == Some(
            (ChunkV { x: c.chunk_x, y: c.chunk_y, cells: spec_persisted_cells(c@.cells) }, rest),
        ),
{
    let s = enc_chunk(reg, c@) + rest;
    let s1 = enc_i32(c.chunk_x) + enc_i32(c.chunk_y) + enc_len(c@.cells.len()) + enc_cells(
        reg,
        c@.cells,
    ) + rest;
    assert(s.skip(1) =~= s1);
    assert(s1 =~= enc_i32(c.chunk_x) + (enc_i32(c.chunk_y) + (enc_len(c@.cells.len()) + (
    enc_cells(reg, c@.cells) + rest))));
    crate::serialization::lemma_parse_i32_enc(
        c.chunk_x,
        enc_i32(c.chunk_y) + (enc_len(c@.cells.len()) + (enc_cells(reg, c@.cells) + rest)),
    );
    crate::serialization::lemma_parse_i32_enc(
        c.chunk_y,
        enc_len(c@.cells.len()) + (enc_cells(reg, c@.cells) + rest),
    );
    crate::serialization::lemma_parse_len_enc(
        c@.cells.len(),
        enc_cells(reg, c@.cells) + rest,
    );
    assert(c@.cells.skip(0) =~= c@.cells);
    lemma_parse_cells_enc(reg, c, 0, rest);
}

impl Chunk {
    pub fn serialize(&self, reg: &crate::registry::Registry, buf: &mut Vec<u8>)
        requires
            chunk_serializable(reg@, *self),
            reg.wf(),
        ensures
            final(buf)@ == old(buf)@ + enc_chunk(reg@, self@),
    {
        SerializationTrap::Chunk.serialize(buf);
        write_i32(buf, self.chunk_x);
        write_i32(buf, self.chunk_y);
        write_len(buf, self.blocks.len());
        let ghost mid = buf@;
        let n = self.blocks.len();
        let mut i: usize = 0;
        proof {
            assert(enc_cells(reg@, self@.cells.take(0)) =~= Seq::<u8>::empty());
            assert(buf@ =~= mid + enc_cells(reg@, self@.cells.take(0)));
        }
        while i < n
            invariant
                i <= n,
                self.blocks@.len() == n,
                reg.wf(),
                chunk_serializable(reg@, *self),
                buf@ == mid + enc_cells(reg@, self@.cells.take(i as int)),
            decreases n - i,
        {
            proof {
                lemma_enc_cells_snoc(reg@, self@.cells, i as int);
                assert(self@.cells[i as int].0 == self.blocks@[i as int].data.direction);
                assert(self@.cells[i as int].1 == self.blocks@[i as int].inner@);
            }
            let cb = &self.blocks[i];
            cb.data.direction.serialize(buf);
            cb.inner.serialize(reg, buf);
            i = i + 1;
        }
        proof {
            assert(self@.cells.take(n as int) =~= self@.cells);
            assert(buf@ =~= old(buf)@ + enc_chunk(reg@, self@));
        }
    }

    /// Read one chunk back; cell positions are rebuilt from the stored chunk
    /// coordinates, so the grid stays coherent.
    pub fn try_deserialize(
        reg: &crate::registry::Registry,
        buf: &mut Buffer,
    ) -> (r: Result<Chunk, SerializationError>)
        requires
            old(buf).wf(),
            reg.wf(),
        ensures
            final(buf).wf(),
            match parse_chunk(reg@, old(buf).remaining()) {
                Some((cv, rest)) => r matches Ok(c) && c.chunk_x == cv.x && c.chunk_y == cv.y
                    && c@.cells == cv.cells && c.wf() && final(buf).remaining() == rest,
                None => r is Err,
            },
    {
        match SerializationTrap::Chunk.try_deserialize(buf) {
            Err(e) => {
                return Err(e);
            },
            Ok(()) => {},
        }
        let chunk_x = match try_read_i32(buf) {
            Err(e) => {
                return Err(e);
            },
            Ok(v) => v,
        };
        let chunk_y = match try_read_i32(buf) {
            Err(e) => {
                return Err(e);
            },
            Ok(v) => v,
        };
        let _count = match try_read_len(buf) {
            Err(e) => {
                return Err(e);
            },
            Ok(v) => v,
        };
        if !(-CHUNK_COORD_LIMIT <= chunk_x && chunk_x < CHUNK_COORD_LIMIT) {
            return Err(SerializationError::InvalidData);
        }
        if !(-CHUNK_COORD_LIMIT <= chunk_y && chunk_y < CHUNK_COORD_LIMIT) {
            return Err(SerializationError::InvalidData);
        }
        let ghost rem0 = buf.remaining();
        let mut blocks: Vec<ChunkBlock> = Vec::new();
        let mut i: usize = 0;
        proof {
            assert(Seq::<(Direction, crate::blocks::BlockV)>::empty() + Seq::<(
                Direction,
                crate::blocks::BlockV,
            )>::empty() =~= Seq::<(Direction, crate::blocks::BlockV)>::empty());
        }
        while i < 1024
            invariant
                i <= 1024,
                buf.wf(),
                reg.wf(),
                blocks@.len() == i,
                -CHUNK_COORD_LIMIT <= chunk_x < CHUNK_COORD_LIMIT,
                -CHUNK_COORD_LIMIT <= chunk_y < CHUNK_COORD_LIMIT,
                forall|j: int| 0 <= j < i ==> (#[trigger] blocks@[j]).data.position.x == 32
                    * chunk_x + (j % 32),
                forall|j: int| 0 <= j < i ==> (#[trigger] blocks@[j]).data.position.y == 32
                    * chunk_y + (j / 32),
                parse_chunk(reg@, old(buf).remaining()) == match parse_cells(reg@, rem0, 1024) {
                    Some((v, rest)) => Some::<(ChunkV, Seq<u8>)>(
                        (ChunkV { x: chunk_x, y: chunk_y, cells: v }, rest),
                    ),
                    None => None::<(ChunkV, Seq<u8>)>,
                },
                parse_cells(reg@, rem0, 1024) == match parse_cells(
                    reg@,
                    buf.remaining(),
                    (1024 - i) as nat,
                ) {
                    Some((v, rest)) => Some::<(Seq<(Direction, crate::blocks::BlockV)>, Seq<u8>)>(
                        (
                            Seq::new(
                                blocks@.len(),
                                |j: int| (blocks@[j].data.direction, blocks@[j].inner@),
                            ) + v,
                            rest,
                        ),
                    ),
                    None => None::<(Seq<(Direction, crate::blocks::BlockV)>, Seq<u8>)>,
                },
            decreases 1024 - i,
        {
            let ghost cells_so_far = Seq::new(
                blocks@.len(),
                |j: int| (blocks@[j].data.direction, blocks@[j].inner@),
            );
            let d = match Direction::try_deserialize(buf) {
                Err(e) => {
                    return Err(e);
                },
                Ok(v) => v,
            };
            let inner = match crate::blocks::Block::try_deserialize(reg, buf) {
                Err(e) => {
                    return Err(e);
                },
                Ok(v) => v,
            };
            let off_x = (i as u32) % 32;
            let off_y = (i as u32) / 32;
            let pos_x = chunk_x * 32 + off_x as i32;
            let pos_y = chunk_y * 32 + off_y as i32;
            let cb = ChunkBlock::new(inner, pos_x, pos_y, d);
            blocks.push(cb);
            i = i + 1;
            proof {
                let cells_now = Seq::new(
                    blocks@.len(),
                    |j: int| (blocks@[j].data.direction, blocks@[j].inner@),
                );
                match parse_cells(reg@, buf.remaining(), (1024 - i) as nat) {
                    Some((v, rest)) => {
                        assert(cells_now + v =~= cells_so_far + (seq![(d, cb.inner@)] + v));
                    },
                    None => {},
                }
            }
        }
        proof {
            assert(parse_cells(reg@, buf.remaining(), 0) == Some::<(
                Seq<(Direction, crate::blocks::BlockV)>,
                Seq<u8>,
            )>((Seq::empty(), buf.remaining())));
            let cells_now = Seq::new(
                blocks@.len(),
                |j: int| (blocks@[j].data.direction, blocks@[j].inner@),
            );
            assert(cells_now + Seq::<(Direction, crate::blocks::BlockV)>::empty() =~= cells_now);
        }
        let c = Chunk { blocks, chunk_x, chunk_y };
        proof {
            assert(c@.cells =~= Seq::new(
                c.blocks@.len(),
                |j: int| (c.blocks@[j].data.direction, c.blocks@[j].inner@),
            ));
        }
        Ok(c)
    }
}


/// The mathematical content of a world.
pub ghost struct WorldV {
    pub startx: i32,
    pub starty: i32,
    pub w: u32,
    pub h: u32,
    pub chunks: Seq<ChunkV>,
}

impl View for World {
    type V = WorldV;

    open spec fn view(&self) -> WorldV {
        WorldV {
            startx: self.startx,
            starty: self.starty,
            w: self.w,
            h: self.h,
            chunks: Seq::new(self.chunks@.len(), |i: int| self.chunks@[i]@),
        }
    }
}

/// The chunk records, one after another in index order.
pub open spec fn enc_chunks_payload(reg: crate::registry::RegistryV, chunks: Seq<ChunkV>) -> Seq<u8>
    decreases chunks.len(),
{
    if chunks.len() == 0 {
        Seq::empty()
    } else {
        enc_chunk(reg, chunks[0]) + enc_chunks_payload(reg, chunks.skip(1))
    }
}

/// A world on the wire: world trap, the rectangle header (start coordinates,
/// then width and height in chunks), then exactly `w * h` chunk records in
/// row-major order relative to the start.
pub open spec fn enc_world(reg: crate::registry::RegistryV, wv: WorldV) -> Seq<u8> {
    enc_trap(SerializationTrap::World) + enc_i32(wv.startx) + enc_i32(wv.starty)
        + crate::serialization::enc_u32(wv.w) + crate::serialization::enc_u32(wv.h)
        + enc_chunks_payload(reg, wv.chunks)
}

/// Parse `n` chunk records for indices `idx..idx + n`, each validated to
/// carry exactly the coordinates its index stands for.
pub open spec fn parse_chunks(
    reg: crate::registry::RegistryV,
    s: Seq<u8>,
    startx: int,
    starty: int,
    w: int,
    idx: nat,
    n: nat,
) -> Option<(Seq<ChunkV>, Seq<u8>)>
    decreases n,
{
    if n == 0 {
        Some((Seq::empty(), s))
    } else {
        match parse_chunk(reg, s) {
            None => None,
            Some((cv, s1)) => if cv.x == startx + (idx as int % w) && cv.y == starty + (
            idx as int / w) {
                match parse_chunks(reg, s1, startx, starty, w, idx + 1, (n - 1) as nat) {
                    None => None,
                    Some((v, s2)) => Some((seq![cv] + v, s2)),
                }
            } else {
                None
            },
        }
    }
}

/// Parse a world: a header outside the supported rectangle bounds is
/// rejected, then every chunk record in order.
pub open spec fn parse_world(reg: crate::registry::RegistryV, s: Seq<u8>) -> Option<(WorldV, Seq<u8>)> {
    match parse_trap(s, SerializationTrap::World) {
        None => None,
        Some(s1) => match parse_i32(s1) {
            None => None,
            Some((startx, s2)) => match parse_i32(s2) {
                None => None,
                Some((starty, s3)) => match crate::serialization::parse_u32(s3) {
                    None => None,
                    Some((w, s4)) => match crate::serialization::parse_u32(s4) {
                        None => None,
                        Some((h, s5)) => if 1 <= w <= WORLD_DIM_LIMIT && 1 <= h <= WORLD_DIM_LIMIT
                            && -CHUNK_COORD_LIMIT <= startx && startx + w < CHUNK_COORD_LIMIT
                            && -CHUNK_COORD_LIMIT <= starty && starty + h < CHUNK_COORD_LIMIT {
                            match parse_chunks(
                                reg,
                                s5,
                                startx as int,
                                starty as int,
                                w as int,
                                0,
                                (w * h) as nat,
                            ) {
                                None => None,
                                Some((chunks, s6)) => Some(
                                    (WorldV { startx, starty, w, h, chunks }, s6),
                                ),
                            }
                        } else {
                            None
                        },
                    },
                },
            },
        },
    }
}

/// Every block of every chunk can be written and read back.
pub open spec fn world_serializable(reg: crate::registry::RegistryV, w: World) -> bool {
    forall|i: int| 0 <= i < w.chunks@.len() ==> chunk_serializable(reg, #[trigger] w.chunks@[i])
}

/// What a decoded world reconstructs: the same rectangle and, cell by cell,
/// the same facings and the persisted projection of every block.
pub open spec fn spec_persisted_world(wv: WorldV) -> WorldV {
    WorldV {
        startx: wv.startx,
        starty: wv.starty,
        w: wv.w,
        h: wv.h,
        chunks: Seq::new(
            wv.chunks.len(),
            |i: int| ChunkV {
                x: wv.chunks[i].x,
                y: wv.chunks[i].y,
                cells: spec_persisted_cells(wv.chunks[i].cells),
            },
        ),
    }
}

proof fn lemma_enc_chunks_snoc(reg: crate::registry::RegistryV, chunks: Seq<ChunkV>, i: int)
    requires
        0 <= i < chunks.len(),
    ensures
        enc_chunks_payload(reg, chunks.take(i + 1)) == enc_chunks_payload(reg, chunks.take(i))
            + enc_chunk(reg, chunks[i]),
    decreases i,
{
    let a = chunks.take(i + 1);
    let b = chunks.take(i);
    if i == 0 {
        assert(a.skip(1) =~= Seq::<ChunkV>::empty());
        assert(enc_chunks_payload(reg, a.skip(1)) =~= Seq::<u8>::empty());
        assert(a[0] == chunks[0]);
        assert(enc_chunks_payload(reg, b) =~= Seq::<u8>::empty());
        assert(enc_chunks_payload(reg, a) =~= enc_chunk(reg, chunks[0]));
    } else {
        assert(a.skip(1) =~= chunks.skip(1).take(i));
        assert(b.skip(1) =~= chunks.skip(1).take(i - 1));
        assert(chunks.skip(1)[i - 1] == chunks[i]);
        lemma_enc_chunks_snoc(reg, chunks.skip(1), i - 1);
        assert(a[0] == chunks[0]);
        assert(b[0] == chunks[0]);
        assert(enc_chunks_payload(reg, b) + enc_chunk(reg, chunks[i]) =~= enc_chunk(
            reg,
            chunks[0],
        ) + (enc_chunks_payload(reg, chunks.skip(1).take(i - 1)) + enc_chunk(reg, chunks[i])));
    }
}

#[verifier::rlimit(80)]
proof fn lemma_parse_chunks_enc(reg: crate::registry::RegistryV, w: World, i: int, rest: Seq<u8>)
    requires
        crate::identifier::pool_unique(reg.pool),
        crate::registry::table_wf(reg.blocks, reg.pool),
        crate::registry::table_wf(reg.items, reg.pool),
        w.wf(),
        world_serializable(reg, w),
        0 <= i <= w.chunks@.len(),
    ensures
        parse_chunks(
            reg,
            enc_chunks_payload(reg, w@.chunks.skip(i)) + rest,
            w.startx as int,
            w.starty as int,
            w.w as int,
            i as nat,
            (w.chunks@.len() - i) as nat,
        ) == Some((spec_persisted_world(w@).chunks.skip(i), rest)),
    decreases w.chunks@.len() - i,
{
    let chunks = w@.chunks;
    let target = spec_persisted_world(w@).chunks;
    if i == w.chunks@.len() {
        assert(chunks.skip(i) =~= Seq::<ChunkV>::empty());
        assert(enc_chunks_payload(reg, chunks.skip(i)) + rest =~= rest);
        assert(target.skip(i) =~= Seq::<ChunkV>::empty());
    } else {
        let tail = chunks.skip(i);
        assert(tail[0] == chunks[i]);
        assert(chunks[i] == w.chunks@[i]@);
        let tail_enc = enc_chunks_payload(reg, chunks.skip(i + 1)) + rest;
        assert(tail.skip(1) =~= chunks.skip(i + 1));
        let s = enc_chunks_payload(reg, tail) + rest;
        assert(s =~= enc_chunk(reg, chunks[i]) + tail_enc);
        lemma_parse_chunk_enc(reg, w.chunks@[i], tail_enc);
        assert(w.chunks@[i].chunk_x == w.startx + (i % (w.w as int)));
        assert(w.chunks@[i].chunk_y == w.starty + (i / (w.w as int)));
        lemma_parse_chunks_enc(reg, w, i + 1, rest);
        assert(seq![target[i]] + target.skip(i + 1) =~= target.skip(i));
        assert(target[i] == ChunkV {
            x: chunks[i].x,
            y: chunks[i].y,
            cells: spec_persisted_cells(chunks[i].cells),
        });
    }
}

/// Round trip for a whole world: parsing its encoding yields the same chunk
/// coordinates and rectangle, and every cell's facing and persisted block.
pub proof fn lemma_parse_world_enc(reg: crate::registry::RegistryV, w: World, rest: Seq<u8>)
    requires
        crate::identifier::pool_unique(reg.pool),
        crate::registry::table_wf(reg.blocks, reg.pool),
        crate::registry::table_wf(reg.items, reg.pool),
        w.wf(),
        world_serializable(reg, w),
    ensures
        parse_world(reg, enc_world(reg, w@) + rest) == Some((spec_persisted_world(w@), rest)),
{
    let s = enc_world(reg, w@) + rest;
    let payload = enc_chunks_payload(reg, w@.chunks);
    let s1 = enc_i32(w.startx) + enc_i32(w.starty) + crate::serialization::enc_u32(w.w)
        + crate::serialization::enc_u32(w.h) + payload + rest;
    assert(s.skip(1) =~= s1);
    assert(s1 =~= enc_i32(w.startx) + (enc_i32(w.starty) + (crate::serialization::enc_u32(w.w) + (
    crate::serialization::enc_u32(w.h) + (payload + rest)))));
    crate::serialization::lemma_parse_i32_enc(
        w.startx,
        enc_i32(w.starty) + (crate::serialization::enc_u32(w.w) + (crate::serialization::enc_u32(
            w.h,
        ) + (payload + rest))),
    );
    crate::serialization::lemma_parse_i32_enc(
        w.starty,
        crate::serialization::enc_u32(w.w) + (crate::serialization::enc_u32(w.h) + (payload
            + rest)),
    );
    crate::serialization::lemma_parse_u32_enc(
        w.w,
        crate::serialization::enc_u32(w.h) + (payload + rest),
    );
    crate::serialization::lemma_parse_u32_enc(w.h, payload + rest);
    assert(w@.chunks.skip(0) =~= w@.chunks);
    lemma_parse_chunks_enc(reg, w, 0, rest);
    assert(spec_persisted_world(w@).chunks.skip(0) =~= spec_persisted_world(w@).chunks);
    assert((w.w * w.h) as nat == w.chunks@.len());
}

impl World {
    pub fn serialize(&self, reg: &crate::registry::Registry, buf: &mut Vec<u8>)
        requires
            self.wf(),
            world_serializable(reg@, *self),
            reg.wf(),
        ensures
            final(buf)@ == old(buf)@ + enc_world(reg@, self@),
    {
        SerializationTrap::World.serialize(buf);
        write_i32(buf, self.startx);
        write_i32(buf, self.starty);
        crate::serialization::write_u32(buf, self.w);
        crate::serialization::write_u32(buf, self.h);
        let ghost mid = buf@;
        let n = self.chunks.len();
        let mut i: usize = 0;
        proof {
            assert(enc_chunks_payload(reg@, self@.chunks.take(0)) =~= Seq::<u8>::empty());
            assert(buf@ =~= mid + enc_chunks_payload(reg@, self@.chunks.take(0)));
        }
        while i < n
            invariant
                i <= n,
                self.chunks@.len() == n,
                reg.wf(),
                world_serializable(reg@, *self),
                buf@ == mid + enc_chunks_payload(reg@, self@.chunks.take(i as int)),
            decreases n - i,
        {
            proof {
                lemma_enc_chunks_snoc(reg@, self@.chunks, i as int);
                assert(self@.chunks[i as int] == self.chunks@[i as int]@);
            }
            self.chunks[i].serialize(reg, buf);
            i = i + 1;
        }
        proof {
            assert(self@.chunks.take(n as int) =~= self@.chunks);
            assert(buf@ =~= old(buf)@ + enc_world(reg@, self@));
        }
    }

    /// Read a world back: a well-formed grid or an error, never a partial or
    /// corrupt world.
    pub fn try_deserialize(
        reg: &crate::registry::Registry,
        buf: &mut Buffer,
    ) -> (r: Result<World, SerializationError>)
        requires
            old(buf).wf(),
            reg.wf(),
        ensures
            final(buf).wf(),
            match parse_world(reg@, old(buf).remaining()) {
                Some((wv, rest)) => r matches Ok(w) && w@ == wv && w.wf()
                    && final(buf).remaining() == rest,
                None => r is Err,
            },
    {
        match SerializationTrap::World.try_deserialize(buf) {
            Err(e) => {
                return Err(e);
            },
            Ok(()) => {},
        }
        let startx = match try_read_i32(buf) {
            Err(e) => {
                return Err(e);
            },
            Ok(v) => v,
        };
        let starty = match try_read_i32(buf) {
            Err(e) => {
                return Err(e);
            },
            Ok(v) => v,
        };
        let w = match crate::serialization::try_read_u32(buf) {
            Err(e) => {
                return Err(e);
            },
            Ok(v) => v,
        };
        let h = match crate::serialization::try_read_u32(buf) {
            Err(e) => {
                return Err(e);
            },
            Ok(v) => v,
        };
        if !(1 <= w && w <= WORLD_DIM_LIMIT && 1 <= h && h <= WORLD_DIM_LIMIT) {
            return Err(SerializationError::InvalidData);
        }
        let lim: i64 = 0x0200_0000;
        if startx < -CHUNK_COORD_LIMIT || (startx as i64) + (w as i64) >= lim {
            return Err(SerializationError::InvalidData);
        }
        if starty < -CHUNK_COORD_LIMIT || (starty as i64) + (h as i64) >= lim {
            return Err(SerializationError::InvalidData);
        }
        proof {
            assert((w as int) * (h as int) <= 32768 * 32768) by (nonlinear_arith)
                requires
                    1 <= w as int <= 32768,
                    1 <= h as int <= 32768,
            {
            }
        }
        let total = (w as usize) * (h as usize);
        let ghost rem0 = buf.remaining();
        let mut chunks: Vec<Chunk> = Vec::new();
        let mut i: usize = 0;
        while i < total
            invariant
                i <= total,
                total == w * h,
                buf.wf(),
                reg.wf(),
                1 <= w <= WORLD_DIM_LIMIT,
                1 <= h <= WORLD_DIM_LIMIT,
                -CHUNK_COORD_LIMIT <= startx,
                startx + w < CHUNK_COORD_LIMIT,
                -CHUNK_COORD_LIMIT <= starty,
                starty + h < CHUNK_COORD_LIMIT,
                chunks@.len() == i,
                forall|j: int| 0 <= j < i ==> (#[trigger] chunks@[j]).wf(),
                forall|j: int| 0 <= j < i ==> (#[trigger] chunks@[j]).chunk_x == startx + (j % (
                w as int)),
                forall|j: int| 0 <= j < i ==> (#[trigger] chunks@[j]).chunk_y == starty + (j / (
                w as int)),
                parse_world(reg@, old(buf).remaining()) == match parse_chunks(
                    reg@,
                    rem0,
                    startx as int,
                    starty as int,
                    w as int,
                    0,
                    total as nat,
                ) {
                    Some((v, rest)) => Some::<(WorldV, Seq<u8>)>(
                        (WorldV { startx, starty, w, h, chunks: v }, rest),
                    ),
                    None => None::<(WorldV, Seq<u8>)>,
                },
                parse_chunks(
                    reg@,
                    rem0,
                    startx as int,
                    starty as int,
                    w as int,
                    0,
                    total as nat,
                ) == match parse_chunks(
                    reg@,
                    buf.remaining(),
                    startx as int,
                    starty as int,
                    w as int,
                    i as nat,
                    (total - i) as nat,
                ) {
                    Some((v, rest)) => Some::<(Seq<ChunkV>, Seq<u8>)>(
                        (Seq::new(chunks@.len(), |j: int| chunks@[j]@) + v, rest),
                    ),
                    None => None::<(Seq<ChunkV>, Seq<u8>)>,
                },
            decreases total - i,
        {
            let ghost views_so_far = Seq::new(chunks@.len(), |j: int| chunks@[j]@);
            let c = match Chunk::try_deserialize(reg, buf) {
                Err(e) => {
                    return Err(e);
                },
                Ok(v) => v,
            };
            proof {
                vstd::arithmetic::div_mod::lemma_mod_bound(i as int, w as int);
                vstd::arithmetic::div_mod::lemma_multiply_divide_lt(
                    i as int,
                    w as int,
                    h as int,
                );
                assert((w as int) * (h as int) == (h as int) * (w as int)) by (nonlinear_arith);
            }
            let cx_off = (i as u64 % w as u64) as u32;
            let cy_off = (i as u64 / w as u64) as u32;
            let expect_x = startx + cx_off as i32;
            let expect_y = starty + cy_off as i32;
            if c.chunk_x != expect_x || c.chunk_y != expect_y {
                return Err(SerializationError::InvalidData);
            }
            chunks.push(c);
            i = i + 1;
            proof {
                let views_now = Seq::new(chunks@.len(), |j: int| chunks@[j]@);
                match parse_chunks(
                    reg@,
                    buf.remaining(),
                    startx as int,
                    starty as int,
                    w as int,
                    i as nat,
                    (total - i) as nat,
                ) {
                    Some((v, rest)) => {
                        assert(views_now + v =~= views_so_far + (seq![c@] + v));
                    },
                    None => {},
                }
            }
        }
        proof {
            assert(parse_chunks(
                reg@,
                buf.remaining(),
                startx as int,
                starty as int,
                w as int,
                total as nat,
                0,
            ) == Some::<(Seq<ChunkV>, Seq<u8>)>((Seq::empty(), buf.remaining())));
            let views_now = Seq::new(chunks@.len(), |j: int| chunks@[j]@);
            assert(views_now + Seq::<ChunkV>::empty() =~= views_now);
        }
        let out = World { chunks, w, h, startx, starty };
        proof {
            assert(out@.chunks =~= Seq::new(out.chunks@.len(), |j: int| out.chunks@[j]@));
        }
        Ok(out)
    }
}


impl World {
    /// All blocks have their working shape (established by `init` and kept by
    /// every operation).
    pub open spec fn blocks_wf(self) -> bool {
        forall|ci: int, bi: int| 0 <= ci < self.chunks@.len() && 0 <= bi < 1024
            ==> (#[trigger] self.chunks@[ci].blocks@[bi]).inner.wf()
    }

    /// The chunk and cell indices of loaded block coordinates.
    pub fn locate(&self, x: i32, y: i32) -> (r: Option<(usize, usize)>)
        requires
            self.wf(),
        ensures
            match r {
                Some((ci, bi)) => self.spec_pos_loaded(x as int, y as int) && ci
                    == self.spec_chunk_index(
                    spec_chunk_coord(x as int),
                    spec_chunk_coord(y as int),
                ) && bi == Chunk::spec_cell_index(x as int, y as int) && ci < self.chunks@.len()
                    && bi < 1024,
                None => !self.spec_pos_loaded(x as int, y as int),
            },
    {
        let (cx, off_x) = chunk_coord_of(x);
        let (cy, off_y) = chunk_coord_of(y);
        if cx < self.startx || cy < self.starty {
            return None;
        }
        let dx = (cx as i64) - (self.startx as i64);
        let dy = (cy as i64) - (self.starty as i64);
        if dx >= self.w as i64 || dy >= self.h as i64 {
            return None;
        }
        let ci = self.chunk_index(cx, cy);
        let bi = (off_y * 32 + off_x) as usize;
        Some((ci, bi))
    }

    /// Run all placement initialisations: every block of every chunk takes
    /// its working shape (after loading a save).
    pub fn init(&mut self)
        requires
            old(self).wf(),
        ensures
            final(self).wf(),
            final(self).blocks_wf(),
            final(self).w == old(self).w,
            final(self).h == old(self).h,
            final(self).startx == old(self).startx,
            final(self).starty == old(self).starty,
            final(self).chunks@.len() == old(self).chunks@.len(),
            forall|ci: int, bi: int| 0 <= ci < old(self).chunks@.len() && 0 <= bi < 1024
                ==> (#[trigger] final(self).chunks@[ci].blocks@[bi]).inner@
                    == crate::blocks::spec_init(old(self).chunks@[ci].blocks@[bi].inner@)
                    && final(self).chunks@[ci].blocks@[bi].data
                    == old(self).chunks@[ci].blocks@[bi].data,
    {
        let n = self.chunks.len();
        let mut ci: usize = 0;
        while ci < n
            invariant
                ci <= n,
                self.chunks@.len() == n,
                self.w == old(self).w,
                self.h == old(self).h,
                self.startx == old(self).startx,
                self.starty == old(self).starty,
                old(self).wf(),
                self.wf(),
                forall|i: int, bi: int| 0 <= i < ci && 0 <= bi < 1024
                    ==> (#[trigger] self.chunks@[i].blocks@[bi]).inner@
                        == crate::blocks::spec_init(old(self).chunks@[i].blocks@[bi].inner@)
                        && self.chunks@[i].blocks@[bi].inner.wf()
                        && self.chunks@[i].blocks@[bi].data
                        == old(self).chunks@[i].blocks@[bi].data,
                forall|i: int| ci <= i < n ==> #[trigger] self.chunks@[i]
                    == old(self).chunks@[i],
            decreases n - ci,
        {
            let chunk = &mut self.chunks[ci];
            let ghost chunk0 = *chunk;
            let mut bi: usize = 0;
            while bi < 1024
                invariant
                    bi <= 1024,
                    chunk0.wf(),
                    chunk.blocks@.len() == 1024,
                    chunk.chunk_x == chunk0.chunk_x,
                    chunk.chunk_y == chunk0.chunk_y,
                    forall|j: int| 0 <= j < bi ==> (#[trigger] chunk.blocks@[j]).inner@
                        == crate::blocks::spec_init(chunk0.blocks@[j].inner@)
                        && chunk.blocks@[j].inner.wf() && chunk.blocks@[j].data
                        == chunk0.blocks@[j].data,
                    forall|j: int| bi <= j < 1024 ==> #[trigger] chunk.blocks@[j]
                        == chunk0.blocks@[j],
                decreases 1024 - bi,
            {
                let cb = &mut chunk.blocks[bi];
                cb.init();
                bi = bi + 1;
            }
            proof {
                assert(chunk.wf()) by {
                    assert(forall|j: int| 0 <= j < 1024 ==> (#[trigger] chunk.blocks@[j]).data
                        == chunk0.blocks@[j].data);
                }
            }
            ci = ci + 1;
            proof {
                assert(self.wf()) by {
                    assert(forall|i: int| 0 <= i < n && i != ci - 1
                        ==> #[trigger] self.chunks@[i] == old(self).chunks@[i]
                            || self.chunks@[i].wf());
                    assert(forall|i: int| 0 <= i < n ==> (#[trigger] self.chunks@[i]).chunk_x
                        == old(self).chunks@[i].chunk_x && self.chunks@[i].chunk_y == old(
                        self,
                    ).chunks@[i].chunk_y);
                }
            }
        }
    }
}

/// Replacing one cell's block (keeping its metadata) preserves the world
/// invariant and leaves every other cell untouched.
pub proof fn lemma_world_cell_update(a: World, b: World, x: int, y: int)
    requires
        a.wf(),
        a.spec_pos_loaded(x, y),
        b.w == a.w,
        b.h == a.h,
        b.startx == a.startx,
        b.starty == a.starty,
        b.chunks@ == a.chunks@.update(
            a.spec_chunk_index(spec_chunk_coord(x), spec_chunk_coord(y)),
            b.chunks@[a.spec_chunk_index(spec_chunk_coord(x), spec_chunk_coord(y))],
        ),
        ({
            let ci = a.spec_chunk_index(spec_chunk_coord(x), spec_chunk_coord(y));
            let bi = Chunk::spec_cell_index(x, y);
            &&& b.chunks@[ci].chunk_x == a.chunks@[ci].chunk_x
            &&& b.chunks@[ci].chunk_y == a.chunks@[ci].chunk_y
            &&& b.chunks@[ci].blocks@ == a.chunks@[ci].blocks@.update(
                bi,
                b.chunks@[ci].blocks@[bi],
            )
            &&& b.chunks@[ci].blocks@[bi].data == a.chunks@[ci].blocks@[bi].data
        }),
    ensures
        b.wf(),
        spec_world_unchanged_except(a, b, x, y),
        b.spec_cell(x, y).data == a.spec_cell(x, y).data,
        a.blocks_wf() && b.spec_cell(x, y).inner.wf() ==> b.blocks_wf(),
{
    let ci = a.spec_chunk_index(spec_chunk_coord(x), spec_chunk_coord(y));
    let bi = Chunk::spec_cell_index(x, y);
    a.lemma_chunk_index_in_range(spec_chunk_coord(x), spec_chunk_coord(y));
    vstd::arithmetic::div_mod::lemma_mod_bound(x, 32);
    vstd::arithmetic::div_mod::lemma_mod_bound(y, 32);
    assert(0 <= bi < 1024);
    assert(b.chunks@[ci].wf()) by {
        assert(forall|j: int| 0 <= j < 1024 && j != bi ==> #[trigger] b.chunks@[ci].blocks@[j]
            == a.chunks@[ci].blocks@[j]);
    }
    assert(b.wf()) by {
        assert(forall|i: int| 0 <= i < b.chunks@.len() && i != ci ==> #[trigger] b.chunks@[i]
            == a.chunks@[i]);
    }
    assert forall|px: int, py: int| a.spec_pos_loaded(px, py) && !(px == x && py == y)
        implies #[trigger] b.spec_cell(px, py) == a.spec_cell(px, py) by {
        let cpx = spec_chunk_coord(px);
        let cpy = spec_chunk_coord(py);
        let pci = a.spec_chunk_index(cpx, cpy);
        a.lemma_chunk_index_in_range(cpx, cpy);
        if pci != ci {
            assert(b.chunks@[pci] == a.chunks@[pci]);
        } else {
            assert(a.chunks@[pci].chunk_x == cpx);
            assert(a.chunks@[ci].chunk_x == spec_chunk_coord(x));
            assert(cpx == spec_chunk_coord(x) && cpy == spec_chunk_coord(y));
            vstd::arithmetic::div_mod::lemma_fundamental_div_mod(px, 32);
            vstd::arithmetic::div_mod::lemma_fundamental_div_mod(py, 32);
            vstd::arithmetic::div_mod::lemma_fundamental_div_mod(x, 32);
            vstd::arithmetic::div_mod::lemma_fundamental_div_mod(y, 32);
            vstd::arithmetic::div_mod::lemma_mod_bound(px, 32);
            vstd::arithmetic::div_mod::lemma_mod_bound(py, 32);
            assert(Chunk::spec_cell_index(px, py) != bi);
            assert(b.chunks@[ci].blocks@[Chunk::spec_cell_index(px, py)] == a.chunks@[
                ci
            ].blocks@[Chunk::spec_cell_index(px, py)]);
        }
    }
    assert(a.blocks_wf() && b.spec_cell(x, y).inner.wf() ==> b.blocks_wf()) by {
        if a.blocks_wf() && b.spec_cell(x, y).inner.wf() {
            assert forall|i: int, j: int| 0 <= i < b.chunks@.len() && 0 <= j < 1024 implies (
            #[trigger] b.chunks@[i].blocks@[j]).inner.wf() by {
                if i != ci {
                    assert(b.chunks@[i] == a.chunks@[i]);
                } else if j != bi {
                    assert(b.chunks@[ci].blocks@[j] == a.chunks@[ci].blocks@[j]);
                }
            }
        }
    }
}


/// The inverse of cell addressing: the cell at index `(ci, bi)` is exactly
/// the cell that `spec_cell` resolves for its stored position.
pub proof fn lemma_cell_index_inverse(w: World, ci: int, bi: int)
    requires
        w.wf(),
        0 <= ci < w.chunks@.len(),
        0 <= bi < 1024,
    ensures
        ({
            let px = 32 * w.chunks@[ci].chunk_x + (bi % 32);
            let py = 32 * w.chunks@[ci].chunk_y + (bi / 32);
            &&& w.spec_pos_loaded(px, py)
            &&& w.spec_chunk_index(spec_chunk_coord(px), spec_chunk_coord(py)) == ci
            &&& Chunk::spec_cell_index(px, py) == bi
            &&& w.spec_cell(px, py) == w.chunks@[ci].blocks@[bi]
        }),
{
    let cx = w.chunks@[ci].chunk_x as int;
    let cy = w.chunks@[ci].chunk_y as int;
    let px = 32 * cx + (bi % 32);
    let py = 32 * cy + (bi / 32);
    vstd::arithmetic::div_mod::lemma_mod_bound(bi, 32);
    vstd::arithmetic::div_mod::lemma_fundamental_div_mod(bi, 32);
    vstd::arithmetic::div_mod::lemma_fundamental_div_mod(px, 32);
    vstd::arithmetic::div_mod::lemma_mod_bound(px, 32);
    vstd::arithmetic::div_mod::lemma_fundamental_div_mod(py, 32);
    vstd::arithmetic::div_mod::lemma_mod_bound(py, 32);
    assert(0 <= bi / 32 < 32) by {
        vstd::arithmetic::div_mod::lemma_multiply_divide_lt(bi, 32, 32);
    }
    assert(spec_chunk_coord(px) == cx && spec_chunk_offset(px) == bi % 32) by {
        assert(px == 32 * cx + (bi % 32));
        assert(px == 32 * spec_chunk_coord(px) + spec_chunk_offset(px));
        assert(0 <= spec_chunk_offset(px) < 32);
        assert(32 * (spec_chunk_coord(px) - cx) == (bi % 32) - spec_chunk_offset(px));
    }
    assert(spec_chunk_coord(py) == cy && spec_chunk_offset(py) == bi / 32) by {
        assert(py == 32 * cy + (bi / 32));
        assert(py == 32 * spec_chunk_coord(py) + spec_chunk_offset(py));
        assert(0 <= spec_chunk_offset(py) < 32);
        assert(32 * (spec_chunk_coord(py) - cy) == (bi / 32) - spec_chunk_offset(py));
    }
    vstd::arithmetic::div_mod::lemma_mod_bound(ci, w.w as int);
    vstd::arithmetic::div_mod::lemma_fundamental_div_mod(ci, w.w as int);
    assert(cx == w.startx + (ci % (w.w as int)));
    assert(cy == w.starty + (ci / (w.w as int)));
    assert(0 <= ci / (w.w as int) < w.h as int) by {
        vstd::arithmetic::div_mod::lemma_multiply_divide_lt(ci, w.w as int, w.h as int);
        assert((w.w as int) * (w.h as int) == (w.h as int) * (w.w as int)) by (nonlinear_arith);
    }
    assert(w.spec_chunk_in_bounds(cx, cy));
    assert(w.spec_chunk_index(cx, cy) == (ci % (w.w as int)) + (ci / (w.w as int)) * (
    w.w as int));
    assert(Chunk::spec_cell_index(px, py) == (bi / 32) * 32 + (bi % 32));
}

/// A world that changed in at most one cell, whose new occupant is
/// well-formed, keeps the whole grid well-formed.
pub proof fn lemma_blocks_wf_preserved(a: World, b: World, x: int, y: int)
    requires
        a.wf(),
        b.wf(),
        a.blocks_wf(),
        spec_world_unchanged_except(a, b, x, y),
        a.spec_pos_loaded(x, y) ==> b.spec_cell(x, y).inner.wf(),
    ensures
        b.blocks_wf(),
{
    assert forall|ci: int, bi: int| 0 <= ci < b.chunks@.len() && 0 <= bi < 1024 implies (
    #[trigger] b.chunks@[ci].blocks@[bi]).inner.wf() by {
        lemma_cell_index_inverse(b, ci, bi);
        lemma_cell_index_inverse(a, ci, bi);
        let px = 32 * b.chunks@[ci].chunk_x + (bi % 32);
        let py = 32 * b.chunks@[ci].chunk_y + (bi / 32);
        assert(a.chunks@[ci].chunk_x == b.chunks@[ci].chunk_x);
        assert(a.chunks@[ci].chunk_y == b.chunks@[ci].chunk_y);
        if px == x && py == y {
            assert(b.spec_cell(x, y).inner.wf());
        } else {
            assert(b.spec_cell(px, py) == a.spec_cell(px, py));
            assert(a.spec_cell(px, py) == a.chunks@[ci].blocks@[bi]);
        }
    }
}

} // verus!
