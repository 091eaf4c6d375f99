//! Blocks: the registry, block definitions and the six faces.
//!
//! A block is an index into a registry, not an enumeration: adding a block touches no engine code.

use crate::text::{decimal, push_decimal};
use vstd::prelude::*;

verus! {

/// A kind of block: an index into the [`BlockRegistry`] that handed it out.
#[derive(Debug, Clone, Copy, PartialEq, Eq, Hash, PartialOrd, Ord, Structural)]
pub struct BlockId(u16);

impl BlockId {
    /// The registry index, as a mathematical number.
    pub closed spec fn id(self) -> nat {
        self.0 as nat
    }

    /// Air, as a mathematical value.
    pub closed spec fn spec_air() -> BlockId {
        BlockId(0)
    }

    /// Whether this is air: the block at index 0.
    pub open spec fn spec_is_air(self) -> bool {
        self.id() == 0
    }

    /// Air: never drawn, hides no face, always at index 0.
    #[verifier::when_used_as_spec(spec_air)]
    pub fn air() -> (id: BlockId)
        ensures
            id == BlockId::air(),
            id.id() == 0,
    {
        BlockId(0)
    }

    /// Registry index.
    pub fn index(self) -> (index: usize)
        ensures
            index == self.id(),
            index <= u16::MAX,
    {
        self.0 as usize
    }

    /// Whether this is air.
    #[verifier::when_used_as_spec(spec_is_air)]
    pub fn is_air(self) -> (air: bool)
        ensures
            air == self.is_air(),
            air == (self == BlockId::air()),
    {
        self.0 == 0
    }

    /// `block#N`, where `N` is the registry index.
    pub open spec fn shown(self) -> Seq<char> {
        "block#"@ + decimal(self.id())
    }

    /// Prints the block as `block#N`.
    pub fn display(self) -> (s: String)
        ensures
            s@ == self.shown(),
    {
        let mut s = "block#".to_owned();
        push_decimal(&mut s, self.0 as u64);
        s
    }
}

/// Two blocks with the same index are the same block.
pub proof fn block_is_its_index(a: BlockId, b: BlockId)
    requires
        a.id() == b.id(),
    ensures
        a == b,
{
}

/// Air has index 0.
pub proof fn air_is_index_zero()
    ensures
        BlockId::air().id() == 0,
{
}

impl Default for BlockId {
    fn default() -> (id: Self)
        ensures
            id == BlockId::air(),
    {
        BlockId::air()
    }
}

/// One face of a block. The order of the variants is the order of [`Face::index`].
#[derive(Debug, Clone, Copy, PartialEq, Eq, Hash, Structural)]
pub enum Face {
    PosX,
    NegX,
    PosY,
    NegY,
    PosZ,
    NegZ,
}

impl Face {
    /// The face with ordinal `i`.
    pub open spec fn nth(i: int) -> Face {
        if i == 0 { Face::PosX } else if i == 1 { Face::NegX } else if i == 2 { Face::PosY }
        else if i == 3 { Face::NegY } else if i == 4 { Face::PosZ } else { Face::NegZ }
    }

    /// The face's ordinal.
    pub open spec fn ordinal(self) -> int {
        match self {
            Face::PosX => 0,
            Face::NegX => 1,
            Face::PosY => 2,
            Face::NegY => 3,
            Face::PosZ => 4,
            Face::NegZ => 5,
        }
    }

    /// The axis that the face is perpendicular to.
    pub open spec fn axis(self) -> int {
        self.ordinal() / 2
    }

    /// Whether the face looks in the positive direction of its axis.
    pub open spec fn positive(self) -> bool {
        self.ordinal() % 2 == 0
    }

    /// Component `axis` of the face's unit normal.
    pub open spec fn normal_at(self, axis: int) -> int {
        if axis != self.axis() { 0 } else if self.positive() { 1 } else { -1 }
    }

    /// The six faces in the order of [`Face::index`].
    pub fn all() -> (faces: [Face; 6])
        ensures
            forall|i: int| 0 <= i < 6 ==> #[trigger] faces@[i] == Face::nth(i),
    {
        [Face::PosX, Face::NegX, Face::PosY, Face::NegY, Face::PosZ, Face::NegZ]
    }

    /// Ordinal of the face, 0..6.
    pub fn index(self) -> (index: usize)
        ensures
            index == self.ordinal(),
            index < 6,
            Face::nth(index as int) == self,
    {
        match self {
            Face::PosX => 0,
            Face::NegX => 1,
            Face::PosY => 2,
            Face::NegY => 3,
            Face::PosZ => 4,
            Face::NegZ => 5,
        }
    }

    /// Integer step along the normal: to the adjacent block, or the adjacent chunk.
    pub fn step(self) -> (step: [i32; 3])
        ensures
            forall|axis: int| 0 <= axis < 3 ==> #[trigger] step@[axis] == self.normal_at(axis),
    {
        match self {
            Face::PosX => [1, 0, 0],
            Face::NegX => [-1, 0, 0],
            Face::PosY => [0, 1, 0],
            Face::NegY => [0, -1, 0],
            Face::PosZ => [0, 0, 1],
            Face::NegZ => [0, 0, -1],
        }
    }
}

/// Atlas tiles of the six faces, in the order of [`Face::index`].
#[derive(Debug, Clone, Copy, PartialEq, Eq)]
pub struct FaceTiles(pub [u16; 6]);

impl FaceTiles {
    /// The tile of one face.
    pub open spec fn tile(self, face: Face) -> u16 {
        self.0@[face.ordinal()]
    }

    /// The same tile on all six faces.
    pub fn uniform(tile: u16) -> (tiles: Self)
        ensures
            forall|face: Face| #[trigger] tiles.tile(face) == tile,
    {
        FaceTiles([tile; 6])
    }

    /// The tile of one face.
    pub fn get(self, face: Face) -> (tile: u16)
        ensures
            tile == self.tile(face),
    {
        self.0[face.index()]
    }
}

/// Definition of a block.
#[derive(Debug, Clone, PartialEq, Eq)]
pub struct BlockDef {
    /// Stable name: saves, scripts and materials go by it.
    pub key: &'static str,
    /// Solid blocks hide each other's faces; others (air) do not.
    pub solid: bool,
    /// Atlas tiles of the six faces.
    pub tiles: FaceTiles,
}

/// Hands out [`BlockId`]s and looks definitions up. Air takes index 0.
pub struct BlockRegistry {
    defs: Vec<BlockDef>,
}

impl View for BlockRegistry {
    type V = Seq<BlockDef>;

    closed spec fn view(&self) -> Seq<BlockDef> {
        self.defs@
    }
}

impl BlockRegistry {
    /// Index 0 holds air, which is not solid.
    pub open spec fn holds_air(&self) -> bool {
        self@.len() > 0 && self@[0].key@ == "air"@ && !self@[0].solid
    }

    /// Whether `id` can be looked up here.
    pub open spec fn defines(&self, id: BlockId) -> bool {
        id.id() < self@.len()
    }

    /// A registry with only air in it.
    pub fn new() -> (registry: Self)
        ensures
            registry@.len() == 1,
            registry.holds_air(),
            forall|face: Face| #[trigger] registry@[0].tiles.tile(face) == 0,
    {
        let mut defs: Vec<BlockDef> = Vec::new();
        defs.push(BlockDef { key: "air", solid: false, tiles: FaceTiles::uniform(0) });
        BlockRegistry { defs }
    }

    /// Registers a block and returns its id: the number of blocks before it, as 16 bits.
    pub fn register(&mut self, def: BlockDef) -> (id: BlockId)
        ensures
            id.id() == old(self)@.len() % 0x1_0000,
            final(self)@ == old(self)@.push(def),
            old(self).holds_air() ==> final(self).holds_air(),
    {
        let n: usize = self.defs.len();
        assert(n as u16 == n % 0x1_0000) by (bit_vector);
        let id = BlockId(#[verifier::truncate] (n as u16));
        self.defs.push(def);
        id
    }

    /// The definition of a block that this registry handed out.
    pub fn get(&self, id: BlockId) -> (def: &BlockDef)
        requires
            self.defines(id),
        ensures
            *def == self@[id.id() as int],
    {
        &self.defs[id.index()]
    }

    /// Number of kinds of block, air among them.
    pub fn len(&self) -> (n: usize)
        ensures
            n == self@.len(),
    {
        self.defs.len()
    }

    /// Whether there is only air.
    pub fn is_empty(&self) -> (empty: bool)
        ensures
            empty == (self@.len() <= 1),
    {
        self.defs.len() <= 1
    }
}

impl Default for BlockRegistry {
    fn default() -> (registry: Self)
        ensures
            registry@.len() == 1,
            registry.holds_air(),
            forall|face: Face| #[trigger] registry@[0].tiles.tile(face) == 0,
    {
        BlockRegistry::new()
    }
}

/// The blocks that terrain is made of, resolved from a registry by the application.
#[derive(Debug, Clone, Copy, PartialEq, Eq)]
pub struct BlockPalette {
    pub stone: BlockId,
    pub dirt: BlockId,
    pub grass: BlockId,
}

/// The six faces look along the six directions, each as it is named, and are told apart by their ordinals.
pub proof fn faces_look_as_they_are_named(face: Face, i: int)
    ensures
        Face::PosX.normal_at(0) == 1 && Face::PosX.normal_at(1) == 0 && Face::PosX.normal_at(2) == 0,
        Face::NegX.normal_at(0) == -1 && Face::NegX.normal_at(1) == 0 && Face::NegX.normal_at(2) == 0,
        Face::PosY.normal_at(0) == 0 && Face::PosY.normal_at(1) == 1 && Face::PosY.normal_at(2) == 0,
        Face::NegY.normal_at(0) == 0 && Face::NegY.normal_at(1) == -1 && Face::NegY.normal_at(2) == 0,
        Face::PosZ.normal_at(0) == 0 && Face::PosZ.normal_at(1) == 0 && Face::PosZ.normal_at(2) == 1,
        Face::NegZ.normal_at(0) == 0 && Face::NegZ.normal_at(1) == 0 && Face::NegZ.normal_at(2) == -1,
        0 <= face.ordinal() < 6 && Face::nth(face.ordinal()) == face,
        0 <= i < 6 ==> Face::nth(i).ordinal() == i,
{
}

} // verus!
