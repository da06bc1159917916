//! Single cells of a grid.
use vstd::prelude::*;
use vstd::std_specs::convert::FromSpecImpl;

use crate::util::random::random_bool;
use crate::util::tri::{tri_not, tri_of_bool, TriState};

verus! {

/// A simple cell that can be either `on` or `off`.
#[derive(Clone, Copy, Debug, PartialEq, Eq, Structural, Hash, PartialOrd, Ord)]
pub struct BasicCell(pub bool);

impl BasicCell {
    /// Creates a new [`BasicCell`] with the given value.
    pub fn new(value: bool) -> (r: Self)
        ensures
            r.0 == value,
    {
        Self(value)
    }

    /// Creates a [`BasicCell`] that is `on`.
    pub fn on() -> (r: Self)
        ensures
            r.0,
    {
        Self(true)
    }

    /// Creates a [`BasicCell`] that is `off`.
    pub fn off() -> (r: Self)
        ensures
            !r.0,
    {
        Self(false)
    }

    /// Sets the state of this [`BasicCell`] to the given `value`.
    pub fn set_state(&mut self, value: bool)
        ensures
            final(self).0 == value,
    {
        self.0 = value;
    }

    /// Gets the state of this [`BasicCell`].
    pub fn state(self) -> (r: bool)
        ensures
            r == self.0,
    {
        self.0
    }

    /// Returns `true` if this [`BasicCell`] is `off`.
    pub fn is_off(self) -> (r: bool)
        ensures
            r == !self.0,
    {
        !self.state()
    }

    /// Returns `true` if this [`BasicCell`] is `on`.
    pub fn is_on(self) -> (r: bool)
        ensures
            r == self.0,
    {
        self.state()
    }

    /// Flips the state of this [`BasicCell`].
    pub fn toggle(&mut self)
        ensures
            final(self).0 == !old(self).0,
    {
        self.0 = !self.0;
    }
}

impl Default for BasicCell {
    /// Creates a default (*off*) [`BasicCell`].
    fn default() -> (r: Self)
        ensures
            !r.0,
    {
        Self::off()
    }
}

/// A cell that can be `on`, `off`, or `invalid`, holding a [`TriState`].
#[derive(Clone, Copy, Debug, PartialEq, Eq, Structural, Hash, PartialOrd, Ord)]
pub struct TriCell(pub TriState);

impl TriCell {
    /// Creates a new [`TriCell`] with the given value.
    pub fn new(value: TriState) -> (r: Self)
        ensures
            r.0 == value,
    {
        Self(value)
    }

    /// Creates a [`TriCell`] that is `on`.
    pub fn on() -> (r: Self)
        ensures
            r.0 == TriState::True,
    {
        Self(TriState::True)
    }

    /// Creates a [`TriCell`] that is `off`.
    pub fn off() -> (r: Self)
        ensures
            r.0 == TriState::False,
    {
        Self(TriState::False)
    }

    /// Creates a [`TriCell`] that is `invalid`.
    pub fn invalid() -> (r: Self)
        ensures
            r.0 == TriState::Invalid,
    {
        Self(TriState::Invalid)
    }

    /// Creates a [`TriCell`] with a random valid state.
    pub fn random() -> (r: Self)
        ensures
            r.0 != TriState::Invalid,
    {
        let b = random_bool();
        Self(TriState::from(b))
    }

    /// Get the current state of this [`TriCell`].
    pub fn state(self) -> (r: TriState)
        ensures
            r == self.0,
    {
        self.0
    }

    /// Sets the current state of this [`TriCell`] to the given `value`.
    pub fn set_state(&mut self, value: TriState)
        ensures
            final(self).0 == value,
    {
        self.0 = value;
    }

    /// Set this cell to a random valid state.
    pub fn set_random(&mut self)
        ensures
            final(self).0 != TriState::Invalid,
    {
        let b = random_bool();
        self.0 = TriState::from(b);
    }

    /// Returns true if this [`TriCell`] is `off`.
    pub fn is_off(self) -> (r: bool)
        ensures
            r == (self.0 == TriState::False),
    {
        self.state() == TriState::False
    }

    /// Returns true if this [`TriCell`] is `on`.
    pub fn is_on(self) -> (r: bool)
        ensures
            r == (self.0 == TriState::True),
    {
        self.state() == TriState::True
    }

    /// Returns `true` if this [`TriCell`] is `on` or `off`, but not `invalid`.
    pub fn is_valid(self) -> (r: bool)
        ensures
            r == (self.0 != TriState::Invalid),
    {
        self.state() != TriState::Invalid
    }

    /// Returns `true` if this [`TriCell`] is `invalid`.
    pub fn is_invalid(self) -> (r: bool)
        ensures
            r == (self.0 == TriState::Invalid),
    {
        !self.is_valid()
    }

    /// Flips the state of this [`TriCell`]; `invalid` is kept as is.
    pub fn toggle(&mut self)
        ensures
            final(self).0 == tri_not(old(self).0),
    {
        self.0 = self.0.toggle();
    }
}

impl Default for TriCell {
    /// Creates a default (***invalid***) [`TriCell`].
    fn default() -> (r: Self)
        ensures
            r.0 == TriState::Invalid,
    {
        Self::invalid()
    }
}

impl From<BasicCell> for TriCell {
    fn from(cell: BasicCell) -> (r: Self) {
        if cell.is_on() {
            Self::on()
        } else {
            Self::off()
        }
    }
}

impl FromSpecImpl<BasicCell> for TriCell {
    open spec fn obeys_from_spec() -> bool {
        true
    }

    open spec fn from_spec(cell: BasicCell) -> Self {
        TriCell(tri_of_bool(cell.0))
    }
}

impl From<TriCell> for BasicCell {
    /// Lossy conversion: `invalid` becomes `off`.
    fn from(cell: TriCell) -> (r: Self) {
        if cell.is_on() {
            Self::on()
        } else {
            Self::off()
        }
    }
}

impl FromSpecImpl<TriCell> for BasicCell {
    open spec fn obeys_from_spec() -> bool {
        true
    }

    open spec fn from_spec(cell: TriCell) -> Self {
        BasicCell(cell.0 == TriState::True)
    }
}

/// A tile in a grid of tiles.
#[derive(Clone, Copy, Debug, PartialEq, Eq, Structural, Hash, PartialOrd, Ord)]
pub enum Tile {
    /// A tile that is `invalid`.
    Invalid,
    /// A tile that is a floor, or walkable.
    Floor,
    /// A tile that is a wall, or not walkable.
    Wall,
}

/// Swaps `Floor` and `Wall`; `Invalid` stays `Invalid`.
pub open spec fn tile_toggle(t: Tile) -> Tile {
    match t {
        Tile::Invalid => Tile::Invalid,
        Tile::Floor => Tile::Wall,
        Tile::Wall => Tile::Floor,
    }
}

/// The tile of a boolean: `true` is a wall, `false` a floor.
pub open spec fn tile_of_bool(b: bool) -> Tile {
    if b { Tile::Wall } else { Tile::Floor }
}

impl Tile {
    /// A random valid tile.
    pub fn random() -> (r: Self)
        ensures
            r != Tile::Invalid,
    {
        if random_bool() {
            Tile::Wall
        } else {
            Tile::Floor
        }
    }

    /// Swaps `Floor` and `Wall`; `Invalid` stays `Invalid`.
    pub fn toggle(self) -> (r: Self)
        ensures
            r == tile_toggle(self),
    {
        match self {
            Tile::Invalid => Tile::Invalid,
            Tile::Floor => Tile::Wall,
            Tile::Wall => Tile::Floor,
        }
    }
}

impl From<bool> for Tile {
    fn from(b: bool) -> (r: Self) {
        if b {
            Tile::Wall
        } else {
            Tile::Floor
        }
    }
}

impl FromSpecImpl<bool> for Tile {
    open spec fn obeys_from_spec() -> bool {
        true
    }

    open spec fn from_spec(b: bool) -> Self {
        tile_of_bool(b)
    }
}

/// A cell holding a [`Tile`].
#[derive(Clone, Copy, Debug, PartialEq, Eq, Structural, Hash, PartialOrd, Ord)]
pub struct TileCell(pub Tile);

impl TileCell {
    /// Get the current state of this [`TileCell`].
    pub fn state(self) -> (r: Tile)
        ensures
            r == self.0,
    {
        self.0
    }

    /// Sets the current state of this [`TileCell`] to the given `value`.
    pub fn set_state(&mut self, value: Tile)
        ensures
            final(self).0 == value,
    {
        self.0 = value;
    }

    /// Set this cell to a random valid tile.
    pub fn set_random(&mut self)
        ensures
            final(self).0 != Tile::Invalid,
    {
        self.0 = Tile::random();
    }

    /// Returns true if this [`TileCell`] is a floor.
    pub fn is_off(self) -> (r: bool)
        ensures
            r == (self.0 == Tile::Floor),
    {
        self.state() == Tile::Floor
    }

    /// Returns true if this [`TileCell`] is a wall.
    pub fn is_on(self) -> (r: bool)
        ensures
            r == (self.0 == Tile::Wall),
    {
        self.state() == Tile::Wall
    }

    /// Returns `true` if this [`TileCell`] is not `invalid`.
    pub fn is_valid(self) -> (r: bool)
        ensures
            r == (self.0 != Tile::Invalid),
    {
        self.state() != Tile::Invalid
    }

    /// Returns `true` if this [`TileCell`] is `invalid`.
    pub fn is_invalid(self) -> (r: bool)
        ensures
            r == (self.0 == Tile::Invalid),
    {
        !self.is_valid()
    }

    /// Swaps floor and wall; `invalid` is kept as is.
    pub fn toggle(&mut self)
        ensures
            final(self).0 == tile_toggle(old(self).0),
    {
        self.0 = self.0.toggle();
    }
}

/// A single cell, or block, in a grid.
pub trait MapBlock {
    /// The inner type representing the state of this cell.
    type StateType;

    /// The state of this cell, as the contracts see it.
    spec fn block_state(&self) -> Self::StateType;

    /// Set the current state of this cell.
    fn set_state(&mut self, state: Self::StateType)
        ensures
            final(self).block_state() == state,
    ;

    /// Get the current state of this cell.
    fn state(&self) -> (r: Self::StateType)
        ensures
            r == self.block_state(),
    ;

    /// Toggle the current state of this cell.
    fn toggle(&mut self);

    /// Checks whether this cell matches the state given.
    fn is_state(&self, state: Self::StateType) -> (r: bool)
        ensures
            r == (self.block_state() == state),
    ;
}

impl MapBlock for TriCell {
    type StateType = TriState;

    open spec fn block_state(&self) -> TriState {
        self.0
    }

    fn set_state(&mut self, state: TriState) {
        self.0 = state;
    }

    fn state(&self) -> (r: TriState) {
        self.0
    }

    fn toggle(&mut self)
        ensures
            final(self).0 == tri_not(old(self).0),
    {
        self.0 = self.0.toggle();
    }

    fn is_state(&self, state: TriState) -> (r: bool) {
        self.0 == state
    }
}

impl MapBlock for TileCell {
    type StateType = Tile;

    open spec fn block_state(&self) -> Tile {
        self.0
    }

    fn set_state(&mut self, state: Tile) {
        self.0 = state;
    }

    fn state(&self) -> (r: Tile) {
        self.0
    }

    fn toggle(&mut self)
        ensures
            final(self).0 == tile_toggle(old(self).0),
    {
        self.0 = self.0.toggle();
    }

    fn is_state(&self, state: Tile) -> (r: bool) {
        self.0 == state
    }
}

} // verus!
