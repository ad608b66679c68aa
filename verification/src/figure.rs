use crate::position::Position;
use vstd::prelude::*;

verus! {

/// The kind of a figure, which fixes its base point value.
#[derive(Debug, Clone, Copy, PartialEq, Eq, Structural)]
pub enum FigureType {
    Normal,
    Special,
}

/// A named piece archetype: a 9x9 relative movement/attack table, an
/// assigned starting square, and a kind.
///
/// The table is keyed by the offset `(dx, dy)` from the piece's own square:
/// offset `(dx, dy)` with both components in `[-4, 4]` maps to table cell
/// `[4 - dx][4 - dy]`, and a cell value of 1 marks a reachable offset. The
/// same convention serves both movement and attack checks.
#[derive(Debug)]
pub struct Figure {
    pub name: String,
    pub pattern: [[u8; 9]; 9],
    pub start_position: Position,
    pub fig_type: FigureType,
}

/// Two figures agree on everything observable: name text, pattern table,
/// starting square and kind.
pub open spec fn figure_same(a: Figure, b: Figure) -> bool {
    &&& a.name@ == b.name@
    &&& a.pattern == b.pattern
    &&& a.start_position == b.start_position
    &&& a.fig_type == b.fig_type
}

/// The figure with the same name, pattern and kind, but a new starting
/// square.
pub open spec fn figure_with_start(f: Figure, p: Position) -> Figure {
    Figure { name: f.name, pattern: f.pattern, start_position: p, fig_type: f.fig_type }
}

impl Clone for Figure {
    fn clone(&self) -> (r: Self)
        ensures
            r == *self,
    {
        Figure {
            name: self.name.clone(),
            pattern: self.pattern,
            start_position: self.start_position,
            fig_type: self.fig_type,
        }
    }
}

impl Figure {
    pub fn new(name: String, pattern: [[u8; 9]; 9], start_position: Position, fig_type: FigureType) -> (r: Self)
        ensures
            r == (Figure { name, pattern, start_position, fig_type }),
    {
        Figure { name, pattern, start_position, fig_type }
    }

    /// Get the figure with an updated starting square.
    pub fn starting_at(&mut self, position: Position) -> (r: Self)
        ensures
            *final(self) == figure_with_start(*old(self), position),
            r == *final(self),
    {
        self.start_position = position;
        self.clone()
    }

    /// Get the figure's kind.
    pub fn fig_type(&self) -> (r: &FigureType)
        ensures
            *r == self.fig_type,
    {
        &self.fig_type
    }

    /// Get the figure's name.
    pub fn name(&self) -> (r: &str)
        ensures
            r@ == self.name@,
    {
        self.name.as_str()
    }

    /// Get the figure's starting square.
    pub fn start_position(&self) -> (r: Position)
        ensures
            r == self.start_position,
    {
        self.start_position
    }

    /// Get the figure's pattern table.
    pub fn pattern(&self) -> (r: [[u8; 9]; 9])
        ensures
            r == self.pattern,
    {
        self.pattern
    }
}

} // verus!
