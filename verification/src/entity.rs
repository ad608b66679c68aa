use crate::figure::{figure_same, Figure, FigureType};
use crate::position::Position;
use vstd::prelude::*;

verus! {

/// Whether a placed piece is still in play.
#[derive(Debug, Clone, Copy, PartialEq, Eq, Structural)]
pub enum State {
    Alive,
    Dead,
}

/// A placed piece instance: an owner, a figure, a board square and a point
/// value that starts at the figure's base value and only ever decreases.
#[derive(Debug)]
pub struct Entity {
    pub id: u8,
    pub owner_id: u128,
    pub state: State,
    pub figure: Figure,
    pub position: Position,
    pub points: u8,
}

/// The point value an entity of the given kind starts with.
pub open spec fn base_points(t: FigureType) -> u8 {
    match t {
        FigureType::Normal => 16,
        FigureType::Special => 32,
    }
}

/// The entity produced by `Entity::new`.
pub open spec fn spec_new_entity(id: u8, owner_id: u128, figure: Figure, position: Position) -> Entity {
    Entity {
        id,
        owner_id,
        state: State::Alive,
        points: base_points(figure.fig_type),
        figure,
        position,
    }
}

/// Two entities agree on everything observable, the figure's name text
/// included.
pub open spec fn entity_same(a: Entity, b: Entity) -> bool {
    &&& a.id == b.id
    &&& a.owner_id == b.owner_id
    &&& a.state == b.state
    &&& figure_same(a.figure, b.figure)
    &&& a.position == b.position
    &&& a.points == b.points
}

/// The point value left after taking `dmg` damage: clamped at zero, never
/// wrapping.
pub open spec fn damaged_points(points: u8, dmg: int) -> u8 {
    if points - dmg >= 0 {
        (points - dmg) as u8
    } else {
        0
    }
}

/// An ASCII uppercase letter mapped to lowercase; any other character
/// unchanged.
pub open spec fn spec_ascii_lower(c: char) -> char {
    if 65 <= c as int && c as int <= 90 {
        ((c as int + 32) as char)
    } else {
        c
    }
}

/// An ASCII lowercase letter mapped to uppercase; any other character
/// unchanged.
pub open spec fn spec_ascii_upper(c: char) -> char {
    if 97 <= c as int && c as int <= 122 {
        ((c as int - 32) as char)
    } else {
        c
    }
}

/// Relies on char::to_ascii_lowercase: ASCII uppercase letters map to their
/// lowercase counterpart, every other character comes back unchanged.
#[verifier::external_body]
fn ascii_lower(c: char) -> (r: char)
    ensures
        r == spec_ascii_lower(c),
{
    c.to_ascii_lowercase()
}

/// Relies on char::to_ascii_uppercase: ASCII lowercase letters map to their
/// uppercase counterpart, every other character comes back unchanged.
#[verifier::external_body]
fn ascii_upper(c: char) -> (r: char)
    ensures
        r == spec_ascii_upper(c),
{
    c.to_ascii_uppercase()
}

/// Relies on char's ToString impl: the string holds exactly the one
/// character.
#[verifier::external_body]
pub(crate) fn char_to_string(c: char) -> (r: String)
    ensures
        r@ == seq![c],
{
    c.to_string()
}

/// Decide `entity_same` on two entities.
pub fn entity_eq(a: &Entity, b: &Entity) -> (r: bool)
    ensures
        r == entity_same(*a, *b),
{
    if a.id != b.id {
        return false;
    }
    if a.owner_id != b.owner_id {
        return false;
    }
    if a.state != b.state {
        return false;
    }
    if a.position != b.position {
        return false;
    }
    if a.points != b.points {
        return false;
    }
    if a.figure.fig_type != b.figure.fig_type {
        return false;
    }
    if a.figure.start_position != b.figure.start_position {
        return false;
    }
    if !(a.figure.name == b.figure.name) {
        return false;
    }
    let mut i: usize = 0;
    while i < 9
        invariant
            i <= 9,
            forall|r: int, c: int|
                0 <= r < i && 0 <= c < 9 ==> a.figure.pattern[r][c] == b.figure.pattern[r][c],
        decreases 9 - i,
    {
        let mut j: usize = 0;
        while j < 9
            invariant
                i < 9,
                j <= 9,
                forall|r: int, c: int|
                    0 <= r < i && 0 <= c < 9 ==> a.figure.pattern[r][c] == b.figure.pattern[r][c],
                forall|c: int| 0 <= c < j ==> a.figure.pattern[i as int][c] == b.figure.pattern[i as int][c],
            decreases 9 - j,
        {
            if a.figure.pattern[i][j] != b.figure.pattern[i][j] {
                return false;
            }
            j = j + 1;
        }
        i = i + 1;
    }
    proof {
        assert forall|r: int| 0 <= r < 9 implies a.figure.pattern[r] == b.figure.pattern[r] by {
            assert(a.figure.pattern[r] =~= b.figure.pattern[r]);
        };
        assert(a.figure.pattern =~= b.figure.pattern);
    }
    true
}

impl Clone for Entity {
    fn clone(&self) -> (r: Self)
        ensures
            r == *self,
    {
        Entity {
            id: self.id,
            owner_id: self.owner_id,
            state: self.state,
            figure: self.figure.clone(),
            position: self.position,
            points: self.points,
        }
    }
}

impl Entity {
    /// The one-character rendering of this entity: the first letter of the
    /// figure's name, lowercase for a Normal figure, uppercase for a Special
    /// one.
    pub open spec fn spec_symbol(self) -> char {
        match self.fig_type_spec() {
            FigureType::Normal => spec_ascii_lower(self.figure.name@[0]),
            FigureType::Special => spec_ascii_upper(self.figure.name@[0]),
        }
    }

    /// Helper naming the figure kind of this entity.
    pub open spec fn fig_type_spec(self) -> FigureType {
        self.figure.fig_type
    }

    /// The entity can step or strike from its own square to `target`: the
    /// offset lies within the pattern table's range and the table marks it.
    pub open spec fn spec_can_reach(self, target: Position) -> bool {
        let dx = target.x - self.position.x;
        let dy = target.y - self.position.y;
        &&& -4 <= dx <= 4
        &&& -4 <= dy <= 4
        &&& self.figure.pattern[4 - dx][4 - dy] == 1
    }

    pub fn new(id: u8, owner_id: u128, figure: Figure, position: Position) -> (r: Self)
        ensures
            r == spec_new_entity(id, owner_id, figure, position),
    {
        let points: u8 = match figure.fig_type() {
            FigureType::Normal => 16,
            FigureType::Special => 32,
        };
        Entity { id, owner_id, state: State::Alive, figure, position, points }
    }

    /// Deal this entity's point value as damage to `e`; `e`'s value is
    /// clamped at zero and never wraps.
    pub fn deal_dmg(&self, e: &mut Entity)
        ensures
            *final(e) == (Entity { points: damaged_points(old(e).points, self.points as int), ..*old(e) }),
    {
        if e.points >= self.points {
            e.points = e.points - self.points;
        } else {
            e.points = 0;
        }
    }

    /// The one-character rendering of this entity as a string.
    pub fn get_symbol(&self) -> (r: String)
        requires
            self.figure.name@.len() > 0,
        ensures
            r@ == seq![self.spec_symbol()],
    {
        let c = self.figure.name.as_str().get_char(0);
        let folded = match self.figure.fig_type() {
            FigureType::Normal => ascii_lower(c),
            FigureType::Special => ascii_upper(c),
        };
        char_to_string(folded)
    }

    pub fn can_reach(&self, target: Position) -> (r: bool)
        ensures
            r == self.spec_can_reach(target),
    {
        let dx: i32 = target.x as i32 - self.position.x as i32;
        let dy: i32 = target.y as i32 - self.position.y as i32;
        if -4 <= dx && dx <= 4 && -4 <= dy && dy <= 4 {
            let row: usize = (4 - dx) as usize;
            let col: usize = (4 - dy) as usize;
            self.figure.pattern[row][col] == 1
        } else {
            false
        }
    }
}

} // verus!
