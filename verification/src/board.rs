use crate::entity::{damaged_points, spec_new_entity, Entity};
use crate::figure::Figure;
use crate::player::Player;
use crate::position::Position;
use vstd::prelude::*;

verus! {

/// Flat index of the square `(x, y)` in a board's cell sequence.
pub open spec fn cell_index(x: int, y: int) -> int {
    x * 16 + y
}

/// The cell sequence of a board with no entity placed.
pub open spec fn empty_cells() -> Seq<Option<Entity>> {
    Seq::new(256, |i: int| None)
}

/// The cell of `s` at square `(x, y)`.
pub open spec fn seq_at(s: Seq<Option<Entity>>, x: int, y: int) -> Option<Entity>
    recommends
        0 <= x < 16,
        0 <= y < 16,
        s.len() == 256,
{
    s[cell_index(x, y)]
}

/// One fully resolved board state: a 16x16 grid holding at most one entity
/// per cell, stored row-major by x.
#[derive(Debug)]
pub struct Board {
    pub cells: Vec<Option<Entity>>,
}

impl View for Board {
    type V = Seq<Option<Entity>>;

    open spec fn view(&self) -> Seq<Option<Entity>> {
        self.cells@
    }
}

impl Board {
    /// The grid has exactly one slot per square.
    pub open spec fn sized(self) -> bool {
        self@.len() == 256
    }

    /// The cell at square `(x, y)`.
    pub open spec fn at(self, x: int, y: int) -> Option<Entity>
        recommends
            0 <= x < 16,
            0 <= y < 16,
            self.sized(),
    {
        seq_at(self@, x, y)
    }

    /// The cell at a position value.
    pub open spec fn at_pos(self, p: Position) -> Option<Entity>
        recommends
            p.valid(),
            self.sized(),
    {
        self.at(p.x as int, p.y as int)
    }

    /// Well-formedness: every stored entity's own position matches the
    /// square that holds it. Together with the grid shape this rules out
    /// one entity standing in two cells.
    pub open spec fn wf(self) -> bool {
        &&& self.sized()
        &&& forall|x: int, y: int|
            0 <= x < 16 && 0 <= y < 16 ==> ((#[trigger] self.at(x, y)) matches Some(e)
                ==> e.position.x == x && e.position.y == y)
    }
}

/// Where a figure enters the board: its assigned square, mirrored for the
/// second player.
pub open spec fn spawn_target(figure: Figure, reverse: bool) -> Position {
    if reverse {
        figure.start_position.spec_reverse()
    } else {
        figure.start_position
    }
}

/// The cell sequence after one spawn attempt: the entity is placed on the
/// target square unless the square is off the board or already taken, in
/// which case the spawn is dropped and nothing changes.
pub open spec fn spawn_result(s: Seq<Option<Entity>>, owner: u128, figure: Figure, reverse: bool) -> Seq<
    Option<Entity>,
> {
    let p = spawn_target(figure, reverse);
    if figure.start_position.valid() && seq_at(s, p.x as int, p.y as int) is None {
        s.update(cell_index(p.x as int, p.y as int), Some(spec_new_entity(0, owner, figure, p)))
    } else {
        s
    }
}

/// The cell sequence after spawning the first `k` figures of a roster in
/// order.
pub open spec fn spawn_all(
    s: Seq<Option<Entity>>,
    owner: u128,
    figs: Seq<Figure>,
    reverse: bool,
    k: int,
) -> Seq<Option<Entity>>
    decreases k,
{
    if k <= 0 {
        s
    } else {
        spawn_result(spawn_all(s, owner, figs, reverse, k - 1), owner, figs[k - 1], reverse)
    }
}

/// A legal move on `s`: both squares on the board, the source occupied, the
/// target free, and the occupant's pattern reaching the target.
pub open spec fn seq_can_move(s: Seq<Option<Entity>>, current: Position, target: Position) -> bool {
    &&& current.valid()
    &&& target.valid()
    &&& seq_at(s, current.x as int, current.y as int) is Some
    &&& seq_at(s, target.x as int, target.y as int) is None
    &&& seq_at(s, current.x as int, current.y as int).unwrap().spec_can_reach(target)
}

/// The cell sequence after a validated move: the occupant is carried from
/// the source square to the target square, its stored position updated; an
/// illegal submission leaves the sequence unchanged.
pub open spec fn seq_move(s: Seq<Option<Entity>>, current: Position, target: Position) -> Seq<
    Option<Entity>,
> {
    if seq_can_move(s, current, target) {
        let e = seq_at(s, current.x as int, current.y as int).unwrap();
        s.update(cell_index(current.x as int, current.y as int), None).update(
            cell_index(target.x as int, target.y as int),
            Some(Entity { position: target, ..e }),
        )
    } else {
        s
    }
}

/// An illegal submission — target occupied, unreachable from the source
/// occupant's pattern, or off the board — leaves the board unchanged.
pub proof fn lemma_move_noop(s: Seq<Option<Entity>>, current: Position, target: Position)
    requires
        !seq_can_move(s, current, target),
    ensures
        seq_move(s, current, target) == s,
{
}

/// An entity standing anywhere can strike the square `(x, y)`.
pub open spec fn reach_cell(a: Entity, x: int, y: int) -> bool {
    a.spec_can_reach(Position { x: x as u8, y: y as u8 })
}

/// Total attack value aimed at square `(x, y)` by the entities in the first
/// `k` cells of `s`.
pub open spec fn incoming_upto(s: Seq<Option<Entity>>, x: int, y: int, k: int) -> int
    decreases k,
{
    if k <= 0 {
        0
    } else {
        incoming_upto(s, x, y, k - 1) + (match s[k - 1] {
            Some(a) => if reach_cell(a, x, y) {
                a.points as int
            } else {
                0
            },
            None => 0,
        })
    }
}

/// Total attack value aimed at square `(x, y)` by every entity on the board.
pub open spec fn incoming(s: Seq<Option<Entity>>, x: int, y: int) -> int {
    incoming_upto(s, x, y, 256)
}

/// Number of entities among the first `k` cells that belong to `owner` and
/// still carry a positive point value.
pub open spec fn live_upto(s: Seq<Option<Entity>>, owner: u128, k: int) -> int
    decreases k,
{
    if k <= 0 {
        0
    } else {
        live_upto(s, owner, k - 1) + (match s[k - 1] {
            Some(e) => if e.owner_id == owner && e.points > 0 {
                1int
            } else {
                0int
            },
            None => 0int,
        })
    }
}

/// Number of entities of `owner` on the board with a positive point value.
pub open spec fn spec_live_count(s: Seq<Option<Entity>>, owner: u128) -> int {
    live_upto(s, owner, 256)
}

/// Well-formedness depends only on the cell sequence: a board sharing its
/// view with a well-formed board is well-formed.
pub proof fn lemma_wf_from_view(a: Board, b: Board)
    requires
        a.wf(),
        a@ == b@,
    ensures
        b.wf(),
{
    assert forall|x: int, y: int| 0 <= x < 16 && 0 <= y < 16 implies ((#[trigger] b.at(x, y))
        matches Some(e) ==> e.position.x == x && e.position.y == y) by {
        assert(a.at(x, y) matches Some(e) ==> e.position.x == x && e.position.y == y);
    };
}

/// Clone one grid cell.
pub(crate) fn clone_cell(c: &Option<Entity>) -> (r: Option<Entity>)
    ensures
        r == *c,
{
    match c {
        None => None,
        Some(e) => Some(e.clone()),
    }
}

impl Clone for Board {
    fn clone(&self) -> (r: Self)
        ensures
            r@ == self@,
    {
        let n = self.cells.len();
        let mut cells: Vec<Option<Entity>> = Vec::new();
        let mut k: usize = 0;
        while k < n
            invariant
                n == self.cells@.len(),
                k <= n,
                cells@.len() == k,
                forall|i: int| 0 <= i < k ==> cells@[i] == self.cells@[i],
            decreases n - k,
        {
            cells.push(clone_cell(&self.cells[k]));
            k = k + 1;
        }
        proof {
            assert(cells@ =~= self.cells@);
        }
        Board { cells }
    }
}

impl Board {
    /// The flat index of a valid position.
    fn flat_index(p: Position) -> (i: usize)
        requires
            p.valid(),
        ensures
            i == cell_index(p.x as int, p.y as int),
            i < 256,
    {
        p.x as usize * 16 + p.y as usize
    }

    /// A board with no entity placed.
    pub fn empty() -> (r: Self)
        ensures
            r@ == empty_cells(),
            r.wf(),
    {
        let mut cells: Vec<Option<Entity>> = Vec::new();
        let mut k: usize = 0;
        while k < 256
            invariant
                k <= 256,
                cells@.len() == k,
                forall|i: int| 0 <= i < k ==> cells@[i] is None,
            decreases 256 - k,
        {
            cells.push(None);
            k = k + 1;
        }
        proof {
            assert(cells@ =~= empty_cells());
        }
        Board { cells }
    }

    /// Whether the square at `position` is occupied.
    pub fn is_taken(&self, position: Position) -> (r: bool)
        requires
            self.sized(),
            position.valid(),
        ensures
            r == (self.at_pos(position) is Some),
    {
        let i = Self::flat_index(position);
        self.cells[i].is_some()
    }

    /// Place a fresh entity for `player` on the figure's starting square,
    /// mirrored to the opposing side when `reverse` holds. A spawn aimed at
    /// an occupied or off-board square is silently dropped: that figure
    /// never enters play.
    pub fn spawn(&mut self, player: &Player, figure: Figure, reverse: bool)
        requires
            old(self).sized(),
        ensures
            final(self)@ == spawn_result(old(self)@, player.id, figure, reverse),
            final(self).sized(),
            old(self).wf() ==> final(self).wf(),
    {
        if !figure.start_position().is_valid() {
            return ;
        }
        let pos = if reverse {
            figure.start_position().reverse()
        } else {
            figure.start_position()
        };
        let i = Self::flat_index(pos);
        if self.cells[i].is_some() {
            return ;
        }
        let e = Entity::new(0, player.id, figure, pos);
        self.cells[i] = Some(e);
        proof {
            if old(self).wf() {
                assert forall|x: int, y: int| 0 <= x < 16 && 0 <= y < 16 implies ((#[trigger] self.at(
                    x,
                    y,
                )) matches Some(en) ==> en.position.x == x && en.position.y == y) by {
                    assert(old(self).at(x, y) matches Some(en) ==> en.position.x == x
                        && en.position.y == y);
                };
            }
        }
    }

    /// Carry the occupant of `current` to `target` if the move is legal;
    /// any illegal submission leaves the board unchanged, never an error.
    pub fn move_entity(&mut self, current: Position, target: Position)
        requires
            old(self).sized(),
        ensures
            final(self)@ == seq_move(old(self)@, current, target),
            final(self).sized(),
            old(self).wf() ==> final(self).wf(),
    {
        if !current.is_valid() || !target.is_valid() {
            return ;
        }
        let ci = Self::flat_index(current);
        let ti = Self::flat_index(target);
        if self.cells[ti].is_some() {
            return ;
        }
        let reachable = match &self.cells[ci] {
            None => false,
            Some(e) => e.can_reach(target),
        };
        if !reachable {
            return ;
        }
        let taken = self.cells[ci].take();
        if let Some(mut moved) = taken {
            moved.position = target;
            self.cells[ti] = Some(moved);
        }
        proof {
            if old(self).wf() {
                assert forall|x: int, y: int| 0 <= x < 16 && 0 <= y < 16 implies ((#[trigger] self.at(
                    x,
                    y,
                )) matches Some(en) ==> en.position.x == x && en.position.y == y) by {
                    assert(old(self).at(x, y) matches Some(en) ==> en.position.x == x
                        && en.position.y == y);
                };
            }
        }
    }

    /// Mirror the grid across its main diagonal. The stored entity
    /// positions are left as they were: this is a view transform for the
    /// renderer, not a game move.
    pub fn transpose(&mut self)
        requires
            old(self).sized(),
        ensures
            final(self).sized(),
            forall|x: int, y: int|
                0 <= x < 16 && 0 <= y < 16 ==> #[trigger] final(self).at(x, y) == old(self).at(y, x),
    {
        let mut out: Vec<Option<Entity>> = Vec::new();
        let mut x: usize = 0;
        while x < 16
            invariant
                self@.len() == 256,
                x <= 16,
                out@.len() == 16 * x,
                forall|a: int, b: int|
                    0 <= a < 16 && 0 <= b < 16 && a * 16 + b < out@.len() ==> out@[a * 16 + b]
                        == seq_at(self@, b, a),
            decreases 16 - x,
        {
            let mut y: usize = 0;
            while y < 16
                invariant
                    self@.len() == 256,
                    x < 16,
                    y <= 16,
                    out@.len() == 16 * x + y,
                    forall|a: int, b: int|
                        0 <= a < 16 && 0 <= b < 16 && a * 16 + b < out@.len() ==> out@[a * 16 + b]
                            == seq_at(self@, b, a),
                decreases 16 - y,
            {
                out.push(clone_cell(&self.cells[y * 16 + x]));
                y = y + 1;
            }
            x = x + 1;
        }
        self.cells = out;
    }

    /// Reverse the order of the rows. As with `transpose`, a view transform
    /// only.
    pub fn reverse_rows(&mut self)
        requires
            old(self).sized(),
        ensures
            final(self).sized(),
            forall|x: int, y: int|
                0 <= x < 16 && 0 <= y < 16 ==> #[trigger] final(self).at(x, y) == old(self).at(
                    15 - x,
                    y,
                ),
    {
        let mut out: Vec<Option<Entity>> = Vec::new();
        let mut x: usize = 0;
        while x < 16
            invariant
                self@.len() == 256,
                x <= 16,
                out@.len() == 16 * x,
                forall|a: int, b: int|
                    0 <= a < 16 && 0 <= b < 16 && a * 16 + b < out@.len() ==> #[trigger] seq_at(
                        out@,
                        a,
                        b,
                    ) == seq_at(self@, 15 - a, b),
            decreases 16 - x,
        {
            let mut y: usize = 0;
            while y < 16
                invariant
                    self@.len() == 256,
                    x < 16,
                    y <= 16,
                    out@.len() == 16 * x + y,
                    forall|a: int, b: int|
                        0 <= a < 16 && 0 <= b < 16 && a * 16 + b < out@.len() ==> #[trigger] seq_at(
                            out@,
                            a,
                            b,
                        ) == seq_at(self@, 15 - a, b),
                decreases 16 - y,
            {
                let ghost prev = out@;
                out.push(clone_cell(&self.cells[(15 - x) * 16 + y]));
                proof {
                    assert forall|a: int, b: int|
                        0 <= a < 16 && 0 <= b < 16 && a * 16 + b < out@.len() implies #[trigger] seq_at(
                        out@,
                        a,
                        b,
                    ) == seq_at(self@, 15 - a, b) by {
                        if a * 16 + b < prev.len() {
                            assert(seq_at(prev, a, b) == seq_at(self@, 15 - a, b));
                            assert(out@[a * 16 + b] == prev[a * 16 + b]);
                        } else {
                            assert(a == x && b == y);
                        }
                    };
                }
                y = y + 1;
            }
            x = x + 1;
        }
        self.cells = out;
    }

    /// Rotate the grid a quarter turn, the transform the renderer uses to
    /// print rows from the top label down.
    pub fn rotate90(&mut self)
        requires
            old(self).sized(),
        ensures
            final(self).sized(),
            forall|x: int, y: int|
                0 <= x < 16 && 0 <= y < 16 ==> #[trigger] final(self).at(x, y) == old(self).at(
                    y,
                    15 - x,
                ),
    {
        let ghost orig = *self;
        self.transpose();
        self.reverse_rows();
        proof {
            assert forall|x: int, y: int| 0 <= x < 16 && 0 <= y < 16 implies #[trigger] self.at(
                x,
                y,
            ) == orig.at(y, 15 - x) by {
            }
        }
    }

    /// Number of this owner's entities still carrying a positive point
    /// value.
    pub fn live_count(&self, owner: u128) -> (n: usize)
        requires
            self.sized(),
        ensures
            n == spec_live_count(self@, owner),
    {
        let mut n: usize = 0;
        let mut k: usize = 0;
        while k < 256
            invariant
                self@.len() == 256,
                k <= 256,
                n <= k,
                n == live_upto(self@, owner, k as int),
            decreases 256 - k,
        {
            match &self.cells[k] {
                Some(e) => {
                    if e.owner_id == owner && e.points > 0 {
                        n = n + 1;
                    }
                },
                None => {},
            }
            k = k + 1;
        }
        n
    }

    /// Initialize a board with both players' rosters: the first player's
    /// figures on their assigned squares, the second player's mirrored to
    /// the opposing side. Colliding spawns after the first are dropped.
    pub fn init(p0: Player, p1: Player) -> (r: Self)
        ensures
            r@ == spawn_all(
                spawn_all(empty_cells(), p0.id, p0.set@, false, 8),
                p1.id,
                p1.set@,
                true,
                8,
            ),
            r.wf(),
    {
        let mut arena = Board::empty();
        let mut i: usize = 0;
        while i < 8
            invariant
                arena.sized(),
                arena.wf(),
                i <= 8,
                arena@ == spawn_all(empty_cells(), p0.id, p0.set@, false, i as int),
            decreases 8 - i,
        {
            arena.spawn(&p0, p0.set[i].clone(), false);
            i = i + 1;
        }
        let ghost after_first = arena@;
        let mut j: usize = 0;
        while j < 8
            invariant
                arena.sized(),
                arena.wf(),
                j <= 8,
                arena@ == spawn_all(after_first, p1.id, p1.set@, true, j as int),
            decreases 8 - j,
        {
            arena.spawn(&p1, p1.set[j].clone(), true);
            j = j + 1;
        }
        arena
    }

    /// Apply every entity's pattern as an attack: each occupied, reachable
    /// square takes damage equal to the attacker's point value. All strikes
    /// are counted against the state on entry, so the sweep is simultaneous
    /// and order-free; values are clamped at zero. Ownership is not
    /// consulted: a piece in range is struck whether friend or foe, which
    /// mirrors the game's rule that a pattern marks attacked squares, not
    /// enemies.
    pub fn update_points(&mut self)
        requires
            old(self).wf(),
        ensures
            final(self).sized(),
            final(self).wf(),
            forall|x: int, y: int|
                0 <= x < 16 && 0 <= y < 16 ==> #[trigger] final(self).at(x, y) == (match old(
                    self,
                ).at(x, y) {
                    None => None::<Entity>,
                    Some(e) => Some(
                        Entity {
                            points: damaged_points(e.points, incoming(old(self)@, x, y)),
                            ..e
                        },
                    ),
                }),
    {
        let ghost orig = self@;
        // First pass: total attack aimed at each square, against the state
        // on entry.
        let mut dmg: Vec<u32> = Vec::new();
        let mut x: usize = 0;
        while x < 16
            invariant
                self@ == orig,
                self@.len() == 256,
                x <= 16,
                dmg@.len() == 16 * x,
                forall|a: int, b: int|
                    0 <= a < 16 && 0 <= b < 16 && a * 16 + b < dmg@.len() ==> dmg@[a * 16 + b]
                        == incoming(orig, a, b),
            decreases 16 - x,
        {
            let mut y: usize = 0;
            while y < 16
                invariant
                    self@ == orig,
                    self@.len() == 256,
                    x < 16,
                    y <= 16,
                    dmg@.len() == 16 * x + y,
                    forall|a: int, b: int|
                        0 <= a < 16 && 0 <= b < 16 && a * 16 + b < dmg@.len() ==> dmg@[a * 16 + b]
                            == incoming(orig, a, b),
                decreases 16 - y,
            {
                let target = Position { x: x as u8, y: y as u8 };
                let mut acc: u32 = 0;
                let mut k: usize = 0;
                while k < 256
                    invariant
                        self@ == orig,
                        self@.len() == 256,
                        x < 16,
                        y < 16,
                        target == (Position { x: x as u8, y: y as u8 }),
                        k <= 256,
                        acc <= 255 * k,
                        acc == incoming_upto(orig, x as int, y as int, k as int),
                    decreases 256 - k,
                {
                    match &self.cells[k] {
                        Some(a) => {
                            if a.can_reach(target) {
                                acc = acc + a.points as u32;
                            }
                        },
                        None => {},
                    }
                    k = k + 1;
                }
                dmg.push(acc);
                y = y + 1;
            }
            x = x + 1;
        }
        // Second pass: apply the totals.
        let mut x2: usize = 0;
        while x2 < 16
            invariant
                self@.len() == 256,
                dmg@.len() == 256,
                forall|a: int, b: int|
                    0 <= a < 16 && 0 <= b < 16 ==> dmg@[a * 16 + b] == incoming(orig, a, b),
                x2 <= 16,
                forall|a: int, b: int|
                    0 <= a < 16 && 0 <= b < 16 && a * 16 + b < 16 * x2 ==> #[trigger] seq_at(
                        self@,
                        a,
                        b,
                    ) == (match seq_at(orig, a, b) {
                        None => None::<Entity>,
                        Some(e) => Some(
                            Entity { points: damaged_points(e.points, incoming(orig, a, b)), ..e },
                        ),
                    }),
                forall|a: int, b: int|
                    0 <= a < 16 && 0 <= b < 16 && a * 16 + b >= 16 * x2 ==> #[trigger] seq_at(
                        self@,
                        a,
                        b,
                    ) == seq_at(orig, a, b),
            decreases 16 - x2,
        {
            let mut y2: usize = 0;
            while y2 < 16
                invariant
                    self@.len() == 256,
                    dmg@.len() == 256,
                    forall|a: int, b: int|
                        0 <= a < 16 && 0 <= b < 16 ==> dmg@[a * 16 + b] == incoming(orig, a, b),
                    x2 < 16,
                    y2 <= 16,
                    forall|a: int, b: int|
                        0 <= a < 16 && 0 <= b < 16 && a * 16 + b < 16 * x2 + y2 ==> #[trigger] seq_at(
                            self@,
                            a,
                            b,
                        ) == (match seq_at(orig, a, b) {
                            None => None::<Entity>,
                            Some(e) => Some(
                                Entity {
                                    points: damaged_points(e.points, incoming(orig, a, b)),
                                    ..e
                                },
                            ),
                        }),
                    forall|a: int, b: int|
                        0 <= a < 16 && 0 <= b < 16 && a * 16 + b >= 16 * x2 + y2 ==> #[trigger] seq_at(
                            self@,
                            a,
                            b,
                        ) == seq_at(orig, a, b),
                decreases 16 - y2,
            {
                let i: usize = x2 * 16 + y2;
                let d = dmg[i];
                let ghost prev = self@;
                let taken = self.cells[i].take();
                match taken {
                    None => {},
                    Some(mut e) => {
                        let np: u8 = if (e.points as u32) > d {
                            (e.points as u32 - d) as u8
                        } else {
                            0
                        };
                        e.points = np;
                        self.cells[i] = Some(e);
                    },
                }
                proof {
                    assert forall|a: int, b: int|
                        0 <= a < 16 && 0 <= b < 16 && a * 16 + b < 16 * x2 + y2 + 1 implies #[trigger] seq_at(
                        self@,
                        a,
                        b,
                    ) == (match seq_at(orig, a, b) {
                        None => None::<Entity>,
                        Some(e2) => Some(
                            Entity { points: damaged_points(e2.points, incoming(orig, a, b)), ..e2 },
                        ),
                    }) by {
                        if a * 16 + b < i {
                            assert(seq_at(prev, a, b) == (match seq_at(orig, a, b) {
                                None => None::<Entity>,
                                Some(e2) => Some(
                                    Entity {
                                        points: damaged_points(e2.points, incoming(orig, a, b)),
                                        ..e2
                                    },
                                ),
                            }));
                            assert(self@[a * 16 + b] == prev[a * 16 + b]);
                        } else {
                            assert(a == x2 && b == y2);
                            assert(seq_at(prev, a, b) == seq_at(orig, a, b));
                            assert(dmg@[a * 16 + b] == incoming(orig, a, b));
                        }
                    };
                    assert forall|a: int, b: int|
                        0 <= a < 16 && 0 <= b < 16 && a * 16 + b >= 16 * x2 + y2 + 1 implies #[trigger] seq_at(
                        self@,
                        a,
                        b,
                    ) == seq_at(orig, a, b) by {
                        assert(seq_at(prev, a, b) == seq_at(orig, a, b));
                        assert(self@[a * 16 + b] == prev[a * 16 + b]);
                    };
                }
                y2 = y2 + 1;
            }
            x2 = x2 + 1;
        }
        proof {
            assert forall|x: int, y: int| 0 <= x < 16 && 0 <= y < 16 implies #[trigger] self.at(
                x,
                y,
            ) matches Some(e) ==> e.position.x == x && e.position.y == y by {
                assert(seq_at(orig, x, y) == old(self).at(x, y));
            }
        }
    }
}

} // verus!
