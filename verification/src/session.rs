use crate::board::{
    clone_cell, empty_cells, seq_at, seq_move, spawn_all, spec_live_count, Board,
};
use crate::entity::{entity_eq, entity_same, Entity};
use crate::player::Player;
use crate::position::Position;
use vstd::prelude::*;

verus! {

/// Outcome state of a session. `Finished` carries the winning player's id.
#[derive(Debug, Clone, Copy, PartialEq, Eq, Structural)]
pub enum SessionResult {
    Finished(u128),
    Active,
    Suspended,
}

/// Cells agree up to observable entity content.
pub open spec fn opt_same(a: Option<Entity>, b: Option<Entity>) -> bool {
    match (a, b) {
        (None, None) => true,
        (Some(x), Some(y)) => entity_same(x, y),
        _ => false,
    }
}

/// The merged occupant of one square, from the baseline occupant `e0` and
/// the two candidate occupants `e1` (player A's board) and `e2` (player
/// B's board).
///
/// A square one candidate vacated and the other left alone comes out
/// empty; a square only one candidate newly occupied goes to that
/// occupant; identical candidates stand as they are. Two different
/// occupants fight: at equal point value neither moves and the baseline
/// occupant is retained; otherwise the stronger survives with the weaker's
/// value struck from its own, and the weaker is removed.
pub open spec fn merge_cell(e0: Option<Entity>, e1: Option<Entity>, e2: Option<Entity>) -> Option<
    Entity,
> {
    match (e0, e1, e2) {
        (None, None, None) => None,
        (Some(a), None, Some(x)) => if entity_same(x, a) {
            None
        } else {
            Some(x)
        },
        (Some(a), Some(x), None) => if entity_same(x, a) {
            None
        } else {
            Some(x)
        },
        (None, None, Some(x)) => Some(x),
        (None, Some(x), None) => Some(x),
        (_, Some(x), Some(y)) => if entity_same(x, y) {
            Some(x)
        } else if x.points == y.points {
            e0
        } else if x.points > y.points {
            Some(Entity { points: (x.points - y.points) as u8, ..x })
        } else {
            Some(Entity { points: (y.points - x.points) as u8, ..y })
        },
        (Some(a), None, None) => Some(a),
    }
}

/// A combat tie is order-independent: with both candidate squares occupied
/// at equal point value, swapping which candidate is labelled first leaves
/// the merged square the same — the baseline occupant is retained.
pub proof fn lemma_merge_tie_symmetric(e0: Option<Entity>, e1: Option<Entity>, e2: Option<Entity>)
    requires
        e1 is Some,
        e2 is Some,
        e1.unwrap().points == e2.unwrap().points,
    ensures
        opt_same(merge_cell(e0, e1, e2), merge_cell(e0, e2, e1)),
{
}

/// One candidate board state after applying one optional move intent: the
/// recorded entity's square is the source, the second component the
/// target.
pub open spec fn apply_intent(s: Seq<Option<Entity>>, m: Option<(Entity, Position)>) -> Seq<
    Option<Entity>,
> {
    match m {
        None => s,
        Some(p) => seq_move(s, p.0.position, p.1),
    }
}

/// The board state after applying the first `k` intents of a batch in
/// order.
pub open spec fn apply_intents_upto(
    s: Seq<Option<Entity>>,
    moves: Seq<Option<(Entity, Position)>>,
    k: int,
) -> Seq<Option<Entity>>
    decreases k,
{
    if k <= 0 {
        s
    } else {
        apply_intent(apply_intents_upto(s, moves, k - 1), moves[k - 1])
    }
}

/// Last match, in scan order, among the first `k` cells for an entity with
/// the given id.
pub open spec fn find_by_id_upto(s: Seq<Option<Entity>>, id: u8, k: int) -> Option<Entity>
    decreases k,
{
    if k <= 0 {
        None
    } else {
        match s[k - 1] {
            Some(e) => if e.id == id {
                Some(e)
            } else {
                find_by_id_upto(s, id, k - 1)
            },
            None => find_by_id_upto(s, id, k - 1),
        }
    }
}

/// The session outcome read off one board: a player without any entity of
/// positive point value has lost. If both rosters are wiped in the same
/// round the session is suspended rather than won; while both players
/// still have pieces it stays active.
pub open spec fn spec_outcome(s: Seq<Option<Entity>>, id0: u128, id1: u128) -> SessionResult {
    let a = spec_live_count(s, id0);
    let b = spec_live_count(s, id1);
    if a == 0 && b == 0 {
        SessionResult::Suspended
    } else if b == 0 {
        SessionResult::Finished(id0)
    } else if a == 0 {
        SessionResult::Finished(id1)
    } else {
        SessionResult::Active
    }
}

/// An append-only history of board snapshots plus the two players; round
/// progression only ever pushes a newly merged snapshot onto the record.
#[derive(Debug)]
pub struct Session {
    pub id: u128,
    pub players: [Player; 2],
    pub record: Vec<Board>,
    pub result: SessionResult,
}

/// The merged occupant of one square, decided.
fn merge_cell_exec(e0: &Option<Entity>, e1: &Option<Entity>, e2: &Option<Entity>) -> (r: Option<
    Entity,
>)
    ensures
        r == merge_cell(*e0, *e1, *e2),
{
    match (e0, e1, e2) {
        (None, None, None) => None,
        (Some(a), None, Some(x)) => if entity_eq(x, a) {
            None
        } else {
            Some(x.clone())
        },
        (Some(a), Some(x), None) => if entity_eq(x, a) {
            None
        } else {
            Some(x.clone())
        },
        (None, None, Some(x)) => Some(x.clone()),
        (None, Some(x), None) => Some(x.clone()),
        (_, Some(x), Some(y)) => if entity_eq(x, y) {
            Some(x.clone())
        } else if x.points == y.points {
            clone_cell(e0)
        } else if x.points > y.points {
            let mut w = x.clone();
            w.points = x.points - y.points;
            Some(w)
        } else {
            let mut w = y.clone();
            w.points = y.points - x.points;
            Some(w)
        },
        (Some(a), None, None) => Some(a.clone()),
    }
}

impl Session {
    /// The record is never empty and every snapshot in it is well-formed.
    pub open spec fn wf(self) -> bool {
        &&& self.record@.len() >= 1
        &&& forall|i: int| 0 <= i < self.record@.len() ==> (#[trigger] self.record@[i]).wf()
    }

    /// The last confirmed snapshot, the baseline of the next round.
    pub open spec fn spec_baseline(self) -> Board {
        self.record@.last()
    }

    pub fn new(players: [Player; 2]) -> (r: Self)
        ensures
            r.id == 1,
            r.players == players,
            r.record@.len() == 1,
            r.record@[0]@ == spawn_all(
                spawn_all(empty_cells(), players[0].id, players[0].set@, false, 8),
                players[1].id,
                players[1].set@,
                true,
                8,
            ),
            r.result is Active,
            r.wf(),
    {
        let arena = Board::init(players[0].clone(), players[1].clone());
        let mut record: Vec<Board> = Vec::new();
        record.push(arena);
        Session { id: 1, players, record, result: SessionResult::Active }
    }

    /// A fresh copy of the last confirmed snapshot.
    pub fn get_last_map(&self) -> (r: Board)
        requires
            self.wf(),
        ensures
            r@ == self.spec_baseline()@,
            r.wf(),
    {
        proof {
            assert(self.record@[self.record@.len() - 1].wf());
        }
        let r = self.record[self.record.len() - 1].clone();
        proof {
            crate::board::lemma_wf_from_view(self.spec_baseline(), r);
        }
        r
    }

    /// Merge the baseline with both players' candidate snapshots, square by
    /// square, into the next authoritative snapshot. Every square is
    /// decided exactly once by `merge_cell`.
    pub fn resolve_maps(&self, m1: &Board, m2: &Board) -> (r: Board)
        requires
            self.wf(),
            m1.wf(),
            m2.wf(),
        ensures
            forall|x: int, y: int|
                0 <= x < 16 && 0 <= y < 16 ==> #[trigger] r.at(x, y) == merge_cell(
                    self.spec_baseline().at(x, y),
                    m1.at(x, y),
                    m2.at(x, y),
                ),
            r.wf(),
    {
        proof {
            assert(self.record@[self.record@.len() - 1].wf());
        }
        let m0 = &self.record[self.record.len() - 1];
        let mut cells: Vec<Option<Entity>> = Vec::new();
        let mut x: usize = 0;
        while x < 16
            invariant
                m0@.len() == 256,
                m1@.len() == 256,
                m2@.len() == 256,
                m0 == self.spec_baseline(),
                x <= 16,
                cells@.len() == 16 * x,
                forall|a: int, b: int|
                    0 <= a < 16 && 0 <= b < 16 && a * 16 + b < cells@.len() ==> cells@[a * 16 + b]
                        == #[trigger] merge_cell(seq_at(m0@, a, b), seq_at(m1@, a, b), seq_at(m2@, a, b)),
            decreases 16 - x,
        {
            let mut y: usize = 0;
            while y < 16
                invariant
                    m0@.len() == 256,
                    m1@.len() == 256,
                    m2@.len() == 256,
                    m0 == self.spec_baseline(),
                    x < 16,
                    y <= 16,
                    cells@.len() == 16 * x + y,
                    forall|a: int, b: int|
                        0 <= a < 16 && 0 <= b < 16 && a * 16 + b < cells@.len() ==> cells@[a * 16
                            + b] == #[trigger] merge_cell(
                            seq_at(m0@, a, b),
                            seq_at(m1@, a, b),
                            seq_at(m2@, a, b),
                        ),
                decreases 16 - y,
            {
                let i: usize = x * 16 + y;
                cells.push(merge_cell_exec(&m0.cells[i], &m1.cells[i], &m2.cells[i]));
                y = y + 1;
            }
            x = x + 1;
        }
        let r = Board { cells };
        proof {
            assert forall|x2: int, y2: int| 0 <= x2 < 16 && 0 <= y2 < 16 implies ((
            #[trigger] r.at(x2, y2)) matches Some(e) ==> e.position.x == x2 && e.position.y
                == y2) by {
                assert(r.at(x2, y2) == merge_cell(
                    seq_at(m0@, x2, y2),
                    seq_at(m1@, x2, y2),
                    seq_at(m2@, x2, y2),
                ));
                assert(m0.at(x2, y2) matches Some(e) ==> e.position.x == x2 && e.position.y == y2);
                assert(m1.at(x2, y2) matches Some(e) ==> e.position.x == x2 && e.position.y == y2);
                assert(m2.at(x2, y2) matches Some(e) ==> e.position.x == x2 && e.position.y == y2);
            };
        }
        r
    }

    /// Build one player's candidate snapshot: apply the batch of validated
    /// move intents, in order, to a fresh copy of the baseline. Intents
    /// that are absent or illegal on the evolving copy are skipped without
    /// effect.
    pub fn submit_moves(&mut self, moves: [Option<(Entity, Position)>; 3]) -> (r: Board)
        requires
            old(self).wf(),
        ensures
            *final(self) == *old(self),
            r@ == apply_intents_upto(old(self).spec_baseline()@, moves@, 3),
            r.wf(),
    {
        let mut map = self.get_last_map();
        let mut idx: usize = 0;
        while idx < 3
            invariant
                idx <= 3,
                *self == *old(self),
                self.wf(),
                map.wf(),
                map@ == apply_intents_upto(self.spec_baseline()@, moves@, idx as int),
            decreases 3 - idx,
        {
            match &moves[idx] {
                None => {},
                Some(p) => {
                    let target = p.1;
                    map.move_entity(p.0.position, target);
                },
            }
            idx = idx + 1;
        }
        map
    }

    /// Recompute the session outcome from the last confirmed snapshot.
    pub fn update_result(&mut self)
        requires
            old(self).wf(),
        ensures
            final(self).wf(),
            final(self).id == old(self).id,
            final(self).players == old(self).players,
            final(self).record == old(self).record,
            final(self).result == spec_outcome(
                old(self).spec_baseline()@,
                old(self).players[0].id,
                old(self).players[1].id,
            ),
    {
        proof {
            assert(self.record@[self.record@.len() - 1].wf());
        }
        let last = &self.record[self.record.len() - 1];
        let a = last.live_count(self.players[0].id);
        let b = last.live_count(self.players[1].id);
        self.result = if a == 0 && b == 0 {
            SessionResult::Suspended
        } else if b == 0 {
            SessionResult::Finished(self.players[0].id)
        } else if a == 0 {
            SessionResult::Finished(self.players[1].id)
        } else {
            SessionResult::Active
        };
    }

    /// Play one full round from already-collected intent batches: build
    /// both candidate snapshots from the shared baseline, merge them
    /// exactly once, append the merged snapshot to the history and
    /// recompute the outcome. The history is only ever extended.
    pub fn calculate_round(
        &mut self,
        moves1: [Option<(Entity, Position)>; 3],
        moves2: [Option<(Entity, Position)>; 3],
    )
        requires
            old(self).wf(),
        ensures
            final(self).wf(),
            final(self).id == old(self).id,
            final(self).players == old(self).players,
            final(self).record@.len() == old(self).record@.len() + 1,
            forall|i: int|
                0 <= i < old(self).record@.len() ==> final(self).record@[i] == old(
                    self,
                ).record@[i],
            forall|x: int, y: int|
                0 <= x < 16 && 0 <= y < 16 ==> #[trigger] final(self).record@.last().at(x, y)
                    == merge_cell(
                    old(self).spec_baseline().at(x, y),
                    seq_at(apply_intents_upto(old(self).spec_baseline()@, moves1@, 3), x, y),
                    seq_at(apply_intents_upto(old(self).spec_baseline()@, moves2@, 3), x, y),
                ),
            final(self).result == spec_outcome(
                final(self).record@.last()@,
                old(self).players[0].id,
                old(self).players[1].id,
            ),
    {
        let m1 = self.submit_moves(moves1);
        let m2 = self.submit_moves(moves2);
        let new_map = self.resolve_maps(&m1, &m2);
        self.record.push(new_map);
        self.update_result();
    }

    /// The most recent entity carrying the given id, scanning the last
    /// snapshot in storage order; the id of every spawned entity is 0, so
    /// this finds the last spawned piece for id 0.
    pub fn get_entity_by_id(&self, id: u8) -> (r: Option<Entity>)
        requires
            self.wf(),
        ensures
            r == find_by_id_upto(self.spec_baseline()@, id, 256),
    {
        proof {
            assert(self.record@[self.record@.len() - 1].wf());
        }
        let last = &self.record[self.record.len() - 1];
        let mut res: Option<Entity> = None;
        let mut k: usize = 0;
        while k < 256
            invariant
                last@.len() == 256,
                last == self.spec_baseline(),
                k <= 256,
                res == find_by_id_upto(last@, id, k as int),
            decreases 256 - k,
        {
            match &last.cells[k] {
                Some(e) => {
                    if e.id == id {
                        res = Some(e.clone());
                    }
                },
                None => {},
            }
            k = k + 1;
        }
        res
    }

    /// The occupant of a square on the last confirmed snapshot; an
    /// off-board position yields nothing rather than failing.
    pub fn get_entity_by_pos(&self, position: Position) -> (r: Option<Entity>)
        requires
            self.wf(),
        ensures
            r == (if position.valid() {
                self.spec_baseline().at_pos(position)
            } else {
                None::<Entity>
            }),
    {
        if position.is_valid() {
            proof {
                assert(self.record@[self.record@.len() - 1].wf());
            }
            let last = &self.record[self.record.len() - 1];
            let i: usize = position.x() as usize * 16 + position.y() as usize;
            clone_cell(&last.cells[i])
        } else {
            None
        }
    }
}

} // verus!
