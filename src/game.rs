use vstd::prelude::*;

use crate::board::{AlreadyHitError, AttackInfo, Board};
use crate::position::Position;
use crate::ship::{valid_fleet, Ships};

verus! {

/// The attacker of the next turn after a shot that found `info`: a miss passes the
/// turn, a hit keeps it. The counter wraps at 256, which keeps its parity.
pub open spec fn next_turn(turn: u8, info: AttackInfo) -> u8 {
    match info {
        AttackInfo::Miss => ((turn + 1) % 256) as u8,
        AttackInfo::Hit(_) => turn,
    }
}

/// The turn counter after a series of shots.
pub open spec fn turn_after(turn: u8, infos: Seq<AttackInfo>) -> u8
    decreases infos.len(),
{
    if infos.len() == 0 {
        turn
    } else {
        next_turn(turn_after(turn, infos.drop_last()), infos.last())
    }
}

/// The first player attacks on even turns, the second on odd ones.
pub open spec fn first_attacks(turn: u8) -> bool {
    turn % 2 == 0
}

/// One match between two players: their connections, their boards and whose turn it
/// is. Each board holds the fleet of its player, shot at by the other.
pub struct Game<S> {
    stream1: S,
    stream2: S,
    board1: Board,
    board2: Board,
    turn: u8,
}

impl<S> Game<S> {
    pub closed spec fn stream1(self) -> S {
        self.stream1
    }

    pub closed spec fn stream2(self) -> S {
        self.stream2
    }

    pub closed spec fn board1(self) -> Board {
        self.board1
    }

    pub closed spec fn board2(self) -> Board {
        self.board2
    }

    pub closed spec fn turn(self) -> u8 {
        self.turn
    }

    /// The board being shot at this turn: the one of the side that does not attack.
    pub open spec fn defender_board(self) -> Board {
        if first_attacks(self.turn()) {
            self.board2()
        } else {
            self.board1()
        }
    }

    /// The board of the side that attacks this turn.
    pub open spec fn attacker_board(self) -> Board {
        if first_attacks(self.turn()) {
            self.board1()
        } else {
            self.board2()
        }
    }

    /// A match about to start, with both fleets placed and the first player to shoot.
    pub fn new(stream1: S, stream2: S, ships1: Ships, ships2: Ships) -> (r: Game<S>)
        ensures
            r.stream1() == stream1,
            r.stream2() == stream2,
            r.board1().fleet() == ships1.fleet(),
            r.board2().fleet() == ships2.fleet(),
            valid_fleet(r.board1().fleet()),
            valid_fleet(r.board2().fleet()),
            r.board1().targeted() == Set::<(u8, u8)>::empty(),
            r.board2().targeted() == Set::<(u8, u8)>::empty(),
            r.turn() == 0,
    {
        Game {
            board1: Board::from_ships(ships1),
            board2: Board::from_ships(ships2),
            stream1,
            stream2,
            turn: 0,
        }
    }

    /// The connections of the attacker and of the defender, in that order.
    pub fn split_player_streams(&mut self) -> (r: (&mut S, &mut S))
        ensures
            first_attacks(old(self).turn()) ==> *r.0 == old(self).stream1() && *r.1 == old(self).stream2() && final(self).stream1() == *final(r.0) && final(self).stream2()
                == *final(r.1),
            !first_attacks(old(self).turn()) ==> *r.0 == old(self).stream2() && *r.1 == old(self).stream1() && final(self).stream2() == *final(r.0) && final(self).stream1()
                == *final(r.1),
            final(self).board1() == old(self).board1(),
            final(self).board2() == old(self).board2(),
            final(self).turn() == old(self).turn(),
    {
        if self.turn % 2 == 0 {
            (&mut self.stream1, &mut self.stream2)
        } else {
            (&mut self.stream2, &mut self.stream1)
        }
    }

    /// The boards of the attacker and of the defender, in that order.
    pub fn split_player_boards(&mut self) -> (r: (&mut Board, &mut Board))
        ensures
            *r.0 == old(self).attacker_board(),
            *r.1 == old(self).defender_board(),
            first_attacks(old(self).turn()) ==> final(self).board1() == *final(r.0) && final(self).board2() == *final(r.1),
            !first_attacks(old(self).turn()) ==> final(self).board2() == *final(r.0) && final(self).board1() == *final(r.1),
            final(self).stream1() == old(self).stream1(),
            final(self).stream2() == old(self).stream2(),
            final(self).turn() == old(self).turn(),
    {
        if self.turn % 2 == 0 {
            (&mut self.board1, &mut self.board2)
        } else {
            (&mut self.board2, &mut self.board1)
        }
    }

    /// Fires the attacker's shot at the defender's board.
    pub fn target_opponent(&mut self, target: Position) -> (r: Result<AttackInfo, AlreadyHitError>)
        ensures
            final(self).turn() == old(self).turn(),
            final(self).attacker_board() == old(self).attacker_board(),
            valid_fleet(old(self).defender_board().fleet()),
            final(self).defender_board().fleet() == old(self).defender_board().fleet(),
            r is Err <==> old(self).defender_board().refuses(target),
            r is Err ==> final(self).defender_board().targeted() == old(self).defender_board().targeted(),
            r is Ok ==> final(self).defender_board().targeted() == old(self).defender_board().targeted().insert(target.coords()),
            r is Ok ==> (r == Ok::<AttackInfo, AlreadyHitError>(AttackInfo::Miss) <==> !crate::board::occupied(
                old(self).defender_board().fleet(),
                target.coords(),
            )),
            r is Ok ==> forall|j: int|
                0 <= j < 5 && #[trigger] old(self).defender_board().fleet()[j].plan().covers(
                    target.coords(),
                ) ==> r == Ok::<AttackInfo, AlreadyHitError>(
                    AttackInfo::Hit(
                        if final(self).defender_board().sunk(j) {
                            Some(old(self).defender_board().fleet()[j])
                        } else {
                            None
                        },
                    ),
                ),
            final(self).stream1() == old(self).stream1(),
            final(self).stream2() == old(self).stream2(),
    {
        let (_, defender) = self.split_player_boards();
        defender.target(target)
    }

    /// Closes a turn whose shot found `info`: a miss hands the turn over, a hit keeps
    /// it. Returns whether the match goes on; it ends when the shot sank the last ship
    /// of the defender.
    pub fn finish_turn(&mut self, info: AttackInfo) -> (r: bool)
        ensures
            final(self).turn() == next_turn(old(self).turn(), info),
            final(self).board1() == old(self).board1(),
            final(self).board2() == old(self).board2(),
            final(self).stream1() == old(self).stream1(),
            final(self).stream2() == old(self).stream2(),
            !r <==> (info matches AttackInfo::Hit(Some(_)) && old(self).defender_board().all_sunk()),
    {
        match info {
            AttackInfo::Miss => {
                self.turn = self.turn.wrapping_add(1);
                true
            },
            AttackInfo::Hit(None) => true,
            AttackInfo::Hit(Some(_)) => {
                let over = if self.turn % 2 == 0 {
                    self.board2.is_all_sunken()
                } else {
                    self.board1.is_all_sunken()
                };
                !over
            },
        }
    }
}

/// A miss hands the turn to the other player; a hit, sinking or not, keeps it.
pub proof fn lemma_turn_passing(turn: u8, info: AttackInfo)
    ensures
        info is Miss ==> first_attacks(next_turn(turn, info)) != first_attacks(turn),
        info is Hit ==> next_turn(turn, info) == turn,
{
}

/// Over a series of misses the attacker alternates every turn.
pub proof fn lemma_misses_alternate(turn: u8, infos: Seq<AttackInfo>)
    requires
        forall|i: int| 0 <= i < infos.len() ==> #[trigger] infos[i] is Miss,
    ensures
        turn_after(turn, infos) % 2 == (turn + infos.len()) % 2,
    decreases infos.len(),
{
    if infos.len() > 0 {
        let prefix = infos.drop_last();
        assert forall|i: int| 0 <= i < prefix.len() implies #[trigger] prefix[i] is Miss by {
            assert(prefix[i] == infos[i]);
        }
        lemma_misses_alternate(turn, prefix);
    }
}

/// Over a series of hits the same player keeps attacking.
pub proof fn lemma_hits_keep_attacker(turn: u8, infos: Seq<AttackInfo>)
    requires
        forall|i: int| 0 <= i < infos.len() ==> #[trigger] infos[i] is Hit,
    ensures
        turn_after(turn, infos) == turn,
    decreases infos.len(),
{
    if infos.len() > 0 {
        let prefix = infos.drop_last();
        assert forall|i: int| 0 <= i < prefix.len() implies #[trigger] prefix[i] is Hit by {
            assert(prefix[i] == infos[i]);
        }
        lemma_hits_keep_attacker(turn, prefix);
    }
}

} // verus!
