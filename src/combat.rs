//! Resolution of one attack from a tile to a neighbouring tile, and its effects.
use vstd::prelude::*;

use crate::board::{board_wf, height, in_board, width, set_tile, same_shape, tile_at, Board, Tile, TileStatus, TileType, TileView};
use crate::player::PlayerMove;

verus! {

/// What happens when a player's troops leave one tile for another.
#[derive(Debug)]
pub enum OutcomeAssault {
    /// Target and origin are the same tile, as when moving into the edge of the board.
    AttackingSameTile,
    BlockedByMountain,
    NotEnoughTroops,
    /// The origin tile no longer belongs to the player whose move this is.
    TileNotOwned,
    SelfTroopsMove,
    ConquerEmpty,
    Tie,
    /// The defender's owner, and how many attackers survive on the captured tile.
    Victory(String, usize),
    /// How many defenders remain.
    Defeat(usize),
    /// How many attackers survive on the captured neutral castle.
    VictoryCastle(usize),
}

/// `OutcomeAssault` with the loser as a character sequence.
pub enum Assault {
    AttackingSameTile,
    BlockedByMountain,
    NotEnoughTroops,
    TileNotOwned,
    SelfTroopsMove,
    ConquerEmpty,
    Tie,
    Victory(Seq<char>, usize),
    Defeat(usize),
    VictoryCastle(usize),
}

impl View for OutcomeAssault {
    type V = Assault;

    open spec fn view(&self) -> Assault {
        match self {
            OutcomeAssault::AttackingSameTile => Assault::AttackingSameTile,
            OutcomeAssault::BlockedByMountain => Assault::BlockedByMountain,
            OutcomeAssault::NotEnoughTroops => Assault::NotEnoughTroops,
            OutcomeAssault::TileNotOwned => Assault::TileNotOwned,
            OutcomeAssault::SelfTroopsMove => Assault::SelfTroopsMove,
            OutcomeAssault::ConquerEmpty => Assault::ConquerEmpty,
            OutcomeAssault::Tie => Assault::Tie,
            OutcomeAssault::Victory(l, n) => Assault::Victory(l@, *n),
            OutcomeAssault::Defeat(n) => Assault::Defeat(*n),
            OutcomeAssault::VictoryCastle(n) => Assault::VictoryCastle(*n),
        }
    }
}

/// The outcome of `attacker` moving the troops of tile `a` onto tile `d`, where `same`
/// says whether the two are one tile. One troop always stays behind on `a`.
pub open spec fn assault_outcome(attacker: Seq<char>, a: TileView, d: TileView, same: bool) -> Assault {
    let att = a.troops - 1;
    let def = d.troops as int;
    if same {
        Assault::AttackingSameTile
    } else if a.troops <= 1 {
        Assault::NotEnoughTroops
    } else if d.tile_type == TileType::Mountain {
        Assault::BlockedByMountain
    } else if a.owner != Some(attacker) {
        Assault::TileNotOwned
    } else if a.owner == d.owner {
        Assault::SelfTroopsMove
    } else if d.status == TileStatus::Occupied {
        if att == def {
            Assault::Tie
        } else if att > def {
            Assault::Victory(
                match d.owner {
                    Some(o) => o,
                    None => Seq::empty(),
                },
                (att - def) as usize,
            )
        } else {
            Assault::Defeat((def - att) as usize)
        }
    } else if d.tile_type == TileType::Castle {
        if att == def {
            Assault::Tie
        } else if att > def {
            Assault::VictoryCastle((att - def) as usize)
        } else {
            Assault::Defeat((def - att) as usize)
        }
    } else {
        Assault::ConquerEmpty
    }
}

/// Whether the attacker's cursor follows its troops onto the target.
pub open spec fn advances(o: Assault) -> bool {
    match o {
        Assault::SelfTroopsMove | Assault::ConquerEmpty | Assault::Victory(_, _)
        | Assault::VictoryCastle(_) => true,
        _ => false,
    }
}

/// Whether the outcome leaves the board as it was.
pub open spec fn is_harmless(o: Assault) -> bool {
    match o {
        Assault::AttackingSameTile | Assault::BlockedByMountain | Assault::NotEnoughTroops
        | Assault::TileNotOwned => true,
        _ => false,
    }
}

pub open spec fn in_bounds(b: Board, p: (usize, usize)) -> bool {
    p.0 < b@.len() && p.1 < b@[p.0 as int]@.len()
}

/// Decides the outcome of `real_attacker_uuid` attacking from `attacker_xy` to
/// `defender_xy`, without changing anything.
pub fn resolve_assault(
    real_attacker_uuid: &String,
    board: &Board,
    attacker_xy: (usize, usize),
    defender_xy: (usize, usize),
) -> (r: OutcomeAssault)
    requires
        in_bounds(*board, attacker_xy),
        in_bounds(*board, defender_xy),
    ensures
        r@ == assault_outcome(
            real_attacker_uuid@,
            tile_at(*board, attacker_xy.0 as int, attacker_xy.1 as int),
            tile_at(*board, defender_xy.0 as int, defender_xy.1 as int),
            attacker_xy == defender_xy,
        ),
{
    if attacker_xy.0 == defender_xy.0 && attacker_xy.1 == defender_xy.1 {
        return OutcomeAssault::AttackingSameTile;
    }
    let attacking = &board[attacker_xy.0][attacker_xy.1];
    let defending = &board[defender_xy.0][defender_xy.1];
    let nb_attacking_troops = attacking.nb_troops.saturating_sub(1);
    let nb_defending_troops = defending.nb_troops;
    if nb_attacking_troops == 0 {
        return OutcomeAssault::NotEnoughTroops;
    }
    if defending.tile_type == TileType::Mountain {
        return OutcomeAssault::BlockedByMountain;
    }
    if !attacking.is_owned_by(real_attacker_uuid) {
        return OutcomeAssault::TileNotOwned;
    }
    if defending.is_owned_by(real_attacker_uuid) {
        return OutcomeAssault::SelfTroopsMove;
    }
    match defending.status {
        TileStatus::Occupied => {
            if nb_attacking_troops == nb_defending_troops {
                OutcomeAssault::Tie
            } else if nb_attacking_troops > nb_defending_troops {
                let loser = match &defending.player_uuid {
                    Some(o) => o.clone(),
                    None => String::new(),
                };
                OutcomeAssault::Victory(loser, nb_attacking_troops - nb_defending_troops)
            } else {
                OutcomeAssault::Defeat(nb_defending_troops - nb_attacking_troops)
            }
        },
        TileStatus::Empty => {
            if defending.tile_type == TileType::Castle {
                if nb_attacking_troops == nb_defending_troops {
                    OutcomeAssault::Tie
                } else if nb_attacking_troops > nb_defending_troops {
                    OutcomeAssault::VictoryCastle(nb_attacking_troops - nb_defending_troops)
                } else {
                    OutcomeAssault::Defeat(nb_defending_troops - nb_attacking_troops)
                }
            } else {
                OutcomeAssault::ConquerEmpty
            }
        },
    }
}

/// The tile at `(x, y)` once the outcome `o` of `attacker` attacking from `a` to `d` has
/// been applied to board `b`.
pub open spec fn tile_after(
    b: Board,
    attacker: Seq<char>,
    a: (usize, usize),
    d: (usize, usize),
    o: Assault,
    x: int,
    y: int,
) -> TileView {
    let t = tile_at(b, x, y);
    let at = tile_at(b, a.0 as int, a.1 as int);
    let dt = tile_at(b, d.0 as int, d.1 as int);
    let is_a = x == a.0 && y == a.1;
    let is_d = x == d.0 && y == d.1;
    if is_harmless(o) {
        t
    } else if is_a {
        TileView { troops: 1, ..t }
    } else if is_d {
        match o {
            Assault::SelfTroopsMove => TileView {
                troops: if dt.troops + at.troops - 1 <= usize::MAX {
                    (dt.troops + at.troops - 1) as usize
                } else {
                    usize::MAX
                },
                ..t
            },
            Assault::ConquerEmpty => TileView {
                status: TileStatus::Occupied,
                tile_type: t.tile_type,
                owner: Some(attacker),
                troops: (at.troops - 1) as usize,
            },
            Assault::Tie => TileView { troops: 0, ..t },
            Assault::Victory(_, n) => TileView {
                status: TileStatus::Occupied,
                tile_type: if t.tile_type == TileType::Kingdom { TileType::Castle } else { t.tile_type },
                owner: Some(attacker),
                troops: n,
            },
            Assault::Defeat(n) => TileView { troops: n, ..t },
            Assault::VictoryCastle(n) => TileView {
                status: TileStatus::Occupied,
                tile_type: t.tile_type,
                owner: Some(attacker),
                troops: n,
            },
            _ => t,
        }
    } else {
        match o {
            Assault::Victory(loser, _) => if dt.tile_type == TileType::Kingdom && t.owner == Some(loser) {
                TileView { owner: Some(attacker), ..t }
            } else {
                t
            },
            _ => t,
        }
    }
}

/// Hands every tile of `loser` on the board to `winner`.
fn cascade(board: &mut Board, loser: &String, winner: &String)
    ensures
        same_shape(*final(board), *old(board)),
        forall|x: int, y: int|
            0 <= x < old(board)@.len() && 0 <= y < old(board)@[x]@.len() ==> #[trigger] tile_at(*final(board), x, y)
                == if tile_at(*old(board), x, y).owner == Some(loser@) {
                TileView { owner: Some(winner@), ..tile_at(*old(board), x, y) }
            } else {
                tile_at(*old(board), x, y)
            },
{
    let ghost b0 = *board;
    let mut x: usize = 0;
    while x < board.len()
        invariant
            x <= board@.len(),
            same_shape(*board, b0),
            forall|i: int, j: int|
                0 <= i < x && 0 <= j < b0@[i]@.len() ==> #[trigger] tile_at(*board, i, j)
                    == if tile_at(b0, i, j).owner == Some(loser@) {
                    TileView { owner: Some(winner@), ..tile_at(b0, i, j) }
                } else {
                    tile_at(b0, i, j)
                },
            forall|i: int, j: int|
                x <= i < b0@.len() && 0 <= j < b0@[i]@.len() ==> #[trigger] tile_at(*board, i, j) == tile_at(b0, i, j),
        decreases b0@.len() - x,
    {
        let mut y: usize = 0;
        while y < board[x].len()
            invariant
                x < board@.len(),
                y <= board@[x as int]@.len(),
                same_shape(*board, b0),
                forall|i: int, j: int|
                    0 <= i < x && 0 <= j < b0@[i]@.len() ==> #[trigger] tile_at(*board, i, j)
                        == if tile_at(b0, i, j).owner == Some(loser@) {
                        TileView { owner: Some(winner@), ..tile_at(b0, i, j) }
                    } else {
                        tile_at(b0, i, j)
                    },
                forall|j: int|
                    0 <= j < y ==> #[trigger] tile_at(*board, x as int, j)
                        == if tile_at(b0, x as int, j).owner == Some(loser@) {
                        TileView { owner: Some(winner@), ..tile_at(b0, x as int, j) }
                    } else {
                        tile_at(b0, x as int, j)
                    },
                forall|j: int|
                    y <= j < b0@[x as int]@.len() ==> #[trigger] tile_at(*board, x as int, j) == tile_at(b0, x as int, j),
                forall|i: int, j: int|
                    x < i < b0@.len() && 0 <= j < b0@[i]@.len() ==> #[trigger] tile_at(*board, i, j) == tile_at(b0, i, j),
            decreases b0@[x as int]@.len() - y,
        {
            if board[x][y].is_owned_by(loser) {
                let t = Tile {
                    status: board[x][y].status,
                    tile_type: board[x][y].tile_type,
                    player_uuid: Some(winner.clone()),
                    nb_troops: board[x][y].nb_troops,
                };
                set_tile(board, x, y, t);
            }
            y = y + 1;
        }
        x = x + 1;
    }
}

/// Applies the outcome of `attacker_uuid` attacking from `attacker_xy` to `defender_xy`,
/// as decided by `resolve_assault` on the same board.
pub fn apply_assault(
    board: &mut Board,
    attacker_uuid: &String,
    attacker_xy: (usize, usize),
    defender_xy: (usize, usize),
    outcome: &OutcomeAssault,
)
    requires
        in_bounds(*old(board), attacker_xy),
        in_bounds(*old(board), defender_xy),
        outcome@ == assault_outcome(
            attacker_uuid@,
            tile_at(*old(board), attacker_xy.0 as int, attacker_xy.1 as int),
            tile_at(*old(board), defender_xy.0 as int, defender_xy.1 as int),
            attacker_xy == defender_xy,
        ),
    ensures
        same_shape(*final(board), *old(board)),
        forall|x: int, y: int|
            0 <= x < old(board)@.len() && 0 <= y < old(board)@[x]@.len() ==> #[trigger] tile_at(*final(board), x, y)
                == tile_after(*old(board), attacker_uuid@, attacker_xy, defender_xy, outcome@, x, y),
{
    let (ax, ay) = attacker_xy;
    let (dx, dy) = defender_xy;
    let ghost b0 = *board;
    match outcome {
        OutcomeAssault::AttackingSameTile | OutcomeAssault::BlockedByMountain
        | OutcomeAssault::NotEnoughTroops | OutcomeAssault::TileNotOwned => {},
        OutcomeAssault::SelfTroopsMove => {
            let moved = board[ax][ay].nb_troops - 1;
            let t = board[dx][dy].duplicate();
            let n = t.nb_troops.saturating_add(moved);
            set_tile(board, dx, dy, Tile { nb_troops: n, ..t });
            let s = board[ax][ay].duplicate();
            set_tile(board, ax, ay, Tile { nb_troops: 1, ..s });
        },
        OutcomeAssault::ConquerEmpty => {
            let moved = board[ax][ay].nb_troops - 1;
            let t = Tile {
                status: TileStatus::Occupied,
                tile_type: board[dx][dy].tile_type,
                player_uuid: Some(attacker_uuid.clone()),
                nb_troops: moved,
            };
            set_tile(board, dx, dy, t);
            let s = board[ax][ay].duplicate();
            set_tile(board, ax, ay, Tile { nb_troops: 1, ..s });
        },
        OutcomeAssault::Tie => {
            let s = board[ax][ay].duplicate();
            set_tile(board, ax, ay, Tile { nb_troops: 1, ..s });
            let t = board[dx][dy].duplicate();
            set_tile(board, dx, dy, Tile { nb_troops: 0, ..t });
        },
        OutcomeAssault::Defeat(n) => {
            let s = board[ax][ay].duplicate();
            set_tile(board, ax, ay, Tile { nb_troops: 1, ..s });
            let t = board[dx][dy].duplicate();
            set_tile(board, dx, dy, Tile { nb_troops: *n, ..t });
        },
        OutcomeAssault::VictoryCastle(n) => {
            let s = board[ax][ay].duplicate();
            set_tile(board, ax, ay, Tile { nb_troops: 1, ..s });
            let t = Tile {
                status: TileStatus::Occupied,
                tile_type: board[dx][dy].tile_type,
                player_uuid: Some(attacker_uuid.clone()),
                nb_troops: *n,
            };
            set_tile(board, dx, dy, t);
        },
        OutcomeAssault::Victory(loser, n) => {
            let s = board[ax][ay].duplicate();
            set_tile(board, ax, ay, Tile { nb_troops: 1, ..s });
            let kingdom_fell = board[dx][dy].tile_type == TileType::Kingdom;
            let t = Tile {
                status: TileStatus::Occupied,
                tile_type: if kingdom_fell { TileType::Castle } else { board[dx][dy].tile_type },
                player_uuid: Some(attacker_uuid.clone()),
                nb_troops: *n,
            };
            set_tile(board, dx, dy, t);
            if kingdom_fell {
                let ghost b1 = *board;
                cascade(board, loser, attacker_uuid);
                assert forall|x: int, y: int|
                    0 <= x < b0@.len() && 0 <= y < b0@[x]@.len() implies #[trigger] tile_at(*board, x, y)
                        == tile_after(b0, attacker_uuid@, attacker_xy, defender_xy, outcome@, x, y) by {
                    assert(tile_at(b1, x, y) == tile_at(*board, x, y) || tile_at(b1, x, y).owner == Some(loser@));
                }
            }
        },
    }
}

/// The board is left as it was.
pub open spec fn board_kept(after: Board, before: Board) -> bool {
    &&& same_shape(after, before)
    &&& forall|x: int, y: int|
        0 <= x < before@.len() && 0 <= y < before@[x]@.len() ==> #[trigger] tile_at(after, x, y) == tile_at(before, x, y)
}

/// The board after `o`, the outcome of `attacker` attacking from `a` to `d`.
pub open spec fn board_after(after: Board, before: Board, attacker: Seq<char>, a: (usize, usize), d: (usize, usize), o: Assault) -> bool {
    &&& same_shape(after, before)
    &&& forall|x: int, y: int|
        0 <= x < before@.len() && 0 <= y < before@[x]@.len() ==> #[trigger] tile_at(after, x, y)
            == tile_after(before, attacker, a, d, o, x, y)
}

/// The target of a move from `xy`, kept on a `w` by `h` board.
pub open spec fn shifted(xy: (usize, usize), m: PlayerMove, w: int, h: int) -> (usize, usize) {
    let (x, y) = xy;
    match m {
        PlayerMove::Left => (if x == 0 { 0usize } else { (x - 1) as usize }, y),
        PlayerMove::Right => (if x + 1 < w { (x + 1) as usize } else { (w - 1) as usize }, y),
        PlayerMove::Up => (x, if y == 0 { 0usize } else { (y - 1) as usize }),
        PlayerMove::Down => (x, if y + 1 < h { (y + 1) as usize } else { (h - 1) as usize }),
    }
}

/// The coordinate that a move from `xy` aims at, clamped to the board.
pub fn move_target(xy: (usize, usize), m: PlayerMove, w: usize, h: usize) -> (r: (usize, usize))
    requires
        xy.0 < w,
        xy.1 < h,
    ensures
        r == shifted(xy, m, w as int, h as int),
        r.0 < w,
        r.1 < h,
{
    let (x, y) = xy;
    match m {
        PlayerMove::Left => (x.saturating_sub(1), y),
        PlayerMove::Right => (if x + 1 < w { x + 1 } else { w - 1 }, y),
        PlayerMove::Up => (x, y.saturating_sub(1)),
        PlayerMove::Down => (x, if y + 1 < h { y + 1 } else { h - 1 }),
    }
}

/// The troops that leave a tile for another tile of the same player all arrive: the two
/// tiles hold as many troops together after the move as before (unless the target's
/// count would pass `usize::MAX`).
pub proof fn lemma_own_move_keeps_troops(
    before: Board,
    after: Board,
    attacker: Seq<char>,
    a: (usize, usize),
    d: (usize, usize),
)
    requires
        in_bounds(before, a),
        in_bounds(before, d),
        assault_outcome(attacker, tile_at(before, a.0 as int, a.1 as int), tile_at(before, d.0 as int, d.1 as int), a == d)
            == Assault::SelfTroopsMove,
        board_after(after, before, attacker, a, d, Assault::SelfTroopsMove),
        tile_at(before, a.0 as int, a.1 as int).troops + tile_at(before, d.0 as int, d.1 as int).troops <= usize::MAX + 1,
    ensures
        tile_at(after, a.0 as int, a.1 as int).owner == Some(attacker),
        tile_at(after, d.0 as int, d.1 as int).owner == Some(attacker),
        tile_at(after, a.0 as int, a.1 as int).troops + tile_at(after, d.0 as int, d.1 as int).troops
            == tile_at(before, a.0 as int, a.1 as int).troops + tile_at(before, d.0 as int, d.1 as int).troops,
{
    assert(tile_at(after, a.0 as int, a.1 as int) == tile_after(before, attacker, a, d, Assault::SelfTroopsMove, a.0 as int, a.1 as int));
    assert(tile_at(after, d.0 as int, d.1 as int) == tile_after(before, attacker, a, d, Assault::SelfTroopsMove, d.0 as int, d.1 as int));
}

/// When a kingdom falls, its former owner keeps no tile anywhere on the board.
pub proof fn lemma_kingdom_fall_cascades(
    before: Board,
    after: Board,
    attacker: Seq<char>,
    a: (usize, usize),
    d: (usize, usize),
    loser: Seq<char>,
    survivors: usize,
)
    requires
        in_bounds(before, a),
        in_bounds(before, d),
        tile_at(before, d.0 as int, d.1 as int).owner is Some,
        tile_at(before, d.0 as int, d.1 as int).tile_type == TileType::Kingdom,
        assault_outcome(attacker, tile_at(before, a.0 as int, a.1 as int), tile_at(before, d.0 as int, d.1 as int), a == d)
            == Assault::Victory(loser, survivors),
        board_after(after, before, attacker, a, d, Assault::Victory(loser, survivors)),
    ensures
        forall|x: int, y: int|
            0 <= x < before@.len() && 0 <= y < before@[x]@.len() ==> #[trigger] tile_at(after, x, y).owner != Some(loser),
        tile_at(after, d.0 as int, d.1 as int).tile_type == TileType::Castle,
        tile_at(after, d.0 as int, d.1 as int).owner == Some(attacker),
{
    assert forall|x: int, y: int|
        0 <= x < before@.len() && 0 <= y < before@[x]@.len() implies #[trigger] tile_at(after, x, y).owner != Some(loser) by {
        assert(tile_at(after, x, y) == tile_after(before, attacker, a, d, Assault::Victory(loser, survivors), x, y));
    }
    assert(tile_at(after, d.0 as int, d.1 as int) == tile_after(before, attacker, a, d, Assault::Victory(loser, survivors), d.0 as int, d.1 as int));
}

/// A move into the edge of the board aims at the tile it starts from, and so resolves
/// as an attack on the same tile, which changes nothing.
pub proof fn lemma_edge_move_is_same_tile(b: Board, attacker: Seq<char>, xy: (usize, usize), m: PlayerMove)
    requires
        board_wf(b),
        in_board(b, xy.0 as int, xy.1 as int),
        match m {
            PlayerMove::Left => xy.0 == 0,
            PlayerMove::Right => xy.0 == width(b) - 1,
            PlayerMove::Up => xy.1 == 0,
            PlayerMove::Down => xy.1 == height(b) - 1,
        },
    ensures
        shifted(xy, m, width(b), height(b)) == xy,
        ({
            let t = tile_at(b, xy.0 as int, xy.1 as int);
            assault_outcome(attacker, t, t, true) == Assault::AttackingSameTile
        }),
        forall|after: Board| #[trigger] board_after(after, b, attacker, xy, xy, Assault::AttackingSameTile) ==> board_kept(after, b),
{
}

/// An attack from a tile that holds a single troop changes nothing.
pub proof fn lemma_no_spare_troops_no_change(
    before: Board,
    after: Board,
    attacker: Seq<char>,
    a: (usize, usize),
    d: (usize, usize),
)
    requires
        in_bounds(before, a),
        in_bounds(before, d),
        tile_at(before, a.0 as int, a.1 as int).troops <= 1,
        board_after(after, before, attacker, a, d,
            assault_outcome(attacker, tile_at(before, a.0 as int, a.1 as int), tile_at(before, d.0 as int, d.1 as int), a == d)),
    ensures
        board_kept(after, before),
{
    let o = assault_outcome(attacker, tile_at(before, a.0 as int, a.1 as int), tile_at(before, d.0 as int, d.1 as int), a == d);
    assert forall|x: int, y: int|
        0 <= x < before@.len() && 0 <= y < before@[x]@.len() implies #[trigger] tile_at(after, x, y) == tile_at(before, x, y) by {
        assert(tile_at(after, x, y) == tile_after(before, attacker, a, d, o, x, y));
    }
}

/// An attack from a tile that does not belong to the attacker (a tile taken from under
/// a queued move) changes nothing.
pub proof fn lemma_stolen_tile_no_change(
    before: Board,
    after: Board,
    attacker: Seq<char>,
    a: (usize, usize),
    d: (usize, usize),
)
    requires
        in_bounds(before, a),
        in_bounds(before, d),
        tile_at(before, a.0 as int, a.1 as int).owner != Some(attacker),
        board_after(after, before, attacker, a, d,
            assault_outcome(attacker, tile_at(before, a.0 as int, a.1 as int), tile_at(before, d.0 as int, d.1 as int), a == d)),
    ensures
        board_kept(after, before),
        !advances(assault_outcome(attacker, tile_at(before, a.0 as int, a.1 as int), tile_at(before, d.0 as int, d.1 as int), a == d)),
{
    let o = assault_outcome(attacker, tile_at(before, a.0 as int, a.1 as int), tile_at(before, d.0 as int, d.1 as int), a == d);
    assert forall|x: int, y: int|
        0 <= x < before@.len() && 0 <= y < before@[x]@.len() implies #[trigger] tile_at(after, x, y) == tile_at(before, x, y) by {
        assert(tile_at(after, x, y) == tile_after(before, attacker, a, d, o, x, y));
    }
}

} // verus!
