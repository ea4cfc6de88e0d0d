//! One tick of a running game: troop growth, moves, scores, per-player views and the
//! end-of-game check.
use vstd::prelude::*;

use crate::board::{
    board_wf, height, in_board, same_shape, set_tile, tile_at, width, Board, Tile,
    TileStatus, TileType, TileView,
};
use crate::combat::{
    advances, board_after, board_kept, apply_assault, assault_outcome, move_target, resolve_assault, shifted,
    OutcomeAssault,
};
use crate::constants::{TICK_BLANK, TICK_CASTLE, TICK_KINGDOM};
use crate::lobby::{is_member, members_unique, Lobby};
use crate::messages::{fogged, revealed, GameUpdate, PlayerScore, TileUpdate};
use crate::player::{find_player, first_player, players_unique, Color, Player, PlayerMove};

verus! {

/// Whether an occupied tile of type `ty` gains a troop on tick `t`.
pub open spec fn grows_on(ty: TileType, t: usize) -> bool {
    match ty {
        TileType::Kingdom => t % TICK_KINGDOM == 0,
        TileType::Castle => t % TICK_CASTLE == 0,
        TileType::Blank => t % TICK_BLANK == 0,
        TileType::Mountain => false,
    }
}

/// `n + 1`, kept at `usize::MAX` once it is reached.
pub open spec fn sat_inc(n: usize) -> usize {
    if n < usize::MAX { (n + 1) as usize } else { n }
}

/// A tile after troop growth on tick `t`.
pub open spec fn grown(tv: TileView, t: usize) -> TileView {
    if tv.status == TileStatus::Occupied && grows_on(tv.tile_type, t) {
        TileView { troops: sat_inc(tv.troops), ..tv }
    } else {
        tv
    }
}

fn grows(ty: TileType, t: usize) -> (r: bool)
    ensures
        r == grows_on(ty, t),
{
    match ty {
        TileType::Kingdom => t % TICK_KINGDOM == 0,
        TileType::Castle => t % TICK_CASTLE == 0,
        TileType::Blank => t % TICK_BLANK == 0,
        TileType::Mountain => false,
    }
}

/// Adds a troop to every occupied tile whose type produces one on tick `tick`.
pub fn grow_troops(board: &mut Board, tick: usize)
    ensures
        same_shape(*final(board), *old(board)),
        forall|x: int, y: int|
            0 <= x < old(board)@.len() && 0 <= y < old(board)@[x]@.len() ==> #[trigger] tile_at(*final(board), x, y)
                == grown(tile_at(*old(board), x, y), tick),
{
    let ghost b0 = *board;
    let mut x: usize = 0;
    while x < board.len()
        invariant
            x <= board@.len(),
            same_shape(*board, b0),
            forall|i: int, j: int|
                0 <= i < x && 0 <= j < b0@[i]@.len() ==> #[trigger] tile_at(*board, i, j) == grown(tile_at(b0, i, j), tick),
            forall|i: int, j: int|
                x <= i < b0@.len() && 0 <= j < b0@[i]@.len() ==> #[trigger] tile_at(*board, i, j) == tile_at(b0, i, j),
        decreases b0@.len() - x,
    {
        let mut y: usize = 0;
        while y < board[x].len()
            invariant
                x < board@.len(),
                y <= board@[x as int]@.len(),
                same_shape(*board, b0),
                forall|i: int, j: int|
                    0 <= i < x && 0 <= j < b0@[i]@.len() ==> #[trigger] tile_at(*board, i, j) == grown(tile_at(b0, i, j), tick),
                forall|j: int| 0 <= j < y ==> #[trigger] tile_at(*board, x as int, j) == grown(tile_at(b0, x as int, j), tick),
                forall|j: int| y <= j < b0@[x as int]@.len() ==> #[trigger] tile_at(*board, x as int, j) == tile_at(b0, x as int, j),
                forall|i: int, j: int|
                    x < i < b0@.len() && 0 <= j < b0@[i]@.len() ==> #[trigger] tile_at(*board, i, j) == tile_at(b0, i, j),
            decreases b0@[x as int]@.len() - y,
        {
            if board[x][y].status == TileStatus::Occupied && grows(board[x][y].tile_type, tick) {
                let t = board[x][y].duplicate();
                let n = t.nb_troops.saturating_add(1);
                set_tile(board, x, y, Tile { nb_troops: n, ..t });
            }
            y = y + 1;
        }
        x = x + 1;
    }
}

/// The board effect of one turn of player `u`, standing at `xy` with `queue` waiting:
/// nothing without a move or off the board, else the attack towards the target.
pub open spec fn turn_effect(before: Board, after: Board, u: Seq<char>, xy: (usize, usize), queue: Seq<PlayerMove>) -> bool {
    if queue.len() == 0 || !in_board(before, xy.0 as int, xy.1 as int) {
        board_kept(after, before)
    } else {
        let target = shifted(xy, queue[0], width(before), height(before));
        board_after(
            after,
            before,
            u,
            xy,
            target,
            assault_outcome(
                u,
                tile_at(before, xy.0 as int, xy.1 as int),
                tile_at(before, target.0 as int, target.1 as int),
                xy == target,
            ),
        )
    }
}

/// Where the cursor of player `u`, standing at `xy` with `queue` waiting, is after its
/// turn: on the target when its troops advance, where it was otherwise.
pub open spec fn turn_cursor(before: Board, u: Seq<char>, xy: (usize, usize), queue: Seq<PlayerMove>) -> (usize, usize) {
    if queue.len() == 0 || !in_board(before, xy.0 as int, xy.1 as int) {
        xy
    } else {
        let target = shifted(xy, queue[0], width(before), height(before));
        if advances(
            assault_outcome(
                u,
                tile_at(before, xy.0 as int, xy.1 as int),
                tile_at(before, target.0 as int, target.1 as int),
                xy == target,
            ),
        ) {
            target
        } else {
            xy
        }
    }
}

/// Plays the next queued move of `player` on the board: the move leaves the queue, the
/// attack it stands for is resolved and applied, and the player's cursor follows its
/// troops when they advance. A cursor that lies off the board plays nothing.
pub fn play_turn(board: &mut Board, player: &mut Player) -> (r: Option<OutcomeAssault>)
    requires
        board_wf(*old(board)),
    ensures
        final(player).uuid == old(player).uuid,
        final(player).name == old(player).name,
        final(player).playing_in_lobby == old(player).playing_in_lobby,
        final(player).color == old(player).color,
        final(player).queued_moves@ == if old(player).queued_moves@.len() > 0 {
            old(player).queued_moves@.drop_first()
        } else {
            old(player).queued_moves@
        },
        ({
            let xy = old(player).xy;
            let w = width(*old(board));
            let h = height(*old(board));
            if old(player).queued_moves@.len() == 0 || !in_board(*old(board), xy.0 as int, xy.1 as int) {
                &&& r is None
                &&& board_kept(*final(board), *old(board))
                &&& final(player).xy == xy
            } else {
                let target = shifted(xy, old(player).queued_moves@[0], w, h);
                &&& r matches Some(o) && o@ == assault_outcome(
                    old(player).uuid@,
                    tile_at(*old(board), xy.0 as int, xy.1 as int),
                    tile_at(*old(board), target.0 as int, target.1 as int),
                    xy == target,
                )
                &&& board_after(*final(board), *old(board), old(player).uuid@, xy, target, r->0@)
                &&& final(player).xy == if advances(r->0@) { target } else { xy }
            }
        }),
        in_board(*old(board), old(player).xy.0 as int, old(player).xy.1 as int)
            ==> in_board(*final(board), final(player).xy.0 as int, final(player).xy.1 as int),
        turn_effect(*old(board), *final(board), old(player).uuid@, old(player).xy, old(player).queued_moves@),
        final(player).xy == turn_cursor(*old(board), old(player).uuid@, old(player).xy, old(player).queued_moves@),
{
    let next = player.queued_moves.pop_front();
    match next {
        None => None,
        Some(m) => {
            let w = board.len();
            let h = board[0].len();
            let (x, y) = player.xy;
            if x >= w || y >= h {
                return None;
            }
            assert(board@[x as int]@.len() == h);
            let target = move_target(player.xy, m, w, h);
            assert(board@[target.0 as int]@.len() == h);
            let outcome = resolve_assault(&player.uuid, board, player.xy, target);
            apply_assault(board, &player.uuid, player.xy, target, &outcome);
            let advance = match &outcome {
                OutcomeAssault::SelfTroopsMove | OutcomeAssault::ConquerEmpty
                | OutcomeAssault::Victory(_, _) | OutcomeAssault::VictoryCastle(_) => true,
                _ => false,
            };
            if advance {
                player.xy = target;
            }
            Some(outcome)
        },
    }
}

/// `a + b`, kept at `usize::MAX` once it is reached.
pub open spec fn sat_add(a: int, b: int) -> usize {
    if a + b <= usize::MAX { (a + b) as usize } else { usize::MAX }
}

/// Tiles among the first `n` of column `x` that `u` owns, and the troops on them.
pub open spec fn column_holdings(b: Board, u: Seq<char>, x: int, n: int) -> (int, int)
    decreases n,
{
    if n <= 0 {
        (0, 0)
    } else {
        let (p, t) = column_holdings(b, u, x, n - 1);
        let tv = tile_at(b, x, n - 1);
        if tv.owner == Some(u) { (p + 1, t + tv.troops) } else { (p, t) }
    }
}

/// Tiles among the first `m` columns that `u` owns, and the troops on them.
pub open spec fn holdings_upto(b: Board, u: Seq<char>, m: int) -> (int, int)
    decreases m,
{
    if m <= 0 {
        (0, 0)
    } else {
        let (p, t) = holdings_upto(b, u, m - 1);
        let (cp, ct) = column_holdings(b, u, m - 1, b@[m - 1]@.len() as int);
        (p + cp, t + ct)
    }
}

/// How many tiles of the board `u` owns, and how many troops stand on them.
pub open spec fn holdings(b: Board, u: Seq<char>) -> (int, int) {
    holdings_upto(b, u, b@.len() as int)
}

proof fn lemma_column_holdings_nonneg(b: Board, u: Seq<char>, x: int, n: int)
    ensures
        column_holdings(b, u, x, n).0 >= 0,
        column_holdings(b, u, x, n).1 >= 0,
    decreases n,
{
    if n > 0 {
        lemma_column_holdings_nonneg(b, u, x, n - 1);
    }
}

proof fn lemma_holdings_nonneg(b: Board, u: Seq<char>, m: int)
    ensures
        holdings_upto(b, u, m).0 >= 0,
        holdings_upto(b, u, m).1 >= 0,
    decreases m,
{
    if m > 0 {
        lemma_holdings_nonneg(b, u, m - 1);
        lemma_column_holdings_nonneg(b, u, m - 1, b@[m - 1]@.len() as int);
    }
}

/// Counts the tiles that `uuid` owns on the board and the troops on them (each count
/// kept at `usize::MAX` once it is reached).
pub fn tally_owner(board: &Board, uuid: &String) -> (r: (usize, usize))
    ensures
        r.0 == sat_add(holdings(*board, uuid@).0, 0),
        r.1 == sat_add(holdings(*board, uuid@).1, 0),
{
    let mut positions: usize = 0;
    let mut troops: usize = 0;
    let mut x: usize = 0;
    while x < board.len()
        invariant
            x <= board@.len(),
            positions == sat_add(holdings_upto(*board, uuid@, x as int).0, 0),
            troops == sat_add(holdings_upto(*board, uuid@, x as int).1, 0),
        decreases board@.len() - x,
    {
        proof { lemma_holdings_nonneg(*board, uuid@, x as int); }
        let ghost p_old = holdings_upto(*board, uuid@, x as int);
        let mut y: usize = 0;
        while y < board[x].len()
            invariant
                x < board@.len(),
                y <= board@[x as int]@.len(),
                p_old == holdings_upto(*board, uuid@, x as int),
                p_old.0 >= 0,
                p_old.1 >= 0,
                positions == sat_add(p_old.0 + column_holdings(*board, uuid@, x as int, y as int).0, 0),
                troops == sat_add(p_old.1 + column_holdings(*board, uuid@, x as int, y as int).1, 0),
            decreases board@[x as int]@.len() - y,
        {
            proof { lemma_column_holdings_nonneg(*board, uuid@, x as int, y as int); }
            if board[x][y].is_owned_by(uuid) {
                positions = positions.saturating_add(1);
                troops = troops.saturating_add(board[x][y].nb_troops);
            }
            y = y + 1;
        }
        x = x + 1;
    }
    r_pair(positions, troops)
}

fn r_pair(a: usize, b: usize) -> (r: (usize, usize))
    ensures
        r == (a, b),
{
    (a, b)
}

/// Whether player `u` sees the tile `(x, y)`: it owns that tile or one of its eight
/// neighbours.
pub open spec fn sees_tile(b: Board, u: Seq<char>, x: int, y: int) -> bool {
    exists|i: int, j: int|
        #![trigger tile_at(b, i, j)]
        in_board(b, i, j) && x - 1 <= i <= x + 1 && y - 1 <= j <= y + 1 && tile_at(b, i, j).owner == Some(u)
}

fn sees(board: &Board, uuid: &String, x: usize, y: usize) -> (r: bool)
    requires
        board_wf(*board),
        in_board(*board, x as int, y as int),
    ensures
        r == sees_tile(*board, uuid@, x as int, y as int),
{
    let w = board.len();
    let h = board[0].len();
    let lo_x = x.saturating_sub(1);
    let hi_x = if x + 1 < w { x + 1 } else { w - 1 };
    let lo_y = y.saturating_sub(1);
    let hi_y = if y + 1 < h { y + 1 } else { h - 1 };
    let mut i = lo_x;
    while i <= hi_x
        invariant
            board_wf(*board),
            w == width(*board),
            h == height(*board),
            lo_x <= i <= hi_x + 1,
            lo_y <= hi_y,
            in_board(*board, x as int, y as int),
            hi_x < w,
            hi_y < h,
            lo_x as int == if x == 0 { 0 } else { x - 1 },
            hi_x as int == if x + 1 < w { x + 1 } else { w - 1 },
            lo_y as int == if y == 0 { 0 } else { y - 1 },
            hi_y as int == if y + 1 < h { y + 1 } else { h - 1 },
            forall|p: int, q: int|
                lo_x <= p < i && lo_y <= q <= hi_y ==> #[trigger] tile_at(*board, p, q).owner != Some(uuid@),
        decreases hi_x + 1 - i,
    {
        let mut j = lo_y;
        while j <= hi_y
            invariant
                board_wf(*board),
                w == width(*board),
                h == height(*board),
                lo_x <= i <= hi_x,
                lo_y <= j <= hi_y + 1,
                in_board(*board, x as int, y as int),
                hi_x < w,
                hi_y < h,
                lo_x as int == if x == 0 { 0 } else { x - 1 },
                hi_x as int == if x + 1 < w { x + 1 } else { w - 1 },
                lo_y as int == if y == 0 { 0 } else { y - 1 },
                hi_y as int == if y + 1 < h { y + 1 } else { h - 1 },
                forall|p: int, q: int|
                    lo_x <= p < i && lo_y <= q <= hi_y ==> #[trigger] tile_at(*board, p, q).owner != Some(uuid@),
                forall|q: int| lo_y <= q < j ==> #[trigger] tile_at(*board, i as int, q).owner != Some(uuid@),
            decreases hi_y + 1 - j,
        {
            assert(board@[i as int]@.len() == h);
            if board[i][j].is_owned_by(uuid) {
                assert(in_board(*board, i as int, j as int));
                assert(tile_at(*board, i as int, j as int).owner == Some(uuid@));
                assert(x - 1 <= i <= x + 1 && y - 1 <= j <= y + 1);
                return true;
            }
            j = j + 1;
        }
        i = i + 1;
    }
    proof {
        if sees_tile(*board, uuid@, x as int, y as int) {
            let (p, q) = choose|p: int, q: int|
                in_board(*board, p, q) && x - 1 <= p <= x + 1 && y - 1 <= q <= y + 1 && #[trigger] tile_at(*board, p, q).owner == Some(uuid@);
            assert(tile_at(*board, p, q).owner != Some(uuid@));
        }
    }
    false
}

/// The board as player `uuid` sees it: tiles it owns and their neighbours as they are,
/// the rest under the fog.
pub open spec fn is_personal_view(v: Seq<Vec<TileUpdate>>, b: Board, members: Seq<(String, String)>, u: Seq<char>) -> bool {
    &&& v.len() == b@.len()
    &&& forall|x: int| 0 <= x < v.len() ==> (#[trigger] v[x])@.len() == b@[x]@.len()
    &&& forall|x: int, y: int|
        0 <= x < v.len() && 0 <= y < b@[x]@.len() ==> #[trigger] v[x]@[y]@ == if sees_tile(b, u, x, y) {
            revealed(tile_at(b, x, y), members)
        } else {
            fogged(tile_at(b, x, y))
        }
}

/// Builds the view of the board that player `uuid` is sent.
pub fn personal_board(board: &Board, lobby_players: &Vec<(String, String)>, uuid: &String) -> (v: Vec<Vec<TileUpdate>>)
    requires
        board_wf(*board),
    ensures
        is_personal_view(v@, *board, lobby_players@, uuid@),
{
    let w = board.len();
    let h = board[0].len();
    let mut v: Vec<Vec<TileUpdate>> = Vec::new();
    let mut x: usize = 0;
    while x < w
        invariant
            board_wf(*board),
            w == width(*board),
            h == height(*board),
            x <= w,
            v@.len() == x,
            forall|i: int| 0 <= i < x ==> (#[trigger] v@[i])@.len() == h,
            forall|i: int, j: int|
                0 <= i < x && 0 <= j < h ==> #[trigger] v@[i]@[j]@ == if sees_tile(*board, uuid@, i, j) {
                    revealed(tile_at(*board, i, j), lobby_players@)
                } else {
                    fogged(tile_at(*board, i, j))
                },
        decreases w - x,
    {
        assert(board@[x as int]@.len() == h);
        let mut column: Vec<TileUpdate> = Vec::new();
        let mut y: usize = 0;
        while y < h
            invariant
                board_wf(*board),
                w == width(*board),
                h == height(*board),
                x < w,
                y <= h,
                board@[x as int]@.len() == h,
                column@.len() == y,
                forall|j: int|
                    0 <= j < y ==> (#[trigger] column@[j])@ == if sees_tile(*board, uuid@, x as int, j) {
                        revealed(tile_at(*board, x as int, j), lobby_players@)
                    } else {
                        fogged(tile_at(*board, x as int, j))
                    },
            decreases h - y,
        {
            let mut t = TileUpdate::hidden_tile(&board[x][y]);
            if sees(board, uuid, x, y) {
                t.from_game_tile(&board[x][y], lobby_players);
            }
            column.push(t);
            y = y + 1;
        }
        let ghost v0 = v@;
        let ghost col = column;
        v.push(column);
        assert forall|i: int, j: int|
            0 <= i < x + 1 && 0 <= j < h implies #[trigger] v@[i]@[j]@ == if sees_tile(*board, uuid@, i, j) {
                revealed(tile_at(*board, i, j), lobby_players@)
            } else {
                fogged(tile_at(*board, i, j))
            } by {
            if i < x {
                assert(v@[i] == v0[i]);
            } else {
                assert(v@[i] == col);
            }
        }
        x = x + 1;
    }
    assert forall|i: int| 0 <= i < v@.len() implies (#[trigger] v@[i])@.len() == board@[i]@.len() by {
        assert(board@[i]@.len() == h);
    }
    assert forall|i: int, j: int|
        0 <= i < v@.len() && 0 <= j < board@[i]@.len() implies #[trigger] v@[i]@[j]@ == if sees_tile(*board, uuid@, i, j) {
            revealed(tile_at(*board, i, j), lobby_players@)
        } else {
            fogged(tile_at(*board, i, j))
        } by {
        assert(board@[i]@.len() == h);
    }
    v
}

/// How many scoreboard entries hold at least one tile.
pub open spec fn nb_holders(sb: Seq<(String, PlayerScore)>) -> nat
    decreases sb.len(),
{
    if sb.len() == 0 {
        0
    } else {
        nb_holders(sb.drop_last()) + if sb.last().1.total_positions > 0 { 1nat } else { 0nat }
    }
}

/// How many scoreboard entries belong to players still connected to the game.
pub open spec fn nb_active(sb: Seq<(String, PlayerScore)>) -> nat
    decreases sb.len(),
{
    if sb.len() == 0 {
        0
    } else {
        nb_active(sb.drop_last()) + if sb.last().1.color != Color::Grey { 1nat } else { 0nat }
    }
}

/// Whether the game is over: at most one player holds tiles, or nobody is left playing.
pub open spec fn game_is_over(sb: Seq<(String, PlayerScore)>) -> bool {
    nb_holders(sb) <= 1 || nb_active(sb) == 0
}

/// The winner announced at the end of a tick: the only player holding tiles, an empty
/// name when nobody holds any, and no announcement otherwise.
pub open spec fn announces(winner: Option<String>, sb: Seq<(String, PlayerScore)>) -> bool {
    if nb_holders(sb) == 1 {
        winner matches Some(w) && exists|i: int|
            0 <= i < sb.len() && #[trigger] sb[i].1.total_positions > 0 && w@ == sb[i].0@
    } else if nb_holders(sb) == 0 {
        winner matches Some(w) && w@ == Seq::<char>::empty()
    } else {
        winner is None
    }
}

proof fn lemma_holders_step(sb: Seq<(String, PlayerScore)>, i: int)
    requires
        0 <= i < sb.len(),
    ensures
        sb.subrange(0, i + 1).drop_last() == sb.subrange(0, i),
        sb.subrange(0, i + 1).last() == sb[i],
{
    assert(sb.subrange(0, i + 1).drop_last() =~= sb.subrange(0, i));
}

proof fn lemma_one_holder(sb: Seq<(String, PlayerScore)>, i: int)
    requires
        0 <= i < sb.len(),
        sb[i].1.total_positions > 0,
    ensures
        nb_holders(sb) >= 1,
    decreases sb.len(),
{
    if i < sb.len() - 1 {
        lemma_one_holder(sb.drop_last(), i);
    }
}

/// Decides whether the game is over and whom to announce.
pub fn game_verdict(sb: &Vec<(String, PlayerScore)>) -> (r: (Option<String>, bool))
    ensures
        r.1 == game_is_over(sb@),
        announces(r.0, sb@),
{
    let mut holders: usize = 0;
    let mut active: usize = 0;
    let mut last: usize = 0;
    let mut i: usize = 0;
    while i < sb.len()
        invariant
            i <= sb@.len(),
            holders == nb_holders(sb@.subrange(0, i as int)),
            active == nb_active(sb@.subrange(0, i as int)),
            holders <= i,
            active <= i,
            holders > 0 ==> last < i && sb@[last as int].1.total_positions > 0,
        decreases sb@.len() - i,
    {
        proof { lemma_holders_step(sb@, i as int); }
        if sb[i].1.total_positions > 0 {
            holders = holders + 1;
            last = i;
        }
        if sb[i].1.color != Color::Grey {
            active = active + 1;
        }
        i = i + 1;
    }
    assert(sb@.subrange(0, sb@.len() as int) == sb@);
    let finished = holders <= 1 || active == 0;
    if holders == 1 {
        (Some(sb[last].0.clone()), finished)
    } else if holders == 0 {
        (Some(String::new()), finished)
    } else {
        (None, finished)
    }
}

/// The color shown for member `uuid` of lobby `k`: its own while it is connected and
/// playing in that lobby, grey otherwise.
pub open spec fn member_color(players: Seq<Player>, uuid: Seq<char>, k: usize) -> Color {
    if exists|j: int| first_player(players, uuid, j) && players[j].playing_in_lobby == Some(k) {
        players[choose|j: int| first_player(players, uuid, j)].color
    } else {
        Color::Grey
    }
}

/// The scoreboard of a lobby on board `b`: one entry per member, in member order.
pub open spec fn is_scoreboard(
    sb: Seq<(String, PlayerScore)>,
    members: Seq<(String, String)>,
    players: Seq<Player>,
    k: usize,
    b: Board,
) -> bool {
    &&& sb.len() == members.len()
    &&& forall|i: int| 0 <= i < sb.len() ==> {
        let u = #[trigger] members[i].0@;
        &&& sb[i].0@ == members[i].1@
        &&& sb[i].1.total_positions == sat_add(holdings(b, u).0, 0)
        &&& sb[i].1.total_troops == sat_add(holdings(b, u).1, 0)
        &&& sb[i].1.color == member_color(players, u, k)
    }
}

/// Two scoreboards with the same names and scores.
pub open spec fn same_scores(a: Seq<(String, PlayerScore)>, b: Seq<(String, PlayerScore)>) -> bool {
    &&& a.len() == b.len()
    &&& forall|i: int| 0 <= i < a.len() ==> #[trigger] a[i].0@ == b[i].0@ && a[i].1 == b[i].1
}

fn copy_scores(sb: &Vec<(String, PlayerScore)>) -> (r: Vec<(String, PlayerScore)>)
    ensures
        same_scores(r@, sb@),
{
    let mut r: Vec<(String, PlayerScore)> = Vec::new();
    let mut i: usize = 0;
    while i < sb.len()
        invariant
            i <= sb@.len(),
            r@.len() == i,
            forall|k: int| 0 <= k < i ==> #[trigger] r@[k].0@ == sb@[k].0@ && r@[k].1 == sb@[k].1,
        decreases sb@.len() - i,
    {
        r.push((sb[i].0.clone(), sb[i].1));
        i = i + 1;
    }
    r
}

/// Whether registry player `j` takes part in the game of lobby `k` with members `members`.
pub open spec fn plays_in(players: Seq<Player>, j: int, members: Seq<(String, String)>, k: usize) -> bool {
    players[j].playing_in_lobby == Some(k) && is_member(members, players[j].uuid@)
}

/// The first position of a uuid depends only on the registry's uuids.
proof fn lemma_first_player_same(a: Seq<Player>, b: Seq<Player>, u: Seq<char>)
    requires
        a.len() == b.len(),
        forall|j: int| 0 <= j < a.len() ==> #[trigger] a[j].uuid@ == b[j].uuid@,
    ensures
        forall|j: int| first_player(a, u, j) <==> first_player(b, u, j),
{
    assert forall|j: int| first_player(a, u, j) <==> first_player(b, u, j) by {
        if first_player(a, u, j) {
            assert forall|m: int| 0 <= m < j implies #[trigger] b[m].uuid@ != u by {
                assert(a[m].uuid@ != u);
            }
        }
        if first_player(b, u, j) {
            assert forall|m: int| 0 <= m < j implies #[trigger] a[m].uuid@ != u by {
                assert(b[m].uuid@ != u);
            }
        }
    }
}

/// Member colors depend only on the registry's uuids, lobbies and colors.
proof fn lemma_member_color_same(a: Seq<Player>, b: Seq<Player>, u: Seq<char>, k: usize)
    requires
        a.len() == b.len(),
        forall|j: int| 0 <= j < a.len() ==> #[trigger] a[j].uuid@ == b[j].uuid@ && a[j].playing_in_lobby == b[j].playing_in_lobby
            && a[j].color == b[j].color,
    ensures
        member_color(a, u, k) == member_color(b, u, k),
{
    lemma_first_player_same(a, b, u);
}

/// The first position of a uuid is unique.
proof fn lemma_first_player_unique(ps: Seq<Player>, u: Seq<char>, i: int, j: int)
    requires
        first_player(ps, u, i),
        first_player(ps, u, j),
    ensures
        i == j,
{
    if i < j {
        assert(ps[i].uuid@ != u);
    } else if j < i {
        assert(ps[j].uuid@ != u);
    }
}

/// The board effect of the turn of member `u` of lobby `k`: the turn of the registry's
/// player `u` when it is connected and says it plays in `k`, no change otherwise.
pub open spec fn member_turn(before: Board, after: Board, players: Seq<Player>, u: Seq<char>, k: usize) -> bool {
    if exists|j: int| first_player(players, u, j) && players[j].playing_in_lobby == Some(k) {
        let p = players[choose|j: int| first_player(players, u, j)];
        turn_effect(before, after, p.uuid@, p.xy, p.queued_moves@)
    } else {
        board_kept(after, before)
    }
}

/// Member turns depend only on the registry's uuids and lobbies, and on the cursor and
/// queue of the member itself.
proof fn lemma_member_turn_same(before: Board, after: Board, a: Seq<Player>, b: Seq<Player>, u: Seq<char>, k: usize)
    requires
        a.len() == b.len(),
        forall|j: int| 0 <= j < a.len() ==> #[trigger] a[j].uuid@ == b[j].uuid@ && a[j].playing_in_lobby == b[j].playing_in_lobby,
        forall|j: int| 0 <= j < a.len() && #[trigger] a[j].uuid@ == u ==> a[j].xy == b[j].xy && a[j].queued_moves@ == b[j].queued_moves@,
    ensures
        member_turn(before, after, a, u, k) == member_turn(before, after, b, u, k),
{
    lemma_first_player_same(a, b, u);
    if exists|j: int| first_player(a, u, j) && a[j].playing_in_lobby == Some(k) {
        let ja = choose|j: int| first_player(a, u, j);
        let jb = choose|j: int| first_player(b, u, j);
        lemma_first_player_unique(a, u, ja, jb);
    }
}

/// Plays the next move of player `uuid` when it is connected and playing in lobby `k`,
/// and returns the color it is shown with on the scoreboard.
fn play_member(board: &mut Board, players: &mut Vec<Player>, uuid: &String, k: usize) -> (color: Color)
    requires
        board_wf(*old(board)),
        players_unique(old(players)@),
    ensures
        board_wf(*final(board)),
        same_shape(*final(board), *old(board)),
        color == member_color(old(players)@, uuid@, k),
        final(players)@.len() == old(players)@.len(),
        forall|j: int| 0 <= j < old(players)@.len() ==> {
            let p_old = #[trigger] old(players)@[j];
            let p_new = final(players)@[j];
            let plays = p_old.uuid@ == uuid@ && p_old.playing_in_lobby == Some(k);
            &&& p_new.uuid == p_old.uuid
            &&& p_new.name == p_old.name
            &&& p_new.playing_in_lobby == p_old.playing_in_lobby
            &&& p_new.color == p_old.color
            &&& p_new.queued_moves@ == if plays && p_old.queued_moves@.len() > 0 {
                p_old.queued_moves@.drop_first()
            } else {
                p_old.queued_moves@
            }
            &&& !plays ==> p_new.xy == p_old.xy
            &&& plays ==> p_new.xy == turn_cursor(*old(board), p_old.uuid@, p_old.xy, p_old.queued_moves@)
            &&& in_board(*old(board), p_old.xy.0 as int, p_old.xy.1 as int)
                ==> in_board(*final(board), p_new.xy.0 as int, p_new.xy.1 as int)
        },
        member_turn(*old(board), *final(board), old(players)@, uuid@, k),
{
    let ghost b0 = *board;
    let ghost ps0 = players@;
    let found = find_player(players, uuid);
    match found {
        Some(j) => {
            if players[j].playing_in_lobby == Some(k) {
                let color = players[j].color;
                let _ = play_turn(board, &mut players[j]);
                proof {
                    let jc = choose|m: int| first_player(ps0, uuid@, m);
                    lemma_first_player_unique(ps0, uuid@, j as int, jc);
                    assert forall|m: int| 0 <= m < ps0.len() && m != j implies #[trigger] ps0[m].uuid@ != uuid@ by {}
                    assert(b0@[0]@.len() == board@[0]@.len());
                }
                color
            } else {
                proof {
                    assert forall|m: int| 0 <= m < ps0.len() && m != j implies #[trigger] ps0[m].uuid@ != uuid@ by {}
                    if exists|m: int| first_player(ps0, uuid@, m) && ps0[m].playing_in_lobby == Some(k) {
                        let m = choose|m: int| first_player(ps0, uuid@, m) && ps0[m].playing_in_lobby == Some(k);
                        lemma_first_player_unique(ps0, uuid@, j as int, m);
                    }
                }
                Color::Grey
            }
        },
        None => {
            proof {
                if exists|m: int| first_player(ps0, uuid@, m) && ps0[m].playing_in_lobby == Some(k) {
                    let m = choose|m: int| first_player(ps0, uuid@, m) && ps0[m].playing_in_lobby == Some(k);
                    assert(ps0[m].uuid@ == uuid@);
                }
            }
            Color::Grey
        },
    }
}

/// The boards of a tick, one after each step: `boards[0]` is `before` after troop
/// growth on tick `t`, and each next board follows from the turn of the next member.
pub open spec fn tick_boards(
    boards: Seq<Board>,
    before: Board,
    after: Board,
    players: Seq<Player>,
    players_after: Seq<Player>,
    members: Seq<(String, String)>,
    k: usize,
    t: usize,
) -> bool {
    &&& boards.len() == members.len() + 1
    &&& same_shape(boards[0], before)
    &&& forall|x: int, y: int|
        0 <= x < before@.len() && 0 <= y < before@[x]@.len() ==> #[trigger] tile_at(boards[0], x, y)
            == grown(tile_at(before, x, y), t)
    &&& boards.last() == after
    &&& forall|m: int| 0 <= m < members.len() ==> member_turn(#[trigger] boards[m], boards[m + 1], players, members[m].0@, k)
    &&& players_after.len() == players.len()
    &&& forall|m: int, j: int|
        0 <= m < members.len() && 0 <= j < players.len() && (#[trigger] players[j]).uuid@ == (#[trigger] members[m]).0@
            && players[j].playing_in_lobby == Some(k)
            ==> players_after[j].xy == turn_cursor(boards[m], players[j].uuid@, players[j].xy, players[j].queued_moves@)
}

/// What a tick reports: the scoreboard, the update for each connected player (by uuid),
/// the winner to announce in the lobby, and whether the game is over.
#[derive(Debug)]
pub struct TickReport {
    pub score_board: Vec<(String, PlayerScore)>,
    pub updates: Vec<(String, GameUpdate)>,
    pub winner: Option<String>,
    pub finished: bool,
}

/// Runs one tick of the game of `lobby`: advances its tick counter, grows troops, plays
/// the next move of every member who is connected and still in this lobby (in member
/// order), scores the members on the resulting board, builds each connected player's
/// view and decides whether the game is over.
pub fn tick_game(lobby: &mut Lobby, players: &mut Vec<Player>) -> (r: TickReport)
    requires
        crate::lobby::lobby_wf(*old(lobby)),
        players_unique(old(players)@),
    ensures
        crate::lobby::lobby_wf(*final(lobby)),
        final(lobby).tick == sat_inc(old(lobby).tick),
        same_shape(final(lobby).board_game, old(lobby).board_game),
        final(lobby).lobby_id == old(lobby).lobby_id,
        final(lobby).status == old(lobby).status,
        final(lobby).next_starting_time == old(lobby).next_starting_time,
        final(lobby).player_capacity == old(lobby).player_capacity,
        final(lobby).players == old(lobby).players,
        final(lobby).messages == old(lobby).messages,
        final(players)@.len() == old(players)@.len(),
        players_unique(final(players)@),
        forall|j: int| 0 <= j < old(players)@.len() ==> {
            let p_old = #[trigger] old(players)@[j];
            let p_new = final(players)@[j];
            let plays = plays_in(old(players)@, j, old(lobby).players@, old(lobby).lobby_id);
            &&& p_new.uuid == p_old.uuid
            &&& p_new.name == p_old.name
            &&& p_new.playing_in_lobby == p_old.playing_in_lobby
            &&& p_new.color == p_old.color
            &&& p_new.queued_moves@ == if plays && p_old.queued_moves@.len() > 0 {
                p_old.queued_moves@.drop_first()
            } else {
                p_old.queued_moves@
            }
            &&& !plays ==> p_new.xy == p_old.xy
            &&& in_board(old(lobby).board_game, p_old.xy.0 as int, p_old.xy.1 as int)
                ==> in_board(final(lobby).board_game, p_new.xy.0 as int, p_new.xy.1 as int)
        },
        exists|boards: Seq<Board>| tick_boards(
            boards,
            old(lobby).board_game,
            final(lobby).board_game,
            old(players)@,
            final(players)@,
            old(lobby).players@,
            old(lobby).lobby_id,
            final(lobby).tick,
        ),
        is_scoreboard(r.score_board@, final(lobby).players@, final(players)@, final(lobby).lobby_id, final(lobby).board_game),
        r.finished == game_is_over(r.score_board@),
        announces(r.winner, r.score_board@),
        r.updates@.len() == final(players)@.len(),
        forall|j: int| 0 <= j < r.updates@.len() ==> {
            let (u, g) = #[trigger] r.updates@[j];
            let p = final(players)@[j];
            &&& u@ == p.uuid@
            &&& is_personal_view(g.board_game@, final(lobby).board_game, final(lobby).players@, p.uuid@)
            &&& same_scores(g.score_board@, r.score_board@)
            &&& g.moves.queued_moves@ == p.queued_moves@
            &&& g.moves.xy == p.xy
            &&& g.tick == final(lobby).tick
        },
{
    lobby.tick = lobby.tick.saturating_add(1);
    grow_troops(&mut lobby.board_game, lobby.tick);
    let ghost b0 = lobby.board_game;
    let ghost players0 = players@;
    let ghost members = lobby.players@;
    let k = lobby.lobby_id;
    proof {
        assert(b0@[0]@.len() == old(lobby).board_game@[0]@.len());
    }

    // the moves, member by member
    let ghost mut boards: Seq<Board> = seq![b0];
    let mut colors: Vec<Color> = Vec::new();
    let mut i: usize = 0;
    while i < lobby.players.len()
        invariant
            boards.len() == i + 1,
            boards[0] == b0,
            boards.last() == lobby.board_game,
            forall|m: int| 0 <= m < i ==> member_turn(#[trigger] boards[m], boards[m + 1], players0, members[m].0@, k),
            forall|m: int, j: int|
                0 <= m < i && 0 <= j < players0.len() && (#[trigger] players0[j]).uuid@ == (#[trigger] members[m]).0@
                    && players0[j].playing_in_lobby == Some(k)
                    ==> players@[j].xy == turn_cursor(boards[m], players0[j].uuid@, players0[j].xy, players0[j].queued_moves@),
            i <= lobby.players@.len(),
            lobby.players@ == members,
            lobby.lobby_id == k,
            lobby.tick == sat_inc(old(lobby).tick),
            lobby.status == old(lobby).status,
            lobby.next_starting_time == old(lobby).next_starting_time,
            lobby.player_capacity == old(lobby).player_capacity,
            lobby.messages == old(lobby).messages,
            lobby.players == old(lobby).players,
            members.len() <= old(lobby).player_capacity,
            members_unique(members),
            board_wf(b0),
            board_wf(lobby.board_game),
            same_shape(lobby.board_game, b0),
            players@.len() == players0.len(),
            players_unique(players0),
            colors@.len() == i,
            forall|m: int| 0 <= m < i ==> #[trigger] colors@[m] == member_color(players0, members[m].0@, k),
            forall|j: int| 0 <= j < players0.len() ==> {
                let p_old = #[trigger] players0[j];
                let p_new = players@[j];
                let done = plays_in(players0, j, members, k) && exists|m: int| 0 <= m < i && #[trigger] members[m].0@ == p_old.uuid@;
                &&& p_new.uuid == p_old.uuid
                &&& p_new.name == p_old.name
                &&& p_new.playing_in_lobby == p_old.playing_in_lobby
                &&& p_new.color == p_old.color
                &&& p_new.queued_moves@ == if done && p_old.queued_moves@.len() > 0 {
                    p_old.queued_moves@.drop_first()
                } else {
                    p_old.queued_moves@
                }
                &&& !done ==> p_new.xy == p_old.xy
                &&& in_board(b0, p_old.xy.0 as int, p_old.xy.1 as int)
                    ==> in_board(lobby.board_game, p_new.xy.0 as int, p_new.xy.1 as int)
            },
        decreases members.len() - i,
    {
        let ghost before = players@;
        let ghost bb = lobby.board_game;
        proof {
            assert forall|j: int| 0 <= j < players0.len() implies #[trigger] before[j].uuid@ == players0[j].uuid@ && before[j].playing_in_lobby == players0[j].playing_in_lobby
                && before[j].color == players0[j].color by {
                assert(before[j].uuid == players0[j].uuid);
            }
            lemma_member_color_same(before, players0, members[i as int].0@, k);
            assert forall|a: int, b: int| 0 <= a < before.len() && 0 <= b < before.len() && a != b implies #[trigger] before[a].uuid@ != #[trigger] before[b].uuid@ by {
                assert(before[a].uuid@ == players0[a].uuid@);
                assert(before[b].uuid@ == players0[b].uuid@);
            }
        }
        let color = play_member(&mut lobby.board_game, players, &lobby.players[i].0, k);
        colors.push(color);
        proof {
            let u = members[i as int].0@;
            assert forall|j: int| 0 <= j < before.len() && #[trigger] before[j].uuid@ == u implies before[j].xy == players0[j].xy
                && before[j].queued_moves@ == players0[j].queued_moves@ by {
                let p_old = players0[j];
                assert(before[j].uuid == p_old.uuid);
                if exists|m: int| 0 <= m < i && #[trigger] members[m].0@ == p_old.uuid@ {
                    let m = choose|m: int| 0 <= m < i && #[trigger] members[m].0@ == p_old.uuid@;
                    assert(members[m].0@ != members[i as int].0@);
                }
            }
            lemma_member_turn_same(bb, lobby.board_game, before, players0, u, k);
            let ghost old_boards = boards;
            boards = boards.push(lobby.board_game);
            assert forall|m: int| 0 <= m < i + 1 implies member_turn(#[trigger] boards[m], boards[m + 1], players0, members[m].0@, k) by {
                if m < i {
                    assert(boards[m] == old_boards[m]);
                    assert(boards[m + 1] == old_boards[m + 1]);
                }
            }
            assert forall|m: int, j: int|
                0 <= m < i + 1 && 0 <= j < players0.len() && (#[trigger] players0[j]).uuid@ == (#[trigger] members[m]).0@
                    && players0[j].playing_in_lobby == Some(k)
                    implies players@[j].xy == turn_cursor(boards[m], players0[j].uuid@, players0[j].xy, players0[j].queued_moves@) by {
                assert(before[j].uuid == players0[j].uuid);
                if m < i {
                    assert(boards[m] == old_boards[m]);
                    assert(members[m].0@ != members[i as int].0@);
                } else {
                    assert(boards[m] == bb);
                    assert(before[j].xy == players0[j].xy && before[j].queued_moves@ == players0[j].queued_moves@);
                }
            }
            assert(bb@[0]@.len() == b0@[0]@.len());
            assert(lobby.board_game@[0]@.len() == bb@[0]@.len());
            assert forall|j: int| 0 <= j < players0.len() implies {
                let p_old = #[trigger] players0[j];
                let p_new = players@[j];
                let done = plays_in(players0, j, members, k) && exists|m: int| 0 <= m < i + 1 && #[trigger] members[m].0@ == p_old.uuid@;
                &&& p_new.uuid == p_old.uuid
                &&& p_new.name == p_old.name
                &&& p_new.playing_in_lobby == p_old.playing_in_lobby
                &&& p_new.color == p_old.color
                &&& p_new.queued_moves@ == if done && p_old.queued_moves@.len() > 0 {
                    p_old.queued_moves@.drop_first()
                } else {
                    p_old.queued_moves@
                }
                &&& !done ==> p_new.xy == p_old.xy
                &&& in_board(b0, p_old.xy.0 as int, p_old.xy.1 as int)
                    ==> in_board(lobby.board_game, p_new.xy.0 as int, p_new.xy.1 as int)
            } by {
                let p_old = players0[j];
                let done_old = plays_in(players0, j, members, k) && exists|m: int| 0 <= m < i && #[trigger] members[m].0@ == p_old.uuid@;
                if p_old.uuid@ == u {
                    assert(members[i as int].0@ == p_old.uuid@);
                    if exists|m: int| 0 <= m < i && #[trigger] members[m].0@ == p_old.uuid@ {
                        let m = choose|m: int| 0 <= m < i && #[trigger] members[m].0@ == p_old.uuid@;
                        assert(members[m].0@ != members[i as int].0@);
                    }
                    assert(!done_old);
                    if p_old.playing_in_lobby == Some(k) {
                        assert(is_member(members, p_old.uuid@));
                    }
                } else {
                    assert forall|m: int| 0 <= m < i + 1 && #[trigger] members[m].0@ == p_old.uuid@ implies m < i by {}
                }
            }
        }
        i = i + 1;
    }
    let ghost players1 = players@;
    proof {
        assert forall|j: int| 0 <= j < players0.len() implies #[trigger] players1[j].uuid@ == players0[j].uuid@ && players1[j].playing_in_lobby == players0[j].playing_in_lobby
            && players1[j].color == players0[j].color by {
            assert(players1[j].uuid == players0[j].uuid);
        }
        assert forall|m: int| 0 <= m < members.len() implies #[trigger] member_color(players1, members[m].0@, k) == member_color(players0, members[m].0@, k) by {
            lemma_member_color_same(players1, players0, members[m].0@, k);
        }
    }

    // the scores
    let mut sb: Vec<(String, PlayerScore)> = Vec::new();
    let mut i: usize = 0;
    while i < lobby.players.len()
        invariant
            i <= lobby.players@.len(),
            lobby.players@ == members,
            colors@.len() == members.len(),
            forall|m: int| 0 <= m < members.len() ==> #[trigger] colors@[m] == member_color(players1, members[m].0@, k),
            sb@.len() == i,
            forall|m: int| 0 <= m < i ==> {
                let u = #[trigger] members[m].0@;
                &&& sb@[m].0@ == members[m].1@
                &&& sb@[m].1.total_positions == sat_add(holdings(lobby.board_game, u).0, 0)
                &&& sb@[m].1.total_troops == sat_add(holdings(lobby.board_game, u).1, 0)
                &&& sb@[m].1.color == member_color(players1, u, k)
            },
        decreases members.len() - i,
    {
        let (positions, troops) = tally_owner(&lobby.board_game, &lobby.players[i].0);
        sb.push((
            lobby.players[i].1.clone(),
            PlayerScore { total_troops: troops, total_positions: positions, color: colors[i] },
        ));
        i = i + 1;
    }

    // the views
    let mut updates: Vec<(String, GameUpdate)> = Vec::new();
    let mut j: usize = 0;
    while j < players.len()
        invariant
            j <= players@.len(),
            players@ == players1,
            board_wf(lobby.board_game),
            updates@.len() == j,
            forall|m: int| 0 <= m < j ==> {
                let (u, g) = #[trigger] updates@[m];
                let p = players1[m];
                &&& u@ == p.uuid@
                &&& is_personal_view(g.board_game@, lobby.board_game, lobby.players@, p.uuid@)
                &&& same_scores(g.score_board@, sb@)
                &&& g.moves.queued_moves@ == p.queued_moves@
                &&& g.moves.xy == p.xy
                &&& g.tick == lobby.tick
            },
        decreases players1.len() - j,
    {
        let view = personal_board(&lobby.board_game, &lobby.players, &players[j].uuid);
        let g = GameUpdate {
            board_game: view,
            score_board: copy_scores(&sb),
            moves: players[j].moves(),
            tick: lobby.tick,
        };
        updates.push((players[j].uuid.clone(), g));
        j = j + 1;
    }
    let (winner, finished) = game_verdict(&sb);
    proof {
        assert(tick_boards(boards, old(lobby).board_game, lobby.board_game, players0, players1, members, k, lobby.tick));
        assert forall|a: int, b: int| 0 <= a < players1.len() && 0 <= b < players1.len() && a != b implies #[trigger] players1[a].uuid@ != #[trigger] players1[b].uuid@ by {
            assert(players1[a].uuid@ == players0[a].uuid@);
            assert(players1[b].uuid@ == players0[b].uuid@);
        }
    }
    TickReport { score_board: sb, updates, winner, finished }
}

} // verus!
