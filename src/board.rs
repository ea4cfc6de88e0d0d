//! Tiles, boards and the random generation of a fresh board.
use rand::Rng;
use vstd::prelude::*;

use crate::constants::{
    CASTLE_GARRISON, MAX_GAME_HEIGHT, MAX_GAME_WIDTH, MIN_GAME_HEIGHT, MIN_GAME_WIDTH, NB_CASTLES,
    NB_MOUTAINS,
};

verus! {

/// Whether a tile holds troops of some player.
#[derive(Debug, Clone, Copy, PartialEq, Eq, Structural)]
pub enum TileStatus {
    Empty,
    Occupied,
}

/// The terrain of a tile.
#[derive(Debug, Clone, Copy, PartialEq, Eq, Structural)]
pub enum TileType {
    Blank,
    Kingdom,
    Mountain,
    Castle,
}

/// One cell of the board.
#[derive(Debug)]
pub struct Tile {
    pub status: TileStatus,
    pub tile_type: TileType,
    pub player_uuid: Option<String>,
    pub nb_troops: usize,
}

/// What a tile holds, with the owner as a character sequence.
pub struct TileView {
    pub status: TileStatus,
    pub tile_type: TileType,
    pub owner: Option<Seq<char>>,
    pub troops: usize,
}

pub open spec fn opt_view(o: Option<String>) -> Option<Seq<char>> {
    match o {
        Some(s) => Some(s@),
        None => None,
    }
}

impl View for Tile {
    type V = TileView;

    open spec fn view(&self) -> TileView {
        TileView {
            status: self.status,
            tile_type: self.tile_type,
            owner: opt_view(self.player_uuid),
            troops: self.nb_troops,
        }
    }
}

/// A tile in its neutral initial state: empty blank ground without troops.
pub open spec fn blank_tile() -> TileView {
    TileView { status: TileStatus::Empty, tile_type: TileType::Blank, owner: None, troops: 0 }
}

impl Default for Tile {
    fn default() -> (t: Tile)
        ensures
            t@ == blank_tile(),
    {
        Tile { status: TileStatus::Empty, tile_type: TileType::Blank, player_uuid: None, nb_troops: 0 }
    }
}

/// Copies an optional player identifier.
pub fn copy_uuid(o: &Option<String>) -> (r: Option<String>)
    ensures
        opt_view(r) == opt_view(*o),
{
    match o {
        Some(s) => Some(s.clone()),
        None => None,
    }
}

impl Tile {
    /// A copy of the tile.
    pub fn duplicate(&self) -> (t: Tile)
        ensures
            t@ == self@,
    {
        Tile {
            status: self.status,
            tile_type: self.tile_type,
            player_uuid: copy_uuid(&self.player_uuid),
            nb_troops: self.nb_troops,
        }
    }

    /// Whether the tile is owned by the player `uuid`.
    pub fn is_owned_by(&self, uuid: &String) -> (r: bool)
        ensures
            r == (self@.owner == Some(uuid@)),
    {
        match &self.player_uuid {
            Some(o) => *o == *uuid,
            None => false,
        }
    }
}

/// The board, column by column: `b[x][y]`.
pub type Board = Vec<Vec<Tile>>;

pub open spec fn tile_at(b: Board, x: int, y: int) -> TileView {
    b@[x]@[y]@
}

/// Every column of the board holds `h` tiles, and there are `w` columns.
pub open spec fn has_dims(b: Board, w: int, h: int) -> bool {
    &&& b@.len() == w
    &&& forall|x: int| 0 <= x < w ==> (#[trigger] b@[x])@.len() == h
}

/// A board that has at least one tile, with all columns of one height.
pub open spec fn board_wf(b: Board) -> bool {
    &&& b@.len() > 0
    &&& b@[0]@.len() > 0
    &&& has_dims(b, b@.len() as int, b@[0]@.len() as int)
}

pub open spec fn width(b: Board) -> int {
    b@.len() as int
}

pub open spec fn height(b: Board) -> int {
    b@[0]@.len() as int
}

pub open spec fn in_board(b: Board, x: int, y: int) -> bool {
    0 <= x < width(b) && 0 <= y < height(b)
}

/// Two boards with as many columns, each column as tall as its counterpart.
pub open spec fn same_shape(a: Board, b: Board) -> bool {
    &&& a@.len() == b@.len()
    &&& forall|x: int| 0 <= x < a@.len() ==> (#[trigger] a@[x])@.len() == b@[x]@.len()
}

/// Overwrites one tile of the board.
pub fn set_tile(b: &mut Board, x: usize, y: usize, t: Tile)
    requires
        x < old(b)@.len(),
        y < old(b)@[x as int]@.len(),
    ensures
        same_shape(*final(b), *old(b)),
        tile_at(*final(b), x as int, y as int) == t@,
        forall|i: int, j: int|
            0 <= i < old(b)@.len() && 0 <= j < old(b)@[i]@.len() && !(i == x && j == y)
                ==> tile_at(*final(b), i, j) == tile_at(*old(b), i, j),
{
    b[x][y] = t;
}

/// Gives one tile another terrain and troop count.
fn retype_tile(b: &mut Board, x: usize, y: usize, ty: TileType, troops: usize)
    requires
        x < old(b)@.len(),
        y < old(b)@[x as int]@.len(),
    ensures
        same_shape(*final(b), *old(b)),
        tile_at(*final(b), x as int, y as int) == (TileView {
            tile_type: ty,
            troops: troops,
            ..tile_at(*old(b), x as int, y as int)
        }),
        forall|i: int, j: int|
            0 <= i < old(b)@.len() && 0 <= j < old(b)@[i]@.len() && !(i == x && j == y)
                ==> tile_at(*final(b), i, j) == tile_at(*old(b), i, j),
{
    b[x][y].tile_type = ty;
    b[x][y].nb_troops = troops;
}

/// The terrain of a freshly drawn board at `(x, y)`: the mountain draws come first,
/// and a castle is only built on ground that is still blank.
pub open spec fn drawn_tile(mountains: Seq<(usize, usize)>, castles: Seq<(usize, usize)>, x: int, y: int) -> TileView {
    if exists|i: int| 0 <= i < mountains.len() && mountains[i].0 == x && mountains[i].1 == y {
        TileView { status: TileStatus::Empty, tile_type: TileType::Mountain, owner: None, troops: 0 }
    } else if exists|i: int| 0 <= i < castles.len() && castles[i].0 == x && castles[i].1 == y {
        TileView {
            status: TileStatus::Empty,
            tile_type: TileType::Castle,
            owner: None,
            troops: CASTLE_GARRISON,
        }
    } else {
        blank_tile()
    }
}

/// A board that no player has touched yet: every tile is empty and unowned, and only
/// castles hold a garrison.
pub open spec fn is_fresh_board(b: Board) -> bool {
    forall|x: int, y: int|
        #![trigger tile_at(b, x, y)]
        in_board(b, x, y) ==> {
            let t = tile_at(b, x, y);
            &&& t.status == TileStatus::Empty
            &&& t.owner is None
            &&& t.tile_type != TileType::Kingdom
            &&& t.troops == (if t.tile_type == TileType::Castle { CASTLE_GARRISON } else { 0 })
        }
}

/// The board is what `NB_MOUTAINS` mountain draws and `NB_CASTLES` castle draws make of
/// blank ground (see `drawn_tile`).
pub open spec fn is_drawn_board(b: Board) -> bool {
    exists|m: Seq<(usize, usize)>, c: Seq<(usize, usize)>|
        m.len() == NB_MOUTAINS && c.len() == NB_CASTLES && forall|x: int, y: int|
            in_board(b, x, y) ==> #[trigger] tile_at(b, x, y) == drawn_tile(m, c, x, y)
}

/// A board as a new game starts on it: of the configured size, drawn from the
/// configured numbers of mountains and castles, untouched by any player.
pub open spec fn is_new_board(b: Board) -> bool {
    &&& board_wf(b)
    &&& MIN_GAME_WIDTH <= width(b) < MAX_GAME_WIDTH
    &&& MIN_GAME_HEIGHT <= height(b) < MAX_GAME_HEIGHT
    &&& is_fresh_board(b)
    &&& is_drawn_board(b)
}

/// Builds a `width` by `height` board of blank tiles, then raises a mountain at each
/// coordinate of `mountains` and a castle with its garrison at each coordinate of
/// `castles` where the ground is still blank.
pub fn build_board(
    width: usize,
    height: usize,
    mountains: &Vec<(usize, usize)>,
    castles: &Vec<(usize, usize)>,
) -> (b: Board)
    requires
        width > 0,
        height > 0,
        forall|i: int| 0 <= i < mountains@.len() ==> #[trigger] mountains@[i].0 < width && mountains@[i].1 < height,
        forall|i: int| 0 <= i < castles@.len() ==> #[trigger] castles@[i].0 < width && castles@[i].1 < height,
    ensures
        has_dims(b, width as int, height as int),
        board_wf(b),
        forall|x: int, y: int|
            0 <= x < width && 0 <= y < height ==> #[trigger] tile_at(b, x, y) == drawn_tile(mountains@, castles@, x, y),
{
    let mut b: Board = Vec::new();
    let mut x: usize = 0;
    while x < width
        invariant
            x <= width,
            height > 0,
            has_dims(b, x as int, height as int),
            forall|i: int, j: int| 0 <= i < x && 0 <= j < height ==> #[trigger] tile_at(b, i, j) == blank_tile(),
        decreases width - x,
    {
        let mut column: Vec<Tile> = Vec::new();
        let mut y: usize = 0;
        while y < height
            invariant
                y <= height,
                column@.len() == y,
                forall|j: int| 0 <= j < y ==> (#[trigger] column@[j])@ == blank_tile(),
            decreases height - y,
        {
            column.push(Tile::default());
            y = y + 1;
        }
        let ghost b0 = b;
        let ghost col = column;
        b.push(column);
        assert forall|i: int, j: int| 0 <= i < x + 1 && 0 <= j < height implies #[trigger] tile_at(b, i, j) == blank_tile() by {
            if i < x {
                assert(b@[i] == b0@[i]);
                assert(tile_at(b0, i, j) == blank_tile());
            } else {
                assert(b@[i] == col);
                assert(col@[j]@ == blank_tile());
            }
        }
        x = x + 1;
    }
    let mut i: usize = 0;
    while i < mountains.len()
        invariant
            i <= mountains@.len(),
            width > 0,
            height > 0,
            forall|k: int| 0 <= k < mountains@.len() ==> #[trigger] mountains@[k].0 < width && mountains@[k].1 < height,
            has_dims(b, width as int, height as int),
            forall|p: int, q: int| 0 <= p < width && 0 <= q < height ==> #[trigger] tile_at(b, p, q) == drawn_tile(mountains@.subrange(0, i as int), Seq::empty(), p, q),
        decreases mountains@.len() - i,
    {
        let (mx, my) = mountains[i];
        let ghost b0 = b;
        if b[mx][my].tile_type == TileType::Blank {
            retype_tile(&mut b, mx, my, TileType::Mountain, 0);
        }
        proof {
            assert forall|p: int, q: int| 0 <= p < width && 0 <= q < height implies #[trigger] tile_at(b, p, q) == drawn_tile(mountains@.subrange(0, i + 1), Seq::empty(), p, q) by {
                let s0 = mountains@.subrange(0, i as int);
                let s1 = mountains@.subrange(0, i + 1);
                assert(tile_at(b0, p, q) == drawn_tile(s0, Seq::empty(), p, q));
                if p == mx && q == my {
                    assert(s1[i as int] == (mx, my));
                    if exists|k: int| 0 <= k < s0.len() && s0[k].0 == p && s0[k].1 == q {
                        let k = choose|k: int| 0 <= k < s0.len() && s0[k].0 == p && s0[k].1 == q;
                        assert(s0[k] == s1[k]);
                    }
                } else {
                    assert(tile_at(b, p, q) == tile_at(b0, p, q));
                    if exists|k: int| 0 <= k < s1.len() && s1[k].0 == p && s1[k].1 == q {
                        let k = choose|k: int| 0 <= k < s1.len() && s1[k].0 == p && s1[k].1 == q;
                        assert(s0[k] == s1[k]);
                    }
                    if exists|k: int| 0 <= k < s0.len() && s0[k].0 == p && s0[k].1 == q {
                        let k = choose|k: int| 0 <= k < s0.len() && s0[k].0 == p && s0[k].1 == q;
                        assert(s0[k] == s1[k]);
                    }
                }
            }
        }
        i = i + 1;
    }
    assert(mountains@.subrange(0, mountains@.len() as int) == mountains@);
    let mut i: usize = 0;
    while i < castles.len()
        invariant
            i <= castles@.len(),
            width > 0,
            height > 0,
            forall|k: int| 0 <= k < castles@.len() ==> #[trigger] castles@[k].0 < width && castles@[k].1 < height,
            has_dims(b, width as int, height as int),
            forall|p: int, q: int| 0 <= p < width && 0 <= q < height ==> #[trigger] tile_at(b, p, q) == drawn_tile(mountains@, castles@.subrange(0, i as int), p, q),
        decreases castles@.len() - i,
    {
        let (cx, cy) = castles[i];
        let ghost b0 = b;
        if b[cx][cy].tile_type == TileType::Blank {
            retype_tile(&mut b, cx, cy, TileType::Castle, CASTLE_GARRISON);
        }
        proof {
            assert forall|p: int, q: int| 0 <= p < width && 0 <= q < height implies #[trigger] tile_at(b, p, q) == drawn_tile(mountains@, castles@.subrange(0, i + 1), p, q) by {
                let s0 = castles@.subrange(0, i as int);
                let s1 = castles@.subrange(0, i + 1);
                assert(tile_at(b0, p, q) == drawn_tile(mountains@, s0, p, q));
                if p == cx && q == cy {
                    assert(s1[i as int] == (cx, cy));
                    if exists|k: int| 0 <= k < s0.len() && s0[k].0 == p && s0[k].1 == q {
                        let k = choose|k: int| 0 <= k < s0.len() && s0[k].0 == p && s0[k].1 == q;
                        assert(s0[k] == s1[k]);
                    }
                } else {
                    assert(tile_at(b, p, q) == tile_at(b0, p, q));
                    if exists|k: int| 0 <= k < s1.len() && s1[k].0 == p && s1[k].1 == q {
                        let k = choose|k: int| 0 <= k < s1.len() && s1[k].0 == p && s1[k].1 == q;
                        assert(s0[k] == s1[k]);
                    }
                    if exists|k: int| 0 <= k < s0.len() && s0[k].0 == p && s0[k].1 == q {
                        let k = choose|k: int| 0 <= k < s0.len() && s0[k].0 == p && s0[k].1 == q;
                        assert(s0[k] == s1[k]);
                    }
                }
            }
        }
        i = i + 1;
    }
    assert(castles@.subrange(0, castles@.len() as int) == castles@);
    b
}

/// Relies on rand's `thread_rng().gen_range(lo..hi)`: a value drawn from `lo..hi`,
/// which must not be empty.
#[verifier::external_body]
pub(crate) fn random_in_range(lo: usize, hi: usize) -> (r: usize)
    requires
        lo < hi,
    ensures
        lo <= r < hi,
{
    rand::thread_rng().gen_range(lo..hi)
}

/// Draws `count` random coordinates on a `width` by `height` board.
fn random_coordinates(count: usize, width: usize, height: usize) -> (v: Vec<(usize, usize)>)
    requires
        width > 0,
        height > 0,
    ensures
        v@.len() == count,
        forall|i: int| 0 <= i < v@.len() ==> #[trigger] v@[i].0 < width && v@[i].1 < height,
{
    let mut v: Vec<(usize, usize)> = Vec::new();
    let mut i: usize = 0;
    while i < count
        invariant
            i <= count,
            width > 0,
            height > 0,
            v@.len() == i,
            forall|k: int| 0 <= k < v@.len() ==> #[trigger] v@[k].0 < width && v@[k].1 < height,
        decreases count - i,
    {
        let x = random_in_range(0, width);
        let y = random_in_range(0, height);
        v.push((x, y));
        i = i + 1;
    }
    v
}

/// Draws a new board: its width and height from the configured ranges, then mountains
/// and castles at random coordinates (see `build_board`).
pub fn generate_board() -> (b: Board)
    ensures
        board_wf(b),
        MIN_GAME_WIDTH <= width(b) < MAX_GAME_WIDTH,
        MIN_GAME_HEIGHT <= height(b) < MAX_GAME_HEIGHT,
        is_fresh_board(b),
        is_drawn_board(b),
        is_new_board(b),
{
    let w = random_in_range(MIN_GAME_WIDTH, MAX_GAME_WIDTH);
    let h = random_in_range(MIN_GAME_HEIGHT, MAX_GAME_HEIGHT);
    let mountains = random_coordinates(NB_MOUTAINS, w, h);
    let castles = random_coordinates(NB_CASTLES, w, h);
    let b = build_board(w, h, &mountains, &castles);
    assert forall|x: int, y: int| #![trigger tile_at(b, x, y)] in_board(b, x, y) implies {
        let t = tile_at(b, x, y);
        &&& t.status == TileStatus::Empty
        &&& t.owner is None
        &&& t.tile_type != TileType::Kingdom
        &&& t.troops == (if t.tile_type == TileType::Castle { CASTLE_GARRISON } else { 0 })
    } by {
        assert(tile_at(b, x, y) == drawn_tile(mountains@, castles@, x, y));
    }
    assert forall|x: int, y: int| in_board(b, x, y) implies #[trigger] tile_at(b, x, y) == drawn_tile(mountains@, castles@, x, y) by {}
    b
}

/// The coordinates of all empty tiles, column by column.
pub fn empty_coordinates(board: &Board) -> (v: Vec<(usize, usize)>)
    ensures
        forall|i: int| 0 <= i < v@.len() ==> {
            let (x, y) = #[trigger] v@[i];
            x < board@.len() && y < board@[x as int]@.len() && tile_at(*board, x as int, y as int).status == TileStatus::Empty
        },
        forall|x: int, y: int|
            0 <= x < board@.len() && 0 <= y < board@[x]@.len() && #[trigger] tile_at(*board, x, y).status == TileStatus::Empty
                ==> exists|i: int| 0 <= i < v@.len() && v@[i] == (x as usize, y as usize),
{
    let mut v: Vec<(usize, usize)> = Vec::new();
    let mut x: usize = 0;
    while x < board.len()
        invariant
            x <= board@.len(),
            forall|i: int| 0 <= i < v@.len() ==> {
                let (p, q) = #[trigger] v@[i];
                p < board@.len() && q < board@[p as int]@.len() && tile_at(*board, p as int, q as int).status == TileStatus::Empty
            },
            forall|p: int, q: int|
                0 <= p < x && 0 <= q < board@[p]@.len() && #[trigger] tile_at(*board, p, q).status == TileStatus::Empty
                    ==> exists|i: int| 0 <= i < v@.len() && v@[i] == (p as usize, q as usize),
        decreases board@.len() - x,
    {
        let mut y: usize = 0;
        while y < board[x].len()
            invariant
                x < board@.len(),
                y <= board@[x as int]@.len(),
                forall|i: int| 0 <= i < v@.len() ==> {
                    let (p, q) = #[trigger] v@[i];
                    p < board@.len() && q < board@[p as int]@.len() && tile_at(*board, p as int, q as int).status == TileStatus::Empty
                },
                forall|p: int, q: int|
                    0 <= p < x && 0 <= q < board@[p]@.len() && #[trigger] tile_at(*board, p, q).status == TileStatus::Empty
                        ==> exists|i: int| 0 <= i < v@.len() && v@[i] == (p as usize, q as usize),
                forall|q: int|
                    0 <= q < y && #[trigger] tile_at(*board, x as int, q).status == TileStatus::Empty
                        ==> exists|i: int| 0 <= i < v@.len() && v@[i] == (x, q as usize),
            decreases board@[x as int]@.len() - y,
        {
            let ghost v0 = v@;
            if board[x][y].status == TileStatus::Empty {
                v.push((x, y));
                proof {
                    assert forall|p: int, q: int|
                        0 <= p < x && 0 <= q < board@[p]@.len() && #[trigger] tile_at(*board, p, q).status == TileStatus::Empty
                            implies exists|i: int| 0 <= i < v@.len() && v@[i] == (p as usize, q as usize) by {
                        let i = choose|i: int| 0 <= i < v0.len() && v0[i] == (p as usize, q as usize);
                        assert(v@[i] == v0[i]);
                    }
                    assert forall|q: int|
                        0 <= q < y + 1 && #[trigger] tile_at(*board, x as int, q).status == TileStatus::Empty
                            implies exists|i: int| 0 <= i < v@.len() && v@[i] == (x, q as usize) by {
                        if q < y {
                            let i = choose|i: int| 0 <= i < v0.len() && v0[i] == (x, q as usize);
                            assert(v@[i] == v0[i]);
                        } else {
                            assert(v@[v0.len() as int] == (x, y));
                        }
                    }
                }
            }
            y = y + 1;
        }
        x = x + 1;
    }
    v
}

/// A uniformly drawn empty tile of the board, or `None` when no tile is empty.
pub fn pick_available_starting_coordinates(board: &Board) -> (r: Option<(usize, usize)>)
    ensures
        match r {
            Some((x, y)) => x < board@.len() && y < board@[x as int]@.len()
                && tile_at(*board, x as int, y as int).status == TileStatus::Empty,
            None => forall|x: int, y: int|
                0 <= x < board@.len() && 0 <= y < board@[x]@.len() ==> #[trigger] tile_at(*board, x, y).status != TileStatus::Empty,
        },
{
    let empties = empty_coordinates(board);
    if empties.len() == 0 {
        return None;
    }
    let i = random_in_range(0, empties.len());
    Some(empties[i])
}

} // verus!
