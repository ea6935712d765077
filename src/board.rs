use vstd::prelude::*;
use crate::geometry::{
    BOARD_SIZE, GridPos, OutOfBounds, Region, cell_of_pixel, cell_to_piece_region, cell_to_region,
    lemma_index_of_pos, lemma_pos_of_index, piece_region_of, pixel_to_cell, pos_of, tile_region_of,
};
use crate::pieces::{Piece, PieceColor, PieceKind, Rgb, Tile, color_of, shade_at, shade_of};

verus! {

/// One thing for the renderer to paint: a tile in a colour, or a piece's sprite.
#[derive(Clone, Copy, Debug, PartialEq, Eq, Structural)]
pub enum DrawCommand {
    Fill { region: Region, rgb: Rgb },
    Sprite { region: Region, kind: PieceKind, color: PieceColor },
}

pub open spec fn tile_command(k: int, t: Tile) -> DrawCommand {
    DrawCommand::Fill { region: tile_region_of(pos_of(k)), rgb: color_of(t.shade, t.highlighted) }
}

pub open spec fn piece_command(p: Piece) -> DrawCommand {
    DrawCommand::Sprite { region: piece_region_of(p.pos), kind: p.kind, color: p.color }
}

/// What a frame paints: every tile in row-major order, then every piece.
pub open spec fn frame_of(v: BoardView) -> Seq<DrawCommand> {
    Seq::new(v.tiles.len(), |k: int| tile_command(k, v.tiles[k])) + v.pieces.map_values(
        |p: Piece| piece_command(p),
    )
}

/// Where one piece stands when a game starts.
#[derive(Clone, Copy, Debug, PartialEq, Eq, Structural)]
pub struct Placement {
    pub kind: PieceKind,
    pub color: PieceColor,
    pub pos: GridPos,
}

/// The 64 tiles, in row-major order, the pieces, and the selected piece if there is one.
pub struct Board {
    tiles: Vec<Tile>,
    pieces: Vec<Piece>,
    selected: Option<usize>,
}

pub struct BoardView {
    pub tiles: Seq<Tile>,
    pub pieces: Seq<Piece>,
    pub selected: Option<usize>,
}

impl View for Board {
    type V = BoardView;

    closed spec fn view(&self) -> BoardView {
        BoardView { tiles: self.tiles@, pieces: self.pieces@, selected: self.selected }
    }
}

pub open spec fn num_tiles() -> int {
    BOARD_SIZE * BOARD_SIZE
}

/// Some piece stands on `q`.
pub open spec fn is_occupied(pieces: Seq<Piece>, q: GridPos) -> bool {
    exists|i: int| 0 <= i < pieces.len() && pieces[i].pos == q
}

/// The index of the piece on `q`, if any.
pub open spec fn occupant(pieces: Seq<Piece>, q: GridPos) -> Option<int> {
    if is_occupied(pieces, q) {
        Some(choose|i: int| 0 <= i < pieces.len() && pieces[i].pos == q)
    } else {
        None
    }
}

/// Every piece is on the board and no two share a tile.
pub open spec fn pieces_wf(pieces: Seq<Piece>) -> bool {
    &&& forall|i: int| 0 <= i < pieces.len() ==> (#[trigger] pieces[i]).pos.wf()
    &&& forall|i: int, j: int|
        0 <= i < pieces.len() && 0 <= j < pieces.len() && i != j
            ==> (#[trigger] pieces[i]).pos != (#[trigger] pieces[j]).pos
}

impl BoardView {
    /// The board's invariant: tiles keep their shades, a tile is occupied exactly when a piece
    /// stands on it, and the selection index and the pieces' own flags agree.
    pub open spec fn wf(self) -> bool {
        &&& self.tiles.len() == num_tiles()
        &&& self.pieces.len() <= usize::MAX
        &&& pieces_wf(self.pieces)
        &&& forall|k: int| 0 <= k < num_tiles() ==> (#[trigger] self.tiles[k]).shade == shade_at(pos_of(k))
        &&& forall|k: int| 0 <= k < num_tiles()
            ==> (#[trigger] self.tiles[k]).occupied == is_occupied(self.pieces, pos_of(k))
        &&& match self.selected {
            None => forall|i: int| 0 <= i < self.pieces.len() ==> !(#[trigger] self.pieces[i]).selected,
            Some(s) => s < self.pieces.len() && forall|i: int|
                0 <= i < self.pieces.len() ==> ((#[trigger] self.pieces[i]).selected <==> i == s),
        }
    }

    pub open spec fn tile(self, q: GridPos) -> Tile {
        self.tiles[q.index()]
    }

    /// Every tile loses its highlight; nothing else changes.
    pub open spec fn unhighlighted(self) -> BoardView {
        BoardView {
            tiles: Seq::new(self.tiles.len(), |k: int| Tile { highlighted: false, ..self.tiles[k] }),
            ..self
        }
    }

    /// Piece `i` becomes the selected one and exactly the tiles it may move to are highlighted.
    pub open spec fn selecting(self, i: int) -> BoardView {
        BoardView {
            tiles: Seq::new(
                self.tiles.len(),
                |k: int| Tile { highlighted: is_candidate(self.pieces, self.pieces[i], pos_of(k)), ..self.tiles[k] },
            ),
            pieces: self.pieces.update(i, Piece { selected: true, ..self.pieces[i] }),
            selected: Some(i as usize),
        }
    }

    /// Selects the piece on `q`, if there is one.
    pub open spec fn reselecting(self, q: GridPos) -> BoardView {
        match occupant(self.pieces, q) {
            Some(i) => self.selecting(i),
            None => self,
        }
    }

    /// Piece `s` moves to `q`; a piece that stood on `q` is taken off the board.
    pub open spec fn moving(self, s: int, q: GridPos) -> BoardView {
        let from = self.pieces[s].pos;
        let moved = self.pieces.update(s, Piece { pos: q, has_moved: true, selected: false, ..self.pieces[s] });
        BoardView {
            tiles: Seq::new(
                self.tiles.len(),
                |k: int| Tile {
                    occupied: if k == q.index() {
                        true
                    } else if k == from.index() {
                        false
                    } else {
                        self.tiles[k].occupied
                    },
                    ..self.tiles[k]
                },
            ),
            pieces: match occupant(self.pieces, q) {
                Some(c) => moved.remove(c),
                None => moved,
            },
            selected: None,
        }
    }

    /// The board after a click on tile `q`. Highlights and selection are always cleared first.
    /// A click on the selected piece's own tile only does that; a click on a highlighted tile
    /// moves the selected piece there; any other click selects the piece on that tile, if any.
    pub open spec fn clicked_cell(self, q: GridPos) -> BoardView {
        let idle = self.unhighlighted().deselected();
        match self.selected {
            Some(s) => if self.pieces[s as int].pos == q {
                idle
            } else if self.tile(q).highlighted {
                idle.moving(s as int, q)
            } else {
                idle.reselecting(q)
            },
            None => idle.reselecting(q),
        }
    }

    /// The board after a click on pixel `(x, y)`; a click off the board changes nothing.
    pub open spec fn clicked(self, x: int, y: int) -> BoardView {
        match cell_of_pixel(x, y) {
            Some(q) => self.clicked_cell(q),
            None => self,
        }
    }

    /// No piece is selected any more; nothing else changes.
    pub open spec fn deselected(self) -> BoardView {
        BoardView {
            pieces: Seq::new(self.pieces.len(), |i: int| Piece { selected: false, ..self.pieces[i] }),
            selected: None,
            ..self
        }
    }
}

pub open spec fn placed_piece(pl: Placement) -> Piece {
    Piece { kind: pl.kind, color: pl.color, pos: pl.pos, selected: false, has_moved: false }
}

/// The row step a pawn of `color` moves by: black pawns move up the board, white ones down.
pub open spec fn forward(color: PieceColor) -> int {
    match color {
        PieceColor::Black => -1,
        PieceColor::White => 1,
    }
}

/// Whether `p` may move to `q` on a board holding `pieces`. A pawn steps one row forward onto
/// an empty tile, or one row forward and one column aside onto a piece of the other colour.
/// Other kinds have no moves yet.
pub open spec fn is_candidate(pieces: Seq<Piece>, p: Piece, q: GridPos) -> bool {
    match p.kind {
        PieceKind::Pawn => q.wf() && q.row == p.pos.row + forward(p.color) && match occupant(pieces, q) {
            None => q.col == p.pos.col,
            Some(i) => (q.col == p.pos.col + 1 || q.col + 1 == p.pos.col) && pieces[i].color != p.color,
        },
        _ => false,
    }
}

/// Decides whether `p` may move to `q`, dispatching on the kind of piece.
pub fn candidate(pieces: &Vec<Piece>, p: &Piece, q: GridPos) -> (r: bool)
    requires
        pieces_wf(pieces@),
        p.pos.wf(),
        q.wf(),
    ensures
        r == is_candidate(pieces@, *p, q),
{
    match p.kind {
        PieceKind::Pawn => {
            let ahead = match p.color {
                PieceColor::Black => q.row + 1 == p.pos.row,
                PieceColor::White => q.row == p.pos.row + 1,
            };
            if !ahead {
                return false;
            }
            match find_piece(pieces, q) {
                None => q.col == p.pos.col,
                Some(i) => (q.col == p.pos.col + 1 || q.col + 1 == p.pos.col) && pieces[i].color != p.color,
            }
        },
        _ => false,
    }
}

/// Every placement is on the board and no two share a tile.
pub open spec fn layout_wf(layout: Seq<Placement>) -> bool {
    &&& layout.len() <= usize::MAX
    &&& forall|i: int| 0 <= i < layout.len() ==> (#[trigger] layout[i]).pos.wf()
    &&& forall|i: int, j: int|
        0 <= i < layout.len() && 0 <= j < layout.len() && i != j
            ==> (#[trigger] layout[i]).pos != (#[trigger] layout[j]).pos
}

/// The board as a game starts from `layout`.
pub open spec fn initial_board(layout: Seq<Placement>) -> BoardView {
    let pieces = layout.map_values(|pl: Placement| placed_piece(pl));
    BoardView {
        tiles: Seq::new(
            num_tiles() as nat,
            |k: int| Tile { shade: shade_at(pos_of(k)), occupied: is_occupied(pieces, pos_of(k)), highlighted: false },
        ),
        pieces,
        selected: None,
    }
}

/// The layout the game starts from: a rank of black pawns along the bottom row.
pub open spec fn standard_layout_spec() -> Seq<Placement> {
    Seq::new(
        BOARD_SIZE as nat,
        |c: int| Placement { kind: PieceKind::Pawn, color: PieceColor::Black, pos: GridPos { row: 7, col: c as usize } },
    )
}

pub fn standard_layout() -> (r: Vec<Placement>)
    ensures
        r@ == standard_layout_spec(),
        layout_wf(r@),
{
    let mut r: Vec<Placement> = Vec::new();
    let mut c: usize = 0;
    while c < BOARD_SIZE
        invariant
            c <= BOARD_SIZE,
            r@ == standard_layout_spec().take(c as int),
        decreases BOARD_SIZE - c,
    {
        r.push(Placement { kind: PieceKind::Pawn, color: PieceColor::Black, pos: GridPos { row: 7, col: c } });
        c = c + 1;
        assert(r@ =~= standard_layout_spec().take(c as int));
    }
    assert(r@ =~= standard_layout_spec());
    r
}

impl Board {
    /// Lays out the tiles and puts the pieces of `layout` on them.
    pub fn new(layout: &Vec<Placement>) -> (r: Board)
        requires
            layout_wf(layout@),
        ensures
            r@.wf(),
            r@ == initial_board(layout@),
    {
        let mut pieces: Vec<Piece> = Vec::new();
        let mut i: usize = 0;
        while i < layout.len()
            invariant
                i <= layout@.len(),
                pieces@ == layout@.map_values(|pl: Placement| placed_piece(pl)).take(i as int),
            decreases layout@.len() - i,
        {
            let pl = layout[i];
            pieces.push(Piece::new(pl.kind, pl.color, pl.pos));
            i = i + 1;
            assert(pieces@ =~= layout@.map_values(|pl: Placement| placed_piece(pl)).take(i as int));
        }
        assert(pieces@ =~= layout@.map_values(|pl: Placement| placed_piece(pl)));
        let ghost target = initial_board(layout@);
        let mut tiles: Vec<Tile> = Vec::new();
        let mut row: usize = 0;
        while row < BOARD_SIZE
            invariant
                row <= BOARD_SIZE,
                pieces@ == target.pieces,
                pieces_wf(pieces@),
                target == initial_board(layout@),
                tiles@ == target.tiles.take(row * BOARD_SIZE),
            decreases BOARD_SIZE - row,
        {
            let mut col: usize = 0;
            while col < BOARD_SIZE
                invariant
                    row < BOARD_SIZE,
                    col <= BOARD_SIZE,
                    pieces@ == target.pieces,
                    pieces_wf(pieces@),
                    target == initial_board(layout@),
                    tiles@ == target.tiles.take(row * BOARD_SIZE + col),
                decreases BOARD_SIZE - col,
            {
                let p = GridPos { row, col };
                proof {
                    lemma_pos_of_index(p);
                }
                let occupied = find_piece(&pieces, p).is_some();
                tiles.push(Tile { shade: shade_of(p), occupied, highlighted: false });
                col = col + 1;
                assert(tiles@ =~= target.tiles.take(row * BOARD_SIZE + col));
            }
            row = row + 1;
        }
        assert(tiles@ =~= target.tiles);
        let r = Board { tiles, pieces, selected: None };
        proof {
            assert forall|k: int| 0 <= k < num_tiles() implies (#[trigger] r@.tiles[k]).shade == shade_at(pos_of(k))
                && r@.tiles[k].occupied == is_occupied(r@.pieces, pos_of(k)) by {}
        }
        r
    }

    /// Checks the board's invariant: no two pieces share a tile, every tile's flags agree with
    /// the pieces, and the selection agrees with the pieces' own flags.
    pub fn is_consistent(&self) -> (r: bool)
        ensures
            r == self@.wf(),
    {
        if self.tiles.len() != BOARD_SIZE * BOARD_SIZE {
            return false;
        }
        let n = self.pieces.len();
        let mut i: usize = 0;
        while i < n
            invariant
                n == self.pieces@.len(),
                i <= n,
                forall|a: int| 0 <= a < i ==> (#[trigger] self.pieces@[a]).pos.wf(),
                forall|a: int, b: int| 0 <= a < i && 0 <= b < i && a != b
                    ==> (#[trigger] self.pieces@[a]).pos != (#[trigger] self.pieces@[b]).pos,
            decreases n - i,
        {
            let p = self.pieces[i].pos;
            if p.row >= BOARD_SIZE || p.col >= BOARD_SIZE {
                return false;
            }
            let mut j: usize = 0;
            while j < i
                invariant
                    n == self.pieces@.len(),
                    i < n,
                    j <= i,
                    p == self.pieces@[i as int].pos,
                    forall|b: int| 0 <= b < j ==> (#[trigger] self.pieces@[b]).pos != p,
                decreases i - j,
            {
                if self.pieces[j].pos == p {
                    return false;
                }
                j = j + 1;
            }
            i = i + 1;
        }
        let mut k: usize = 0;
        while k < self.tiles.len()
            invariant
                self.tiles@.len() == num_tiles(),
                k <= num_tiles(),
                pieces_wf(self.pieces@),
                forall|c: int| 0 <= c < k ==> (#[trigger] self.tiles@[c]).shade == shade_at(pos_of(c))
                    && self.tiles@[c].occupied == is_occupied(self.pieces@, pos_of(c)),
            decreases num_tiles() - k,
        {
            let q = GridPos { row: k / BOARD_SIZE, col: k % BOARD_SIZE };
            proof {
                lemma_index_of_pos(k as int);
            }
            let t = self.tiles[k];
            if t.shade != shade_of(q) || t.occupied != find_piece(&self.pieces, q).is_some() {
                return false;
            }
            k = k + 1;
        }
        let mut i: usize = 0;
        while i < n
            invariant
                n == self.pieces@.len(),
                i <= n,
                match self.selected {
                    None => forall|a: int| 0 <= a < i ==> !(#[trigger] self.pieces@[a]).selected,
                    Some(s) => forall|a: int| 0 <= a < i ==> ((#[trigger] self.pieces@[a]).selected <==> a == s),
                },
            decreases n - i,
        {
            let expected = match self.selected {
                Some(s) => i == s,
                None => false,
            };
            if self.pieces[i].selected != expected {
                return false;
            }
            i = i + 1;
        }
        match self.selected {
            Some(s) => s < n,
            None => true,
        }
    }

    /// The tiles `p` may move to on this board, in row-major order.
    pub fn candidates(&self, p: &Piece) -> (r: Vec<GridPos>)
        requires
            self@.wf(),
            p.pos.wf(),
        ensures
            forall|i: int| 0 <= i < r@.len() ==> (#[trigger] r@[i]).wf(),
            forall|q: GridPos| q.wf() ==> (r@.contains(q) <==> is_candidate(self@.pieces, *p, q)),
    {
        let mut r: Vec<GridPos> = Vec::new();
        let mut k: usize = 0;
        while k < self.tiles.len()
            invariant
                self@.wf(),
                p.pos.wf(),
                k <= num_tiles(),
                forall|i: int| 0 <= i < r@.len() ==> (#[trigger] r@[i]).wf() && r@[i].index() < k
                    && is_candidate(self@.pieces, *p, r@[i]),
                forall|j: int| 0 <= j < k && is_candidate(self@.pieces, *p, pos_of(j))
                    ==> r@.contains(#[trigger] pos_of(j)),
            decreases num_tiles() - k,
        {
            let q = GridPos { row: k / BOARD_SIZE, col: k % BOARD_SIZE };
            proof {
                lemma_index_of_pos(k as int);
            }
            let ghost before = r@;
            if candidate(&self.pieces, p, q) {
                r.push(q);
                assert(r@[r@.len() - 1] == q);
            }
            assert forall|j: int| 0 <= j < k + 1 && is_candidate(self@.pieces, *p, pos_of(j))
                implies r@.contains(#[trigger] pos_of(j)) by {
                if j < k {
                    let i = choose|i: int| 0 <= i < before.len() && before[i] == pos_of(j);
                    assert(r@[i] == pos_of(j));
                } else {
                    assert(r@[r@.len() - 1] == pos_of(j));
                }
            }
            k = k + 1;
        }
        assert forall|q: GridPos| q.wf() implies (r@.contains(q) <==> is_candidate(self@.pieces, *p, q)) by {
            lemma_pos_of_index(q);
            if r@.contains(q) {
                let i = choose|i: int| 0 <= i < r@.len() && r@[i] == q;
                assert(r@[i] == q);
            }
        }
        r
    }

    /// The draw commands for the board as it stands now.
    pub fn draw_commands(&self) -> (r: Vec<DrawCommand>)
        requires
            self@.wf(),
        ensures
            r@ == frame_of(self@),
    {
        let ghost v = self@;
        let mut r: Vec<DrawCommand> = Vec::new();
        let mut k: usize = 0;
        while k < self.tiles.len()
            invariant
                v == self@,
                v.wf(),
                k <= v.tiles.len(),
                r@ == frame_of(v).take(k as int),
            decreases v.tiles.len() - k,
        {
            let p = GridPos { row: k / BOARD_SIZE, col: k % BOARD_SIZE };
            r.push(DrawCommand::Fill { region: cell_to_region(p), rgb: self.tiles[k].color() });
            k = k + 1;
            assert(r@ =~= frame_of(v).take(k as int));
        }
        let mut i: usize = 0;
        while i < self.pieces.len()
            invariant
                v == self@,
                v.wf(),
                i <= v.pieces.len(),
                r@ == frame_of(v).take(v.tiles.len() + i),
            decreases v.pieces.len() - i,
        {
            let p = self.pieces[i];
            r.push(DrawCommand::Sprite { region: cell_to_piece_region(p.pos), kind: p.kind, color: p.color });
            i = i + 1;
            assert(r@ =~= frame_of(v).take(v.tiles.len() + i));
        }
        assert(r@ =~= frame_of(v));
        r
    }

    /// The tile at `q`.
    pub fn tile(&self, q: GridPos) -> (r: Tile)
        requires
            self@.wf(),
            q.wf(),
        ensures
            r == self@.tile(q),
    {
        proof {
            lemma_pos_of_index(q);
        }
        self.tiles[q.row * BOARD_SIZE + q.col]
    }

    /// The piece standing on `q`, if any.
    pub fn piece_at(&self, q: GridPos) -> (r: Option<Piece>)
        requires
            self@.wf(),
        ensures
            match occupant(self@.pieces, q) {
                Some(i) => r == Some(self@.pieces[i]),
                None => r is None,
            },
    {
        match find_piece(&self.pieces, q) {
            Some(i) => Some(self.pieces[i]),
            None => None,
        }
    }

    /// How many pieces are on the board.
    pub fn piece_count(&self) -> (r: usize)
        ensures
            r == self@.pieces.len(),
    {
        self.pieces.len()
    }

    /// The selected piece, if any.
    pub fn selected_piece(&self) -> (r: Option<Piece>)
        requires
            self@.wf(),
        ensures
            match self@.selected {
                Some(s) => r == Some(self@.pieces[s as int]),
                None => r is None,
            },
    {
        match self.selected {
            Some(s) => Some(self.pieces[s]),
            None => None,
        }
    }

    /// Handles a click on pixel `(x, y)`; a click off the board is ignored.
    pub fn handle_click(&mut self, x: i32, y: i32)
        requires
            old(self)@.wf(),
        ensures
            final(self)@ == old(self)@.clicked(x as int, y as int),
            final(self)@.wf(),
    {
        match pixel_to_cell(x, y) {
            Ok(q) => self.click_cell(q),
            Err(OutOfBounds) => {},
        }
    }

    /// Handles a click on tile `q`.
    pub fn click_cell(&mut self, q: GridPos)
        requires
            old(self)@.wf(),
            q.wf(),
        ensures
            final(self)@ == old(self)@.clicked_cell(q),
            final(self)@.wf(),
    {
        proof {
            lemma_pos_of_index(q);
        }
        let prev = self.selected;
        let own = match prev {
            Some(s) => self.pieces[s].pos == q,
            None => false,
        };
        let highlighted = self.tiles[q.row * BOARD_SIZE + q.col].highlighted;
        self.clear_highlights();
        self.clear_selection();
        match prev {
            Some(s) => {
                if own {
                } else if highlighted {
                    self.move_piece(s, q);
                } else {
                    self.reselect(q);
                }
            },
            None => self.reselect(q),
        }
    }

    /// Selects piece `i` and highlights the tiles it may move to.
    fn select_piece(&mut self, i: usize)
        requires
            old(self)@.wf(),
            old(self)@.selected is None,
            i < old(self)@.pieces.len(),
        ensures
            final(self)@ == old(self)@.selecting(i as int),
            final(self)@.wf(),
    {
        let ghost start = self@;
        let p = self.pieces[i];
        let mut k: usize = 0;
        while k < self.tiles.len()
            invariant
                start.wf(),
                i < start.pieces.len(),
                p == start.pieces[i as int],
                k <= self.tiles@.len(),
                self.tiles@.len() == start.tiles.len(),
                self.pieces@ == start.pieces,
                self.selected == start.selected,
                forall|j: int| 0 <= j < self.tiles@.len() ==> (#[trigger] self.tiles@[j]) == if j < k {
                    Tile { highlighted: is_candidate(start.pieces, p, pos_of(j)), ..start.tiles[j] }
                } else {
                    start.tiles[j]
                },
            decreases self.tiles@.len() - k,
        {
            let q = GridPos { row: k / BOARD_SIZE, col: k % BOARD_SIZE };
            let on = candidate(&self.pieces, &p, q);
            let mut t = self.tiles[k];
            t.set_highlighted(on);
            self.tiles.set(k, t);
            k = k + 1;
        }
        let mut sel = p;
        sel.select();
        self.pieces.set(i, sel);
        self.selected = Some(i);
        assert(self@.tiles =~= start.selecting(i as int).tiles);
        assert forall|k: int| 0 <= k < num_tiles() implies (#[trigger] self@.tiles[k]).occupied
            == is_occupied(self@.pieces, pos_of(k)) by {
            if is_occupied(start.pieces, pos_of(k)) {
                let j = choose|j: int| 0 <= j < start.pieces.len() && start.pieces[j].pos == pos_of(k);
                assert(self@.pieces[j].pos == pos_of(k));
            }
            if is_occupied(self@.pieces, pos_of(k)) {
                let j = choose|j: int| 0 <= j < self@.pieces.len() && self@.pieces[j].pos == pos_of(k);
                assert(start.pieces[j].pos == pos_of(k));
            }
        }
    }

    /// Selects the piece on `q`, if there is one.
    fn reselect(&mut self, q: GridPos)
        requires
            old(self)@.wf(),
            old(self)@.selected is None,
        ensures
            final(self)@ == old(self)@.reselecting(q),
            final(self)@.wf(),
    {
        if let Some(i) = find_piece(&self.pieces, q) {
            self.select_piece(i);
        }
    }

    /// Moves piece `s` to `q`, taking off the board any piece that stood there.
    fn move_piece(&mut self, s: usize, q: GridPos)
        requires
            old(self)@.wf(),
            old(self)@.selected is None,
            s < old(self)@.pieces.len(),
            old(self)@.pieces[s as int].pos != q,
            q.wf(),
        ensures
            final(self)@ == old(self)@.moving(s as int, q),
            final(self)@.wf(),
    {
        let ghost start = self@;
        proof {
            lemma_moving_wf(start, s as int, q);
        }
        let from = self.pieces[s].pos;
        proof {
            lemma_pos_of_index(from);
            lemma_pos_of_index(q);
        }
        let captured = find_piece(&self.pieces, q);
        let mut p = self.pieces[s];
        p.move_to(q);
        self.pieces.set(s, p);
        let fi = from.row * BOARD_SIZE + from.col;
        let qi = q.row * BOARD_SIZE + q.col;
        let mut t = self.tiles[fi];
        t.set_occupied(false);
        self.tiles.set(fi, t);
        let mut t = self.tiles[qi];
        t.set_occupied(true);
        self.tiles.set(qi, t);
        if let Some(c) = captured {
            self.pieces.remove(c);
        }
        assert(self@.tiles =~= start.moving(s as int, q).tiles);
        assert(self@.pieces =~= start.moving(s as int, q).pieces);
    }

    /// Sets every tile's highlight off.
    pub fn clear_highlights(&mut self)
        requires
            old(self)@.wf(),
        ensures
            final(self)@ == old(self)@.unhighlighted(),
            final(self)@.wf(),
    {
        let ghost start = self@;
        let mut k: usize = 0;
        while k < self.tiles.len()
            invariant
                start.wf(),
                k <= self.tiles@.len(),
                self.tiles@.len() == start.tiles.len(),
                self.pieces@ == start.pieces,
                self.selected == start.selected,
                forall|j: int| 0 <= j < self.tiles@.len() ==> (#[trigger] self.tiles@[j]) == if j < k {
                    Tile { highlighted: false, ..start.tiles[j] }
                } else {
                    start.tiles[j]
                },
            decreases self.tiles@.len() - k,
        {
            let mut t = self.tiles[k];
            t.set_highlighted(false);
            self.tiles.set(k, t);
            k = k + 1;
        }
        assert(self@.tiles =~= start.unhighlighted().tiles);
    }

    /// Deselects the selected piece, if any.
    pub fn clear_selection(&mut self)
        requires
            old(self)@.wf(),
        ensures
            final(self)@ == old(self)@.deselected(),
            final(self)@.wf(),
    {
        let ghost start = self@;
        if let Some(s) = self.selected {
            let mut p = self.pieces[s];
            p.deselect();
            self.pieces.set(s, p);
        }
        self.selected = None;
        assert(self@.pieces =~= start.deselected().pieces);
        assert forall|k: int| 0 <= k < num_tiles() implies (#[trigger] self@.tiles[k]).occupied
            == is_occupied(self@.pieces, pos_of(k)) by {
            if is_occupied(start.pieces, pos_of(k)) {
                let i = choose|i: int| 0 <= i < start.pieces.len() && start.pieces[i].pos == pos_of(k);
                assert(self@.pieces[i].pos == pos_of(k));
            }
            if is_occupied(self@.pieces, pos_of(k)) {
                let i = choose|i: int| 0 <= i < self@.pieces.len() && self@.pieces[i].pos == pos_of(k);
                assert(start.pieces[i].pos == pos_of(k));
            }
        }
    }
}

proof fn lemma_occupant_unique(pieces: Seq<Piece>, q: GridPos, i: int)
    requires
        pieces_wf(pieces),
        0 <= i < pieces.len(),
        pieces[i].pos == q,
    ensures
        occupant(pieces, q) == Some(i),
{
    let j = choose|j: int| 0 <= j < pieces.len() && pieces[j].pos == q;
    assert(pieces[j].pos == pieces[i].pos);
}

/// Moving a piece onto a tile other than its own keeps the board's invariant.
proof fn lemma_moving_wf(v: BoardView, s: int, q: GridPos)
    requires
        v.wf(),
        v.selected is None,
        0 <= s < v.pieces.len(),
        v.pieces[s].pos != q,
        q.wf(),
    ensures
        v.moving(s, q).wf(),
{
    let w = v.moving(s, q);
    let pcs = v.pieces;
    let from = pcs[s].pos;
    let m = pcs.update(s, Piece { pos: q, has_moved: true, selected: false, ..pcs[s] });
    let cap = occupant(pcs, q);
    lemma_pos_of_index(from);
    lemma_pos_of_index(q);
    if let Some(c) = cap {
        assert(0 <= c < pcs.len() && pcs[c].pos == q);
        assert(c != s);
    }
    // each piece of the result is the piece of `m` at index `src(i)`
    let src = |i: int| if cap is Some && i >= cap->0 { i + 1 } else { i };
    assert forall|i: int| 0 <= i < w.pieces.len() implies w.pieces[i] == m[src(i)] && 0 <= src(i) < m.len()
        && (cap is Some ==> src(i) != cap->0) by {}
    // two pieces of `m` other than the captured one never share a tile
    assert forall|a: int, b: int|
        0 <= a < m.len() && 0 <= b < m.len() && a != b && (cap is Some ==> a != cap->0 && b != cap->0)
        implies m[a].pos != m[b].pos by {
        if a == s {
            if pcs[b].pos == q {
                lemma_occupant_unique(pcs, q, b);
            }
        } else if b == s {
            if pcs[a].pos == q {
                lemma_occupant_unique(pcs, q, a);
            }
        } else {
            assert(pcs[a].pos != pcs[b].pos);
        }
    }
    assert forall|i: int, j: int|
        0 <= i < w.pieces.len() && 0 <= j < w.pieces.len() && i != j
            implies (#[trigger] w.pieces[i]).pos != (#[trigger] w.pieces[j]).pos by {
        assert(w.pieces[i] == m[src(i)]);
        assert(w.pieces[j] == m[src(j)]);
    }
    assert forall|i: int| 0 <= i < w.pieces.len() implies (#[trigger] w.pieces[i]).pos.wf() by {
        assert(w.pieces[i] == m[src(i)]);
    }
    assert forall|k: int| 0 <= k < num_tiles() implies (#[trigger] w.tiles[k]).occupied
        == is_occupied(w.pieces, pos_of(k)) by {
        lemma_index_of_pos(k);
        let x = pos_of(k);
        // an index of `m` that survives in the result, and where it lands
        let dst = |a: int| if cap is Some && a > cap->0 { a - 1 } else { a };
        if k == q.index() {
            assert(x == q);
            assert(w.pieces[dst(s)] == m[s]);
        } else if k == from.index() {
            assert(x == from);
            if is_occupied(w.pieces, x) {
                let i = choose|i: int| 0 <= i < w.pieces.len() && w.pieces[i].pos == x;
                assert(w.pieces[i] == m[src(i)]);
                assert(pcs[src(i)].pos == pcs[s].pos);
            }
        } else {
            assert(x != q && x != from);
            if is_occupied(pcs, x) {
                let a = choose|a: int| 0 <= a < pcs.len() && pcs[a].pos == x;
                assert(a != s);
                assert(w.pieces[dst(a)] == m[a]);
            }
            if is_occupied(w.pieces, x) {
                let i = choose|i: int| 0 <= i < w.pieces.len() && w.pieces[i].pos == x;
                assert(w.pieces[i] == m[src(i)]);
                assert(pcs[src(i)].pos == x);
            }
        }
    }
}

/// Clearing highlights and selection keeps the board's invariant.
pub proof fn lemma_idle_wf(v: BoardView)
    requires
        v.wf(),
    ensures
        v.unhighlighted().deselected().wf(),
        forall|q: GridPos| is_occupied(v.unhighlighted().deselected().pieces, q) == is_occupied(v.pieces, q),
{
    let w = v.unhighlighted().deselected();
    assert forall|q: GridPos| is_occupied(w.pieces, q) == is_occupied(v.pieces, q) by {
        if is_occupied(v.pieces, q) {
            let i = choose|i: int| 0 <= i < v.pieces.len() && v.pieces[i].pos == q;
            assert(w.pieces[i].pos == q);
        }
        if is_occupied(w.pieces, q) {
            let i = choose|i: int| 0 <= i < w.pieces.len() && w.pieces[i].pos == q;
            assert(v.pieces[i].pos == q);
        }
    }
    assert forall|i: int, j: int|
        0 <= i < w.pieces.len() && 0 <= j < w.pieces.len() && i != j
            implies (#[trigger] w.pieces[i]).pos != (#[trigger] w.pieces[j]).pos by {
        assert(v.pieces[i].pos != v.pieces[j].pos);
    }
}

/// After every highlight is cleared no tile is highlighted, whatever the board was before.
pub proof fn lemma_no_highlight_after_clear(v: BoardView)
    requires
        v.wf(),
    ensures
        forall|q: GridPos| q.wf() ==> !(#[trigger] v.unhighlighted().tile(q)).highlighted,
{
    assert forall|q: GridPos| q.wf() implies !(#[trigger] v.unhighlighted().tile(q)).highlighted by {
        lemma_pos_of_index(q);
    }
}

/// A new board is consistent, has nothing selected or highlighted, shades each tile by the
/// parity of `row + col`, and has exactly the tiles of the layout occupied.
pub proof fn lemma_initial_board(layout: Seq<Placement>)
    requires
        layout_wf(layout),
    ensures
        initial_board(layout).wf(),
        initial_board(layout).selected is None,
        forall|q: GridPos| #![trigger initial_board(layout).tile(q)] q.wf() ==> {
            &&& initial_board(layout).tile(q).shade == shade_at(q)
            &&& !initial_board(layout).tile(q).highlighted
            &&& initial_board(layout).tile(q).occupied
                == exists|j: int| 0 <= j < layout.len() && (#[trigger] layout[j]).pos == q
        },
{
    let v = initial_board(layout);
    assert forall|i: int, j: int|
        0 <= i < v.pieces.len() && 0 <= j < v.pieces.len() && i != j
            implies (#[trigger] v.pieces[i]).pos != (#[trigger] v.pieces[j]).pos by {
        assert(layout[i].pos != layout[j].pos);
    }
    assert forall|i: int| 0 <= i < v.pieces.len() implies (#[trigger] v.pieces[i]).pos.wf() by {
        assert(layout[i].pos.wf());
    }
    assert forall|q: GridPos| q.wf() implies v.tile(q).occupied
        == exists|j: int| 0 <= j < layout.len() && (#[trigger] layout[j]).pos == q by {
        lemma_pos_of_index(q);
        if v.tile(q).occupied {
            let j = choose|j: int| 0 <= j < v.pieces.len() && v.pieces[j].pos == pos_of(q.index());
            assert(layout[j].pos == q);
        }
        if exists|j: int| 0 <= j < layout.len() && (#[trigger] layout[j]).pos == q {
            let j = choose|j: int| 0 <= j < layout.len() && (#[trigger] layout[j]).pos == q;
            assert(v.pieces[j].pos == pos_of(q.index()));
        }
    }
}

/// On a new game the occupied tiles are exactly those of the bottom row.
pub proof fn lemma_standard_start()
    ensures
        layout_wf(standard_layout_spec()),
        forall|q: GridPos| q.wf() ==> (#[trigger] initial_board(standard_layout_spec()).tile(q)).occupied
            == (q.row == 7),
{
    let l = standard_layout_spec();
    lemma_initial_board(l);
    assert forall|q: GridPos| q.wf() implies (#[trigger] initial_board(l).tile(q)).occupied == (q.row == 7) by {
        if q.row == 7 {
            assert(l[q.col as int].pos == q);
        }
    }
}

/// From a board with nothing selected, a click on an occupied tile selects the piece there;
/// if that piece is a pawn with a free tile ahead, that tile is highlighted. A second click on
/// the same tile deselects it and leaves no tile highlighted.
pub proof fn lemma_select_then_toggle(v: BoardView, q: GridPos)
    requires
        v.wf(),
        v.selected is None,
        q.wf(),
        is_occupied(v.pieces, q),
    ensures
        ({
            let w = v.clicked_cell(q);
            let i = occupant(v.pieces, q)->0;
            &&& 0 <= i < v.pieces.len()
            &&& w.selected == Some(i as usize)
            &&& w.pieces[i] == (Piece { selected: true, ..v.pieces[i] })
            &&& forall|f: GridPos|
                f.wf() && v.pieces[i].kind == PieceKind::Pawn && f.col == q.col && f.row == q.row + forward(
                    v.pieces[i].color,
                ) && !is_occupied(v.pieces, f) ==> (#[trigger] w.tile(f)).highlighted
            &&& w.clicked_cell(q).selected is None
            &&& forall|f: GridPos| f.wf() ==> !(#[trigger] w.clicked_cell(q).tile(f)).highlighted
        }),
{
    let idle = v.unhighlighted().deselected();
    let w = v.clicked_cell(q);
    lemma_idle_wf(v);
    let i = choose|i: int| 0 <= i < v.pieces.len() && v.pieces[i].pos == q;
    lemma_occupant_unique(v.pieces, q, i);
    lemma_occupant_unique(idle.pieces, q, i);
    assert forall|f: GridPos|
        f.wf() && v.pieces[i].kind == PieceKind::Pawn && f.col == q.col && f.row == q.row + forward(
            v.pieces[i].color,
        ) && !is_occupied(v.pieces, f) implies (#[trigger] w.tile(f)).highlighted by {
        lemma_pos_of_index(f);
        lemma_index_of_pos(f.index());
    }
    assert(w == idle.selecting(i));
    assert(w.selected == Some(i as usize) && w.pieces[i].pos == q);
    assert(w.clicked_cell(q) == w.unhighlighted().deselected());
    assert forall|f: GridPos| f.wf() implies !(#[trigger] w.clicked_cell(q).tile(f)).highlighted by {
        lemma_pos_of_index(f);
    }
}

/// With a piece selected, a click on a highlighted tile other than its own moves it there: its
/// old tile is left empty, the new one is occupied by it, it is marked as moved, and nothing
/// stays selected or highlighted.
pub proof fn lemma_move_to_highlighted(v: BoardView, q: GridPos)
    requires
        v.wf(),
        v.selected is Some,
        q.wf(),
        v.pieces[v.selected->0 as int].pos != q,
        v.tile(q).highlighted,
    ensures
        ({
            let w = v.clicked_cell(q);
            let s = v.selected->0 as int;
            &&& w.wf()
            &&& !w.tile(v.pieces[s].pos).occupied
            &&& w.tile(q).occupied
            &&& occupant(w.pieces, q) is Some
            &&& w.pieces[occupant(w.pieces, q)->0] == (Piece {
                pos: q,
                has_moved: true,
                selected: false,
                ..v.pieces[s]
            })
            &&& w.selected is None
            &&& forall|f: GridPos| f.wf() ==> !(#[trigger] w.tile(f)).highlighted
        }),
{
    let s = v.selected->0 as int;
    let idle = v.unhighlighted().deselected();
    let w = v.clicked_cell(q);
    lemma_idle_wf(v);
    lemma_moving_wf(idle, s, q);
    lemma_pos_of_index(q);
    lemma_pos_of_index(v.pieces[s].pos);
    let cap = occupant(idle.pieces, q);
    if let Some(c) = cap {
        assert(0 <= c < idle.pieces.len() && idle.pieces[c].pos == q);
    }
    let d = if cap is Some && s > cap->0 { s - 1 } else { s };
    assert(w.pieces[d].pos == q);
    lemma_occupant_unique(w.pieces, q, d);
    assert forall|f: GridPos| f.wf() implies !(#[trigger] w.tile(f)).highlighted by {
        lemma_pos_of_index(f);
    }
}

/// The index of the piece standing on `q`, if any.
pub fn find_piece(pieces: &Vec<Piece>, q: GridPos) -> (r: Option<usize>)
    requires
        pieces_wf(pieces@),
    ensures
        match r {
            Some(i) => occupant(pieces@, q) == Some(i as int),
            None => occupant(pieces@, q) is None,
        },
{
    let mut i: usize = 0;
    while i < pieces.len()
        invariant
            i <= pieces@.len(),
            pieces_wf(pieces@),
            forall|j: int| 0 <= j < i ==> (#[trigger] pieces@[j]).pos != q,
        decreases pieces@.len() - i,
    {
        if pieces[i].pos == q {
            proof {
                assert(is_occupied(pieces@, q));
                let j = choose|j: int| 0 <= j < pieces@.len() && pieces@[j].pos == q;
                assert(pieces@[j].pos == pieces@[i as int].pos);
            }
            return Some(i);
        }
        i = i + 1;
    }
    None
}

} // verus!
