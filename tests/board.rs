use chess::board::{standard_layout, Board, DrawCommand, Placement};
use chess::geometry::{GridPos, Region, BOARD_SIZE};
use chess::pieces::{Piece, PieceColor, PieceKind, Rgb, Shade, Tile};

fn at(row: usize, col: usize) -> GridPos {
    GridPos { row, col }
}

fn click(board: &mut Board, row: i32, col: i32) {
    board.handle_click(col * 100 + 50, row * 100 + 50);
    assert!(board.is_consistent());
}

fn highlighted(board: &Board) -> Vec<GridPos> {
    assert!(board.is_consistent());
    let mut r = Vec::new();
    for row in 0..BOARD_SIZE {
        for col in 0..BOARD_SIZE {
            if board.tile(at(row, col)).highlighted {
                r.push(at(row, col));
            }
        }
    }
    r
}

fn occupied(board: &Board) -> Vec<GridPos> {
    let mut r = Vec::new();
    for row in 0..BOARD_SIZE {
        for col in 0..BOARD_SIZE {
            if board.tile(at(row, col)).occupied {
                r.push(at(row, col));
            }
        }
    }
    r
}

fn pawn(color: PieceColor, row: usize, col: usize) -> Placement {
    Placement { kind: PieceKind::Pawn, color, pos: at(row, col) }
}

#[test]
fn new_board_from_standard_layout() {
    let board = Board::new(&standard_layout());
    assert_eq!(board.piece_count(), 8);
    let expected: Vec<GridPos> = (0..8).map(|c| at(7, c)).collect();
    assert_eq!(occupied(&board), expected);
    assert!(highlighted(&board).is_empty());
    assert!(board.selected_piece().is_none());
    for row in 0..BOARD_SIZE {
        for col in 0..BOARD_SIZE {
            let shade = board.tile(at(row, col)).shade;
            if (row + col) % 2 == 0 {
                assert_eq!(shade, Shade::Light);
            } else {
                assert_eq!(shade, Shade::Dark);
            }
        }
    }
    let p = board.piece_at(at(7, 2)).unwrap();
    assert_eq!(p, Piece { kind: PieceKind::Pawn, color: PieceColor::Black, pos: at(7, 2), selected: false, has_moved: false });
    assert!(board.piece_at(at(6, 2)).is_none());
}

#[test]
fn clear_highlights_leaves_no_tile_highlighted() {
    let mut board = Board::new(&standard_layout());
    click(&mut board, 7, 3);
    assert!(!highlighted(&board).is_empty());
    board.clear_highlights();
    assert!(board.is_consistent());
    assert!(highlighted(&board).is_empty());
    board.clear_highlights();
    assert!(highlighted(&board).is_empty());
    // the selection itself is untouched
    assert_eq!(board.selected_piece().unwrap().pos, at(7, 3));
}

#[test]
fn clear_selection_deselects() {
    let mut board = Board::new(&standard_layout());
    click(&mut board, 7, 3);
    board.clear_selection();
    assert!(board.is_consistent());
    assert!(board.selected_piece().is_none());
    assert!(!board.piece_at(at(7, 3)).unwrap().selected);
    board.clear_selection();
    assert!(board.selected_piece().is_none());
}

#[test]
fn select_then_click_again_toggles_off() {
    let mut board = Board::new(&standard_layout());
    click(&mut board, 7, 3);
    let sel = board.selected_piece().unwrap();
    assert_eq!(sel.pos, at(7, 3));
    assert!(sel.selected);
    assert_eq!(highlighted(&board), vec![at(6, 3)]);
    click(&mut board, 7, 3);
    assert!(board.selected_piece().is_none());
    assert!(highlighted(&board).is_empty());
    assert!(!board.piece_at(at(7, 3)).unwrap().selected);
}

#[test]
fn move_to_highlighted_tile() {
    let mut board = Board::new(&standard_layout());
    click(&mut board, 7, 5);
    click(&mut board, 6, 5);
    assert!(!board.tile(at(7, 5)).occupied);
    assert!(board.tile(at(6, 5)).occupied);
    let p = board.piece_at(at(6, 5)).unwrap();
    assert_eq!(p.pos, at(6, 5));
    assert!(p.has_moved);
    assert!(!p.selected);
    assert!(highlighted(&board).is_empty());
    assert!(board.selected_piece().is_none());
    assert_eq!(board.piece_count(), 8);
}

#[test]
fn end_to_end_single_pawn() {
    let mut board = Board::new(&vec![pawn(PieceColor::Black, 6, 3)]);
    board.handle_click(350, 650);
    assert_eq!(board.selected_piece().unwrap().pos, at(6, 3));
    assert_eq!(highlighted(&board), vec![at(5, 3)]);
    board.handle_click(350, 550);
    let p = board.piece_at(at(5, 3)).unwrap();
    assert_eq!(p.pos, at(5, 3));
    assert!(p.has_moved);
    assert!(!board.tile(at(6, 3)).occupied);
    assert!(board.tile(at(5, 3)).occupied);
    assert!(highlighted(&board).is_empty());
    assert!(board.selected_piece().is_none());
}

#[test]
fn click_off_board_changes_nothing() {
    let mut board = Board::new(&standard_layout());
    click(&mut board, 7, 1);
    board.handle_click(-10, 750);
    board.handle_click(810, 750);
    board.handle_click(50, 800);
    assert_eq!(board.selected_piece().unwrap().pos, at(7, 1));
    assert_eq!(highlighted(&board), vec![at(6, 1)]);
}

#[test]
fn click_on_other_piece_reselects() {
    let mut board = Board::new(&standard_layout());
    click(&mut board, 7, 1);
    click(&mut board, 7, 4);
    assert_eq!(board.selected_piece().unwrap().pos, at(7, 4));
    assert!(!board.piece_at(at(7, 1)).unwrap().selected);
    assert_eq!(highlighted(&board), vec![at(6, 4)]);
}

#[test]
fn click_on_empty_tile_returns_to_idle() {
    let mut board = Board::new(&standard_layout());
    click(&mut board, 7, 1);
    click(&mut board, 3, 3);
    assert!(board.selected_piece().is_none());
    assert!(highlighted(&board).is_empty());
    assert_eq!(occupied(&board).len(), 8);
}

#[test]
fn click_on_empty_tile_when_idle_does_nothing() {
    let mut board = Board::new(&standard_layout());
    click(&mut board, 2, 2);
    assert!(board.selected_piece().is_none());
    assert!(highlighted(&board).is_empty());
}

#[test]
fn pawn_captures_diagonally() {
    let mut board = Board::new(&vec![
        pawn(PieceColor::Black, 6, 3),
        pawn(PieceColor::White, 5, 2),
        pawn(PieceColor::Black, 5, 4),
    ]);
    click(&mut board, 6, 3);
    assert_eq!(highlighted(&board), vec![at(5, 2), at(5, 3)]);
    click(&mut board, 5, 2);
    assert_eq!(board.piece_count(), 2);
    let p = board.piece_at(at(5, 2)).unwrap();
    assert_eq!(p.color, PieceColor::Black);
    assert!(p.has_moved);
    assert!(!board.tile(at(6, 3)).occupied);
    assert_eq!(occupied(&board), vec![at(5, 2), at(5, 4)]);
}

#[test]
fn white_pawn_steps_down_and_is_blocked() {
    let mut board = Board::new(&vec![pawn(PieceColor::White, 1, 0), pawn(PieceColor::White, 2, 0)]);
    click(&mut board, 1, 0);
    assert!(highlighted(&board).is_empty());
    click(&mut board, 2, 0);
    assert_eq!(highlighted(&board), vec![at(3, 0)]);
}

#[test]
fn pawn_at_edge_has_no_step() {
    let mut board = Board::new(&vec![pawn(PieceColor::Black, 0, 6)]);
    click(&mut board, 0, 6);
    assert_eq!(board.selected_piece().unwrap().pos, at(0, 6));
    assert!(highlighted(&board).is_empty());
}

#[test]
fn other_kinds_are_selected_without_moves() {
    let mut board = Board::new(&vec![Placement { kind: PieceKind::Queen, color: PieceColor::White, pos: at(4, 4) }]);
    click(&mut board, 4, 4);
    assert_eq!(board.selected_piece().unwrap().kind, PieceKind::Queen);
    assert!(highlighted(&board).is_empty());
}

#[test]
fn draw_commands_tiles_then_pieces() {
    let mut board = Board::new(&standard_layout());
    let cmds = board.draw_commands();
    assert_eq!(cmds.len(), 72);
    assert_eq!(cmds[0], DrawCommand::Fill { region: Region { x: 0, y: 0, width: 100, height: 100 }, rgb: Rgb { r: 234, g: 221, b: 202 } });
    assert_eq!(cmds[1], DrawCommand::Fill { region: Region { x: 100, y: 0, width: 100, height: 100 }, rgb: Rgb { r: 111, g: 78, b: 55 } });
    assert_eq!(cmds[64], DrawCommand::Sprite { region: Region { x: 5, y: 705, width: 90, height: 90 }, kind: PieceKind::Pawn, color: PieceColor::Black });
    click(&mut board, 7, 0);
    let cmds = board.draw_commands();
    // tile (6, 0) is light and now highlighted
    assert_eq!(cmds[48], DrawCommand::Fill { region: Region { x: 0, y: 600, width: 100, height: 100 }, rgb: Rgb { r: 137, g: 196, b: 244 } });
    click(&mut board, 7, 1);
    let cmds = board.draw_commands();
    // tile (6, 1) is dark and now highlighted
    assert_eq!(cmds[49], DrawCommand::Fill { region: Region { x: 100, y: 600, width: 100, height: 100 }, rgb: Rgb { r: 112, g: 169, b: 215 } });
}

#[test]
fn tile_colours() {
    let t = Tile { shade: Shade::Light, occupied: false, highlighted: false };
    assert_eq!(t.color(), Rgb { r: 234, g: 221, b: 202 });
    let mut t = Tile { shade: Shade::Dark, occupied: false, highlighted: false };
    assert_eq!(t.color(), Rgb { r: 111, g: 78, b: 55 });
    t.set_highlighted(true);
    assert_eq!(t.color(), Rgb { r: 112, g: 169, b: 215 });
    t.set_occupied(true);
    assert!(t.occupied && t.highlighted);
}

#[test]
fn piece_operations() {
    let mut p = Piece::new(PieceKind::Knight, PieceColor::White, at(0, 1));
    assert!(!p.selected && !p.has_moved);
    p.select();
    assert!(p.selected);
    p.deselect();
    assert!(!p.selected);
    p.move_to(at(2, 2));
    assert_eq!(p.pos, at(2, 2));
    assert!(p.has_moved);
}

#[test]
fn consistency_holds_through_a_game() {
    let mut board = Board::new(&standard_layout());
    assert!(board.is_consistent());
    let clicks = [(7, 0), (6, 0), (6, 0), (5, 0), (7, 7), (7, 7), (7, 6), (6, 6), (3, 3), (9, 9)];
    for (row, col) in clicks {
        click(&mut board, row, col);
    }
    assert_eq!(board.piece_count(), 8);
    assert!(board.tile(at(5, 0)).occupied);
    assert!(board.tile(at(6, 6)).occupied);
    assert!(!board.tile(at(7, 0)).occupied);
    assert!(!board.tile(at(7, 6)).occupied);
}

#[test]
fn candidate_sets_by_kind() {
    let board = Board::new(&vec![
        pawn(PieceColor::Black, 6, 3),
        pawn(PieceColor::White, 5, 2),
        pawn(PieceColor::Black, 5, 4),
        Placement { kind: PieceKind::Rook, color: PieceColor::White, pos: at(0, 0) },
    ]);
    let black = board.piece_at(at(6, 3)).unwrap();
    assert_eq!(board.candidates(&black), vec![at(5, 2), at(5, 3)]);
    let white = board.piece_at(at(5, 2)).unwrap();
    assert_eq!(board.candidates(&white), vec![at(6, 2), at(6, 3)]);
    let rook = board.piece_at(at(0, 0)).unwrap();
    assert!(board.candidates(&rook).is_empty());
}
