use zobristhash_set::ZobristHashSet;

#[derive(Hash, Eq, PartialEq, Copy, Clone, Debug)]
enum Piece {
    WhitePawn,
    WhiteKnight,
    WhiteBishop,
    WhiteRook,
    WhiteQueen,
    WhiteKing,
    BlackPawn,
    BlackKnight,
    BlackBishop,
    BlackRook,
    BlackQueen,
    BlackKing,
}

const BOARD_SIZE: usize = 8;

struct ChessBoard {
    board: [[Option<Piece>; BOARD_SIZE]; BOARD_SIZE],
    zobrist: ZobristHashSet<(usize, usize, Piece)>,
}

impl ChessBoard {
    fn new() -> Self {
        ChessBoard { board: [[None; BOARD_SIZE]; BOARD_SIZE], zobrist: ZobristHashSet::empty() }
    }

    fn set_piece(&mut self, x: usize, y: usize, piece: Option<Piece>) {
        if let Some(old_piece) = self.board[x][y] {
            self.zobrist.remove(&(x, y, old_piece));
        }
        if let Some(new_piece) = piece {
            self.zobrist.add(&(x, y, new_piece));
        }
        self.board[x][y] = piece;
    }

    fn initialize(&mut self) {
        let white = [
            Piece::WhiteRook,
            Piece::WhiteKnight,
            Piece::WhiteBishop,
            Piece::WhiteQueen,
            Piece::WhiteKing,
            Piece::WhiteBishop,
            Piece::WhiteKnight,
            Piece::WhiteRook,
        ];
        let black = [
            Piece::BlackRook,
            Piece::BlackKnight,
            Piece::BlackBishop,
            Piece::BlackQueen,
            Piece::BlackKing,
            Piece::BlackBishop,
            Piece::BlackKnight,
            Piece::BlackRook,
        ];
        for i in 0..BOARD_SIZE {
            self.set_piece(0, i, Some(white[i]));
            self.set_piece(1, i, Some(Piece::WhitePawn));
            self.set_piece(7, i, Some(black[i]));
            self.set_piece(6, i, Some(Piece::BlackPawn));
        }
    }

    fn hash(&self) -> u64 {
        self.zobrist.into()
    }
}

#[test]
fn chess_board_fingerprint_follows_the_pieces() {
    let mut board = ChessBoard::new();
    assert_eq!(board.hash(), 0);
    board.initialize();

    let initial_hash = board.hash();
    assert_ne!(initial_hash, 0);

    board.set_piece(1, 0, None);
    let hash_after_move = board.hash();
    assert_ne!(initial_hash, hash_after_move);

    board.set_piece(1, 0, Some(Piece::WhitePawn));
    let hash_after_reset = board.hash();
    assert_eq!(initial_hash, hash_after_reset);
}

#[test]
fn chess_board_emptied_is_back_at_zero() {
    let mut board = ChessBoard::new();
    board.initialize();
    for x in 0..BOARD_SIZE {
        for y in 0..BOARD_SIZE {
            board.set_piece(x, y, None);
        }
    }
    assert_eq!(board.hash(), 0);
}
