//! Rules of Kalah-style Mancala: the board, sowing, captures and the end of
//! the game, with their contracts stated over an integer model of the board.
#![allow(non_snake_case)]

pub mod game;
pub mod laws;
pub mod model;

pub use game::{
    Board, GameState, GameStatus, MoveError, Player, Winner, captures, checkStatus, init_board,
    moveRocks, play_turn,
};
pub use model::{BOARD_SIZE, NUM_PITS, P1_STORE, P2_STORE};
