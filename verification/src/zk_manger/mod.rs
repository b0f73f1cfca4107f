pub mod battleship;
