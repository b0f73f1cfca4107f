pub mod battleship;
pub mod test_a;
