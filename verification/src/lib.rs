pub mod circuits;
pub mod digest;
pub mod words;
pub mod zk_manger;
