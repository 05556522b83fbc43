pub mod networking;
pub mod string;
