pub mod fp;
pub mod e2;
pub mod e6;
pub mod e12;
