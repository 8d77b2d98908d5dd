pub mod g1;
