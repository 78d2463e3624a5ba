pub mod c2s;
pub mod display;
pub mod display_laws;
pub mod laws;
pub mod tags;
