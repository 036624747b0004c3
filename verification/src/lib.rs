pub mod canvas;
pub mod grid;
pub mod pages;
