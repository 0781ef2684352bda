//! Game logic, LED frames and display protocol of a snake game shown on an
//! 8x8 LED matrix.
pub mod pixels;
pub mod snake;
pub mod game;
pub mod display;
pub mod max7219;
pub mod controls;
pub mod demo;
