//! A status line for swaybar and i3bar: each tile turns what it reads into a
//! block of the i3bar protocol, and the output keeps the latest block of every
//! tile and writes the bar anew whenever one arrives.
pub mod config;
pub mod output;
pub mod text;
pub mod tile;
pub mod tiles;
