//! Total viewsheds: what every point of a square digital elevation model (DEM) can see.
//!
//! The verified core of the calculation. Everything here works on whole numbers: rotated grid
//! indexes, visibility bitmaps, run-length encoded segments and the bit patterns of heights and
//! angles. Reading tiles, trigonometry, databases and rendering are the caller's.

pub mod runs;
pub mod segments;
pub mod db;
pub mod storage;
pub mod worker;
pub mod bresenham;
pub mod ascii;
pub mod single;
pub mod vector;
pub mod unrolled_los;
pub mod rotator;
pub mod integers;
pub mod los_pack;
pub mod dem;
pub mod pre_process;
pub mod rotation;
pub mod cpu_kernel;
pub mod cpu_two;
pub mod constants;
pub mod chocolate_box;
pub mod elevations;
pub mod ring_data;
pub mod kernel;
pub mod config;
pub mod compute;
pub mod workers;
pub mod vulkan;
pub mod ring_storage;
pub mod vertices;
pub mod joiner;
pub mod viewshed;
pub mod png;
pub mod tile;
pub mod cuda;
