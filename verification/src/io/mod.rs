//! Reading and writing the binary file format.
pub mod base_records;
pub mod bytes;
pub mod file;
pub mod fov;
pub mod fov_records;
pub mod reader;
pub mod wire;

pub use file::{read_kete_file, write_single_kete_file, write_vec_kete_file, KeteFileType};
pub use fov::read_fov;
pub use reader::Reader;
pub use wire::{KeteRead, KeteWrite};
