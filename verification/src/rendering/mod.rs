pub mod bidimensional;
pub mod color;
