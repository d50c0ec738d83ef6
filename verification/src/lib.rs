//! Red Alert data formats and simulation logic: palettes, SHP sprites,
//! world sync hashing and the skirmish bot.

pub mod ai;
pub mod map;
pub mod math;
pub mod palette;
pub mod rng;
pub mod shp;
pub mod strs;
pub mod sync;
pub mod text;
pub mod world;
pub mod world_view;
