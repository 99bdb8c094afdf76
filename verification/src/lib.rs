//! Traffic simulation core: vehicles move over a hand-authored grid of road
//! tiles and yield to each other, to stop signs and to stoplights.
//!
//! Every quantity is an integer, so that every decision is exact:
//!
//! * speeds and vehicle lengths count in quarters of a world unit;
//! * headings are vectors in ten-thousandths, a diagonal one having both
//!   components of 7,071;
//! * positions count in sub-units, 2,400,000 to the world unit, so that one
//!   tick of movement is the plain product of a speed and a heading;
//! * distances along a heading count in steps of 1/240 world unit, the
//!   distance covered in one tick at a speed of one quarter per second;
//! * devices stand at the middle of a block of two tiles by two, and their
//!   positions count in half tiles;
//! * time counts in ticks, sixty to the second.
//!
//! Two shapes collide when they share a point of the plane. The modules
//! `clip`, `frame` and `crossing` decide that by comparisons of integers and
//! prove that the comparisons say exactly that.

pub mod point;
pub mod random;
pub mod direction;
pub mod segment_bounds;
pub mod rect_bounds;
pub mod clip;
pub mod frame;
pub mod crossing;
pub mod bounds;
pub mod dir_bounds;
pub mod tile_map;
pub mod tile;
pub mod stoplight;
pub mod vehicle;
pub mod stop_sign;
