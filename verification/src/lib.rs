#![allow(non_snake_case, non_camel_case_types)]

pub mod brushmodes;
pub mod fifo;
pub mod mypaint_brush_settings_gen;
pub mod mypaint_mapping;
pub mod mypaint_rectangle;
pub mod operationqueue;
pub mod rng_double;
pub mod tilemap;
pub mod mypaint_brush;
