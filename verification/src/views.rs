pub mod data_base;
pub mod map_tree;
pub mod map_unit;
pub mod database;
pub mod raw_database;
pub mod raw_map_tree;
pub mod raw_map_unit;
pub mod raw_save_data;
