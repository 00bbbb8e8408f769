pub mod calculate_image_colors;
pub mod generate_database;
pub mod find_matches;
pub mod generate_mosaic;
pub mod load_databases;
pub mod name_order;
pub mod read_files;
pub mod work_split;
