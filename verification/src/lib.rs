pub mod vertex;
pub mod random_triangle;
pub mod catalog;
pub mod gather_data;
pub mod bucket_quota;
pub mod shuffle;
pub mod controls;
pub mod rim_geometry;
pub mod partial_triangulation;
pub mod strip_geometry;
