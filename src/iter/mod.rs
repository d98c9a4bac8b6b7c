pub mod map;
pub mod multi;
pub mod shiperator;
pub mod single;
pub mod with_id;
