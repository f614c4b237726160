pub mod id;
pub mod parsec;
pub mod prefix;
pub mod section_list_cache;
pub mod mock;
