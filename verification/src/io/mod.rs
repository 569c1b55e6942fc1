//! What a plugin tells about itself: its name and the settings of its meta file.

pub mod active_plugin_paths;
pub mod meta_schema;
pub mod parsed_plugins;
pub mod save_to_image;
pub mod save_to_plugin;
