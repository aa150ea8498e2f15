pub mod text;
pub mod command_line;
pub mod paths;
pub mod model;
pub mod config;
pub mod shell_menu;
pub mod layout;
pub mod dock;
pub mod explorer_menu;
