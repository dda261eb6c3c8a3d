pub mod text;
pub mod sort;
pub mod paths;
pub mod library;
pub mod chapters;
pub mod metadata;
pub mod config;
pub mod list;
pub mod browser;
pub mod audio;
pub mod ui;
pub mod screen;
pub mod app;
