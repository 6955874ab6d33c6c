pub mod anim;
pub mod bar;
pub mod canvas;
pub mod config;
pub mod geom;
pub mod notify;
pub mod text;
pub mod theme;
pub mod wayland;
pub mod widget;
