pub mod asset;
pub mod element;
pub mod geom;
pub mod highlight;
pub mod io;
pub mod layout;
pub mod paint;
pub mod style;
