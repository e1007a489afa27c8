//! A software compositor: packed pixels in α + darkness form, the front-to-back `under` blend, the
//! rasterisers and boundary passes built on it, the layer compositors, and the state of the widgets.
pub mod canvas;
pub mod coord;
pub mod event;
pub mod geom;
pub mod paint;
pub mod pane;
pub mod pixel;
mod pool;
pub mod region;
pub mod rpn;
pub mod simd;
pub mod stack;
pub mod text;
pub mod theme;
pub mod widgets;
