//! Widgets: their state, their geometry, what they do on input, and what they paint.
pub mod blink;
pub mod button;
pub mod cache;
pub mod chars;
pub mod checkbox;
pub mod dropdown;
pub mod edit;
pub mod face;
pub mod ident;
pub mod lines;
pub mod multitextbox;
pub mod multitextbox_paint;
pub mod slider;
pub mod textbox;
pub mod textbox_paint;
pub mod wrap;

pub use blink::BlinkTimer;
pub use button::Button;
pub use checkbox::Checkbox;
pub use dropdown::Dropdown;
pub use multitextbox::MultiTextbox;
pub use slider::Slider;
pub use textbox::Textbox;
