//! The state of the interface that does not depend on how it is drawn.

pub mod ascii;
pub mod greyscale;
pub mod greyscale_canva;
pub mod headers;
pub mod help;
pub mod layout;
pub mod metadata;

pub use ascii::AsciiArtConverter;
pub use greyscale::GreyScaleCanva;
pub use greyscale_canva::TransposedGreyScaleCanva;
pub use headers::{decimal_string, ChannelsTabs};
pub use help::HelperPopup;
pub use metadata::channel_layout_to_string;
