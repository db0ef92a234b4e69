//! Images on the document side: their tiles, their keys and their pixels.
pub mod image;
pub mod image_id;
pub mod layout;
pub mod layout_laws;
pub mod stored_image;
