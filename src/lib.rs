pub mod audio;
pub mod bytes;
pub mod codec;
pub mod export;
pub mod file_types;
pub mod hash;
pub mod model;
pub mod node;
pub mod property;
pub mod settings;
pub mod tga;
pub mod vector;
pub mod viewport;
