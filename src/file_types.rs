use vstd::prelude::*;

verus! {

/// A model file type the exporter can write.
#[derive(Clone, Copy, Debug, PartialEq, Eq, Structural)]
pub enum ModelFileType {
    Obj,
    Smd,
    XnaLara,
    XModelExport,
    Cast,
    Maya,
    Fbx,
}

/// An animation file type the exporter can write.
#[derive(Clone, Copy, Debug, PartialEq, Eq, Structural)]
pub enum AnimationFileType {
    Cast,
}

/// An audio file type the exporter can write.
#[derive(Clone, Copy, Debug, PartialEq, Eq, Structural)]
pub enum AudioFileType {
    Wav,
    Flac,
    Ogg,
}

/// An image file type the exporter can write.
#[derive(Clone, Copy, Debug, PartialEq, Eq, Structural)]
pub enum ImageFileType {
    Dds,
    Png,
    Tiff,
    Tga,
}

impl ModelFileType {
    /// The file extension of this type.
    pub fn extension(&self) -> (r: &'static str)
        ensures
            r@ == match *self {
                ModelFileType::Obj => "obj"@,
                ModelFileType::Smd => "smd"@,
                ModelFileType::XnaLara => "mesh.ascii"@,
                ModelFileType::XModelExport => "xmodel_export"@,
                ModelFileType::Cast => "cast"@,
                ModelFileType::Maya => "ma"@,
                ModelFileType::Fbx => "fbx"@,
            },
    {
        match self {
            ModelFileType::Obj => "obj",
            ModelFileType::Smd => "smd",
            ModelFileType::XnaLara => "mesh.ascii",
            ModelFileType::XModelExport => "xmodel_export",
            ModelFileType::Cast => "cast",
            ModelFileType::Maya => "ma",
            ModelFileType::Fbx => "fbx",
        }
    }
}

impl AnimationFileType {
    /// The file extension of this type.
    pub fn extension(&self) -> (r: &'static str)
        ensures
            r@ == "cast"@,
    {
        match self {
            AnimationFileType::Cast => "cast",
        }
    }
}

impl AudioFileType {
    /// The file extension of this type.
    pub fn extension(&self) -> (r: &'static str)
        ensures
            r@ == match *self {
                AudioFileType::Wav => "wav"@,
                AudioFileType::Flac => "flac"@,
                AudioFileType::Ogg => "ogg"@,
            },
    {
        match self {
            AudioFileType::Wav => "wav",
            AudioFileType::Flac => "flac",
            AudioFileType::Ogg => "ogg",
        }
    }
}

} // verus!
