use vstd::prelude::*;

use crate::file_types::{AnimationFileType, AudioFileType, ImageFileType, ModelFileType};
use crate::viewport::PreviewControlScheme;

verus! {

pub const LOAD_MODELS: u32 = 1;
pub const LOAD_IMAGES: u32 = 2;
pub const LOAD_MATERIALS: u32 = 4;
pub const LOAD_ANIMATIONS: u32 = 8;
pub const LOAD_SOUNDS: u32 = 16;
pub const LOAD_RAW_FILES: u32 = 32;
pub const LOAD_FORCE_RAW_FILES: u32 = 64;

pub const EXPORT_OBJ: u32 = 1;
pub const EXPORT_SMD: u32 = 2;
pub const EXPORT_XNA_LARA: u32 = 4;
pub const EXPORT_XMODEL_EXPORT: u32 = 8;
pub const EXPORT_CAST: u32 = 32;
pub const EXPORT_MAYA: u32 = 64;
pub const EXPORT_FBX: u32 = 128;

pub const ANIM_EXPORT_CAST: u32 = 2;

pub const AUDIO_EXPORT_WAV: u32 = 1;
pub const AUDIO_EXPORT_FLAC: u32 = 4;

/// The lowest and highest far clip distances the preview uses.
pub const FAR_CLIP_MIN: u32 = 10000;
pub const FAR_CLIP_MAX: u32 = 1000000;

/// How normal maps are processed when images are exported.
#[derive(Clone, Copy, Debug, PartialEq, Eq, Structural)]
pub enum ImageNormalMapProcessing {
    NoProcessing,
    OpenGl,
    DirectX,
}

/// The order assets are listed in.
#[derive(Clone, Copy, Debug, PartialEq, Eq, Structural)]
pub enum AssetSortOrder {
    Unsorted,
    Name,
}

/// Every bit of `flag` is set in `bits`.
pub open spec fn has(bits: u32, flag: u32) -> bool {
    bits & flag == flag
}

/// `bits` with the bits of `flag` set or cleared.
pub open spec fn with_flag(bits: u32, flag: u32, on: bool) -> u32 {
    if on {
        bits | flag
    } else {
        bits & !flag
    }
}

/// Setting or clearing a flag is seen by a later test of that flag.
pub proof fn lemma_with_flag(bits: u32, flag: u32, on: bool)
    requires
        flag != 0,
    ensures
        has(with_flag(bits, flag, on), flag) == on,
{
    assert((bits | flag) & flag == flag) by (bit_vector);
    assert(flag != 0 ==> (bits & !flag) & flag != flag) by (bit_vector);
}

/// Setting or clearing a flag leaves every test of a disjoint flag as it was.
pub proof fn lemma_with_flag_other(bits: u32, flag: u32, other: u32, on: bool)
    requires
        flag & other == 0,
    ensures
        has(with_flag(bits, flag, on), other) == has(bits, other),
{
    assert(flag & other == 0 ==> (((bits | flag) & other == other) == (bits & other == other))) by (bit_vector);
    assert(flag & other == 0 ==> (((bits & !flag) & other == other) == (bits & other == other))) by (bit_vector);
}

/// The load flags are pairwise disjoint.
proof fn lemma_load_flags_disjoint()
    ensures
        LOAD_MODELS & LOAD_IMAGES == 0,
        LOAD_MODELS & LOAD_MATERIALS == 0,
        LOAD_MODELS & LOAD_ANIMATIONS == 0,
        LOAD_MODELS & LOAD_SOUNDS == 0,
        LOAD_MODELS & LOAD_RAW_FILES == 0,
        LOAD_MODELS & LOAD_FORCE_RAW_FILES == 0,
        LOAD_IMAGES & LOAD_MODELS == 0,
        LOAD_IMAGES & LOAD_MATERIALS == 0,
        LOAD_IMAGES & LOAD_ANIMATIONS == 0,
        LOAD_IMAGES & LOAD_SOUNDS == 0,
        LOAD_IMAGES & LOAD_RAW_FILES == 0,
        LOAD_IMAGES & LOAD_FORCE_RAW_FILES == 0,
        LOAD_MATERIALS & LOAD_MODELS == 0,
        LOAD_MATERIALS & LOAD_IMAGES == 0,
        LOAD_MATERIALS & LOAD_ANIMATIONS == 0,
        LOAD_MATERIALS & LOAD_SOUNDS == 0,
        LOAD_MATERIALS & LOAD_RAW_FILES == 0,
        LOAD_MATERIALS & LOAD_FORCE_RAW_FILES == 0,
        LOAD_ANIMATIONS & LOAD_MODELS == 0,
        LOAD_ANIMATIONS & LOAD_IMAGES == 0,
        LOAD_ANIMATIONS & LOAD_MATERIALS == 0,
        LOAD_ANIMATIONS & LOAD_SOUNDS == 0,
        LOAD_ANIMATIONS & LOAD_RAW_FILES == 0,
        LOAD_ANIMATIONS & LOAD_FORCE_RAW_FILES == 0,
        LOAD_SOUNDS & LOAD_MODELS == 0,
        LOAD_SOUNDS & LOAD_IMAGES == 0,
        LOAD_SOUNDS & LOAD_MATERIALS == 0,
        LOAD_SOUNDS & LOAD_ANIMATIONS == 0,
        LOAD_SOUNDS & LOAD_RAW_FILES == 0,
        LOAD_SOUNDS & LOAD_FORCE_RAW_FILES == 0,
        LOAD_RAW_FILES & LOAD_MODELS == 0,
        LOAD_RAW_FILES & LOAD_IMAGES == 0,
        LOAD_RAW_FILES & LOAD_MATERIALS == 0,
        LOAD_RAW_FILES & LOAD_ANIMATIONS == 0,
        LOAD_RAW_FILES & LOAD_SOUNDS == 0,
        LOAD_RAW_FILES & LOAD_FORCE_RAW_FILES == 0,
        LOAD_FORCE_RAW_FILES & LOAD_MODELS == 0,
        LOAD_FORCE_RAW_FILES & LOAD_IMAGES == 0,
        LOAD_FORCE_RAW_FILES & LOAD_MATERIALS == 0,
        LOAD_FORCE_RAW_FILES & LOAD_ANIMATIONS == 0,
        LOAD_FORCE_RAW_FILES & LOAD_SOUNDS == 0,
        LOAD_FORCE_RAW_FILES & LOAD_RAW_FILES == 0,
{
    assert(1u32 & 2u32 == 0u32 && 1u32 & 4u32 == 0u32 && 1u32 & 8u32 == 0u32 && 1u32 & 16u32 == 0u32 && 1u32 & 32u32 == 0u32 && 1u32 & 64u32 == 0u32 && 2u32 & 1u32 == 0u32 && 2u32 & 4u32 == 0u32 && 2u32 & 8u32 == 0u32 && 2u32 & 16u32 == 0u32 && 2u32 & 32u32 == 0u32 && 2u32 & 64u32 == 0u32 && 4u32 & 1u32 == 0u32 && 4u32 & 2u32 == 0u32 && 4u32 & 8u32 == 0u32 && 4u32 & 16u32 == 0u32 && 4u32 & 32u32 == 0u32 && 4u32 & 64u32 == 0u32 && 8u32 & 1u32 == 0u32 && 8u32 & 2u32 == 0u32 && 8u32 & 4u32 == 0u32 && 8u32 & 16u32 == 0u32 && 8u32 & 32u32 == 0u32 && 8u32 & 64u32 == 0u32 && 16u32 & 1u32 == 0u32 && 16u32 & 2u32 == 0u32 && 16u32 & 4u32 == 0u32 && 16u32 & 8u32 == 0u32 && 16u32 & 32u32 == 0u32 && 16u32 & 64u32 == 0u32 && 32u32 & 1u32 == 0u32 && 32u32 & 2u32 == 0u32 && 32u32 & 4u32 == 0u32 && 32u32 & 8u32 == 0u32 && 32u32 & 16u32 == 0u32 && 32u32 & 64u32 == 0u32 && 64u32 & 1u32 == 0u32 && 64u32 & 2u32 == 0u32 && 64u32 & 4u32 == 0u32 && 64u32 & 8u32 == 0u32 && 64u32 & 16u32 == 0u32 && 64u32 & 32u32 == 0u32) by (bit_vector);
}

/// The settings' values.
pub struct SettingsModel {
    pub version: u32,
    pub load_flags: u32,
    pub model_flags: u32,
    pub anim_flags: u32,
    pub audio_flags: u32,
    pub image_file_type: ImageFileType,
    pub image_normal_map_processing: ImageNormalMapProcessing,
    pub image_download_cdn: bool,
    pub preview_download_cdn: bool,
    pub output_directory: Option<Seq<char>>,
    pub preview_controls: PreviewControlScheme,
    pub preview_overlay: bool,
    pub auto_scale: bool,
    pub far_clip: u32,
    pub lod_export: bool,
    pub export_material_info: bool,
    pub export_material_folders: bool,
    pub strip_material_dir: bool,
    pub log_assets: bool,
    pub skip_previously_exported: bool,
    pub asset_order: AssetSortOrder,
}

/// Global application settings.
#[derive(Clone, Debug)]
pub struct PorterSettings {
    version: u32,
    load_settings: u32,
    model_settings: u32,
    anim_settings: u32,
    audio_settings: u32,
    image_file_type: ImageFileType,
    image_normal_map_processing: ImageNormalMapProcessing,
    image_download_cdn: bool,
    preview_download_cdn: bool,
    output_directory: Option<String>,
    preview_controls: PreviewControlScheme,
    preview_overlay: bool,
    auto_scale: bool,
    far_clip: u32,
    lod_export: bool,
    export_material_info: bool,
    export_material_folders: bool,
    strip_material_dir: bool,
    log_assets: bool,
    skip_previously_exported: bool,
    asset_order: AssetSortOrder,
}

impl View for PorterSettings {
    type V = SettingsModel;

    closed spec fn view(&self) -> SettingsModel {
        SettingsModel {
            version: self.version,
            load_flags: self.load_settings,
            model_flags: self.model_settings,
            anim_flags: self.anim_settings,
            audio_flags: self.audio_settings,
            image_file_type: self.image_file_type,
            image_normal_map_processing: self.image_normal_map_processing,
            image_download_cdn: self.image_download_cdn,
            preview_download_cdn: self.preview_download_cdn,
            output_directory: match self.output_directory {
                Some(s) => Some(s@),
                None => None,
            },
            preview_controls: self.preview_controls,
            preview_overlay: self.preview_overlay,
            auto_scale: self.auto_scale,
            far_clip: self.far_clip,
            lod_export: self.lod_export,
            export_material_info: self.export_material_info,
            export_material_folders: self.export_material_folders,
            strip_material_dir: self.strip_material_dir,
            log_assets: self.log_assets,
            skip_previously_exported: self.skip_previously_exported,
            asset_order: self.asset_order,
        }
    }
}

/// The default settings: every kind of asset loaded but raw files, cast export for models and
/// animations, wav for audio, dds images.
pub open spec fn default_settings() -> SettingsModel {
    SettingsModel {
        version: 1,
        load_flags: LOAD_MODELS | LOAD_IMAGES | LOAD_MATERIALS | LOAD_ANIMATIONS | LOAD_SOUNDS,
        model_flags: EXPORT_CAST,
        anim_flags: ANIM_EXPORT_CAST,
        audio_flags: AUDIO_EXPORT_WAV,
        image_file_type: ImageFileType::Dds,
        image_normal_map_processing: ImageNormalMapProcessing::NoProcessing,
        image_download_cdn: true,
        preview_download_cdn: false,
        output_directory: None,
        preview_controls: PreviewControlScheme::Simple,
        preview_overlay: true,
        auto_scale: true,
        far_clip: 10000,
        lod_export: false,
        export_material_info: true,
        export_material_folders: true,
        strip_material_dir: false,
        log_assets: false,
        skip_previously_exported: true,
        asset_order: AssetSortOrder::Name,
    }
}

impl Default for PorterSettings {
    fn default() -> (r: PorterSettings)
        ensures
            r@ == default_settings(),
    {
        PorterSettings {
            version: 1,
            load_settings: LOAD_MODELS | LOAD_IMAGES | LOAD_MATERIALS | LOAD_ANIMATIONS | LOAD_SOUNDS,
            model_settings: EXPORT_CAST,
            anim_settings: ANIM_EXPORT_CAST,
            audio_settings: AUDIO_EXPORT_WAV,
            image_file_type: ImageFileType::Dds,
            image_normal_map_processing: ImageNormalMapProcessing::NoProcessing,
            image_download_cdn: true,
            preview_download_cdn: false,
            output_directory: None,
            preview_controls: PreviewControlScheme::Simple,
            preview_overlay: true,
            auto_scale: true,
            far_clip: 10000,
            lod_export: false,
            export_material_info: true,
            export_material_folders: true,
            strip_material_dir: false,
            log_assets: false,
            skip_previously_exported: true,
            asset_order: AssetSortOrder::Name,
        }
    }
}

/// The model file types whose flags are set, in declaration order.
pub open spec fn model_types_of(bits: u32) -> Seq<ModelFileType> {
    (if has(bits, EXPORT_OBJ) { seq![ModelFileType::Obj] } else { seq![] })
        + (if has(bits, EXPORT_SMD) { seq![ModelFileType::Smd] } else { seq![] })
        + (if has(bits, EXPORT_XNA_LARA) { seq![ModelFileType::XnaLara] } else { seq![] })
        + (if has(bits, EXPORT_XMODEL_EXPORT) { seq![ModelFileType::XModelExport] } else { seq![] })
        + (if has(bits, EXPORT_CAST) { seq![ModelFileType::Cast] } else { seq![] })
        + (if has(bits, EXPORT_MAYA) { seq![ModelFileType::Maya] } else { seq![] })
        + (if has(bits, EXPORT_FBX) { seq![ModelFileType::Fbx] } else { seq![] })
}

/// The flag of a model file type.
pub open spec fn model_flag(t: ModelFileType) -> u32 {
    match t {
        ModelFileType::Obj => EXPORT_OBJ,
        ModelFileType::Smd => EXPORT_SMD,
        ModelFileType::XnaLara => EXPORT_XNA_LARA,
        ModelFileType::XModelExport => EXPORT_XMODEL_EXPORT,
        ModelFileType::Cast => EXPORT_CAST,
        ModelFileType::Maya => EXPORT_MAYA,
        ModelFileType::Fbx => EXPORT_FBX,
    }
}

/// The audio file types whose flags are set: wav, then flac. Ogg has no flag.
pub open spec fn audio_types_of(bits: u32) -> Seq<AudioFileType> {
    (if has(bits, AUDIO_EXPORT_WAV) { seq![AudioFileType::Wav] } else { seq![] })
        + (if has(bits, AUDIO_EXPORT_FLAC) { seq![AudioFileType::Flac] } else { seq![] })
}

/// `x` held within `[lo, hi]`.
pub open spec fn clamp(x: u32, lo: u32, hi: u32) -> u32 {
    if x < lo {
        lo
    } else if x > hi {
        hi
    } else {
        x
    }
}

fn push_if(v: &mut Vec<ModelFileType>, cond: bool, t: ModelFileType)
    ensures
        final(v)@ == old(v)@ + (if cond { seq![t] } else { seq![] }),
{
    if cond {
        v.push(t);
    }
    assert(v@ =~= old(v)@ + (if cond { seq![t] } else { seq![] }));
}

impl PorterSettings {
    /// Whether the new settings change what is loaded or how it is listed, which asks for a
    /// reload.
    pub fn reload_required(&self, new_settings: &Self) -> (r: bool)
        ensures
            r == (self.load_models() != new_settings.load_models()
                || self.load_animations() != new_settings.load_animations()
                || self.load_images() != new_settings.load_images()
                || self.load_materials() != new_settings.load_materials()
                || self.load_sounds() != new_settings.load_sounds()
                || self.load_raw_files() != new_settings.load_raw_files()
                || self.force_raw_files() != new_settings.force_raw_files()
                || self@.asset_order != new_settings@.asset_order),
    {
        if self.load_models() != new_settings.load_models()
            || self.load_animations() != new_settings.load_animations()
            || self.load_images() != new_settings.load_images()
            || self.load_materials() != new_settings.load_materials()
            || self.load_sounds() != new_settings.load_sounds()
            || self.load_raw_files() != new_settings.load_raw_files()
            || self.force_raw_files() != new_settings.force_raw_files()
            || self.asset_sorting() != new_settings.asset_sorting() {
            return true;
        }
        false
    }

    /// Whether or not to load models.
    #[verifier::when_used_as_spec(load_models_spec)]
    pub fn load_models(&self) -> (r: bool)
        ensures
            r == has(self@.load_flags, LOAD_MODELS),
    {
        self.load_settings & LOAD_MODELS == LOAD_MODELS
    }

    /// Whether the `LOAD_MODELS` flag is set.
    pub open spec fn load_models_spec(&self) -> bool {
        has(self@.load_flags, LOAD_MODELS)
    }

    /// Sets: whether or not to load models.
    pub fn set_load_models(&mut self, value: bool)
        ensures
            final(self)@ == (SettingsModel { load_flags: with_flag(old(self)@.load_flags, LOAD_MODELS, value), ..old(self)@ }),
            has(final(self)@.load_flags, LOAD_MODELS) == value,
            has(final(self)@.load_flags, LOAD_IMAGES) == has(old(self)@.load_flags, LOAD_IMAGES),
            has(final(self)@.load_flags, LOAD_MATERIALS) == has(old(self)@.load_flags, LOAD_MATERIALS),
            has(final(self)@.load_flags, LOAD_ANIMATIONS) == has(old(self)@.load_flags, LOAD_ANIMATIONS),
            has(final(self)@.load_flags, LOAD_SOUNDS) == has(old(self)@.load_flags, LOAD_SOUNDS),
            has(final(self)@.load_flags, LOAD_RAW_FILES) == has(old(self)@.load_flags, LOAD_RAW_FILES),
            has(final(self)@.load_flags, LOAD_FORCE_RAW_FILES) == has(old(self)@.load_flags, LOAD_FORCE_RAW_FILES),
    {
        proof {
            lemma_with_flag(self.load_settings, LOAD_MODELS, value);
            lemma_load_flags_disjoint();
            lemma_with_flag_other(self.load_settings, LOAD_MODELS, LOAD_IMAGES, value);
            lemma_with_flag_other(self.load_settings, LOAD_MODELS, LOAD_MATERIALS, value);
            lemma_with_flag_other(self.load_settings, LOAD_MODELS, LOAD_ANIMATIONS, value);
            lemma_with_flag_other(self.load_settings, LOAD_MODELS, LOAD_SOUNDS, value);
            lemma_with_flag_other(self.load_settings, LOAD_MODELS, LOAD_RAW_FILES, value);
            lemma_with_flag_other(self.load_settings, LOAD_MODELS, LOAD_FORCE_RAW_FILES, value);
        }
        if value {
            self.load_settings = self.load_settings | LOAD_MODELS;
        } else {
            self.load_settings = self.load_settings & !LOAD_MODELS;
        }
    }

    /// Whether or not to load images.
    #[verifier::when_used_as_spec(load_images_spec)]
    pub fn load_images(&self) -> (r: bool)
        ensures
            r == has(self@.load_flags, LOAD_IMAGES),
    {
        self.load_settings & LOAD_IMAGES == LOAD_IMAGES
    }

    /// Whether the `LOAD_IMAGES` flag is set.
    pub open spec fn load_images_spec(&self) -> bool {
        has(self@.load_flags, LOAD_IMAGES)
    }

    /// Sets: whether or not to load images.
    pub fn set_load_images(&mut self, value: bool)
        ensures
            final(self)@ == (SettingsModel { load_flags: with_flag(old(self)@.load_flags, LOAD_IMAGES, value), ..old(self)@ }),
            has(final(self)@.load_flags, LOAD_IMAGES) == value,
            has(final(self)@.load_flags, LOAD_MODELS) == has(old(self)@.load_flags, LOAD_MODELS),
            has(final(self)@.load_flags, LOAD_MATERIALS) == has(old(self)@.load_flags, LOAD_MATERIALS),
            has(final(self)@.load_flags, LOAD_ANIMATIONS) == has(old(self)@.load_flags, LOAD_ANIMATIONS),
            has(final(self)@.load_flags, LOAD_SOUNDS) == has(old(self)@.load_flags, LOAD_SOUNDS),
            has(final(self)@.load_flags, LOAD_RAW_FILES) == has(old(self)@.load_flags, LOAD_RAW_FILES),
            has(final(self)@.load_flags, LOAD_FORCE_RAW_FILES) == has(old(self)@.load_flags, LOAD_FORCE_RAW_FILES),
    {
        proof {
            lemma_with_flag(self.load_settings, LOAD_IMAGES, value);
            lemma_load_flags_disjoint();
            lemma_with_flag_other(self.load_settings, LOAD_IMAGES, LOAD_MODELS, value);
            lemma_with_flag_other(self.load_settings, LOAD_IMAGES, LOAD_MATERIALS, value);
            lemma_with_flag_other(self.load_settings, LOAD_IMAGES, LOAD_ANIMATIONS, value);
            lemma_with_flag_other(self.load_settings, LOAD_IMAGES, LOAD_SOUNDS, value);
            lemma_with_flag_other(self.load_settings, LOAD_IMAGES, LOAD_RAW_FILES, value);
            lemma_with_flag_other(self.load_settings, LOAD_IMAGES, LOAD_FORCE_RAW_FILES, value);
        }
        if value {
            self.load_settings = self.load_settings | LOAD_IMAGES;
        } else {
            self.load_settings = self.load_settings & !LOAD_IMAGES;
        }
    }

    /// Whether or not to load materials.
    #[verifier::when_used_as_spec(load_materials_spec)]
    pub fn load_materials(&self) -> (r: bool)
        ensures
            r == has(self@.load_flags, LOAD_MATERIALS),
    {
        self.load_settings & LOAD_MATERIALS == LOAD_MATERIALS
    }

    /// Whether the `LOAD_MATERIALS` flag is set.
    pub open spec fn load_materials_spec(&self) -> bool {
        has(self@.load_flags, LOAD_MATERIALS)
    }

    /// Sets: whether or not to load materials.
    pub fn set_load_materials(&mut self, value: bool)
        ensures
            final(self)@ == (SettingsModel { load_flags: with_flag(old(self)@.load_flags, LOAD_MATERIALS, value), ..old(self)@ }),
            has(final(self)@.load_flags, LOAD_MATERIALS) == value,
            has(final(self)@.load_flags, LOAD_MODELS) == has(old(self)@.load_flags, LOAD_MODELS),
            has(final(self)@.load_flags, LOAD_IMAGES) == has(old(self)@.load_flags, LOAD_IMAGES),
            has(final(self)@.load_flags, LOAD_ANIMATIONS) == has(old(self)@.load_flags, LOAD_ANIMATIONS),
            has(final(self)@.load_flags, LOAD_SOUNDS) == has(old(self)@.load_flags, LOAD_SOUNDS),
            has(final(self)@.load_flags, LOAD_RAW_FILES) == has(old(self)@.load_flags, LOAD_RAW_FILES),
            has(final(self)@.load_flags, LOAD_FORCE_RAW_FILES) == has(old(self)@.load_flags, LOAD_FORCE_RAW_FILES),
    {
        proof {
            lemma_with_flag(self.load_settings, LOAD_MATERIALS, value);
            lemma_load_flags_disjoint();
            lemma_with_flag_other(self.load_settings, LOAD_MATERIALS, LOAD_MODELS, value);
            lemma_with_flag_other(self.load_settings, LOAD_MATERIALS, LOAD_IMAGES, value);
            lemma_with_flag_other(self.load_settings, LOAD_MATERIALS, LOAD_ANIMATIONS, value);
            lemma_with_flag_other(self.load_settings, LOAD_MATERIALS, LOAD_SOUNDS, value);
            lemma_with_flag_other(self.load_settings, LOAD_MATERIALS, LOAD_RAW_FILES, value);
            lemma_with_flag_other(self.load_settings, LOAD_MATERIALS, LOAD_FORCE_RAW_FILES, value);
        }
        if value {
            self.load_settings = self.load_settings | LOAD_MATERIALS;
        } else {
            self.load_settings = self.load_settings & !LOAD_MATERIALS;
        }
    }

    /// Whether or not to load animations.
    #[verifier::when_used_as_spec(load_animations_spec)]
    pub fn load_animations(&self) -> (r: bool)
        ensures
            r == has(self@.load_flags, LOAD_ANIMATIONS),
    {
        self.load_settings & LOAD_ANIMATIONS == LOAD_ANIMATIONS
    }

    /// Whether the `LOAD_ANIMATIONS` flag is set.
    pub open spec fn load_animations_spec(&self) -> bool {
        has(self@.load_flags, LOAD_ANIMATIONS)
    }

    /// Sets: whether or not to load animations.
    pub fn set_load_animations(&mut self, value: bool)
        ensures
            final(self)@ == (SettingsModel { load_flags: with_flag(old(self)@.load_flags, LOAD_ANIMATIONS, value), ..old(self)@ }),
            has(final(self)@.load_flags, LOAD_ANIMATIONS) == value,
            has(final(self)@.load_flags, LOAD_MODELS) == has(old(self)@.load_flags, LOAD_MODELS),
            has(final(self)@.load_flags, LOAD_IMAGES) == has(old(self)@.load_flags, LOAD_IMAGES),
            has(final(self)@.load_flags, LOAD_MATERIALS) == has(old(self)@.load_flags, LOAD_MATERIALS),
            has(final(self)@.load_flags, LOAD_SOUNDS) == has(old(self)@.load_flags, LOAD_SOUNDS),
            has(final(self)@.load_flags, LOAD_RAW_FILES) == has(old(self)@.load_flags, LOAD_RAW_FILES),
            has(final(self)@.load_flags, LOAD_FORCE_RAW_FILES) == has(old(self)@.load_flags, LOAD_FORCE_RAW_FILES),
    {
        proof {
            lemma_with_flag(self.load_settings, LOAD_ANIMATIONS, value);
            lemma_load_flags_disjoint();
            lemma_with_flag_other(self.load_settings, LOAD_ANIMATIONS, LOAD_MODELS, value);
            lemma_with_flag_other(self.load_settings, LOAD_ANIMATIONS, LOAD_IMAGES, value);
            lemma_with_flag_other(self.load_settings, LOAD_ANIMATIONS, LOAD_MATERIALS, value);
            lemma_with_flag_other(self.load_settings, LOAD_ANIMATIONS, LOAD_SOUNDS, value);
            lemma_with_flag_other(self.load_settings, LOAD_ANIMATIONS, LOAD_RAW_FILES, value);
            lemma_with_flag_other(self.load_settings, LOAD_ANIMATIONS, LOAD_FORCE_RAW_FILES, value);
        }
        if value {
            self.load_settings = self.load_settings | LOAD_ANIMATIONS;
        } else {
            self.load_settings = self.load_settings & !LOAD_ANIMATIONS;
        }
    }

    /// Whether or not to load sounds.
    #[verifier::when_used_as_spec(load_sounds_spec)]
    pub fn load_sounds(&self) -> (r: bool)
        ensures
            r == has(self@.load_flags, LOAD_SOUNDS),
    {
        self.load_settings & LOAD_SOUNDS == LOAD_SOUNDS
    }

    /// Whether the `LOAD_SOUNDS` flag is set.
    pub open spec fn load_sounds_spec(&self) -> bool {
        has(self@.load_flags, LOAD_SOUNDS)
    }

    /// Sets: whether or not to load sounds.
    pub fn set_load_sounds(&mut self, value: bool)
        ensures
            final(self)@ == (SettingsModel { load_flags: with_flag(old(self)@.load_flags, LOAD_SOUNDS, value), ..old(self)@ }),
            has(final(self)@.load_flags, LOAD_SOUNDS) == value,
            has(final(self)@.load_flags, LOAD_MODELS) == has(old(self)@.load_flags, LOAD_MODELS),
            has(final(self)@.load_flags, LOAD_IMAGES) == has(old(self)@.load_flags, LOAD_IMAGES),
            has(final(self)@.load_flags, LOAD_MATERIALS) == has(old(self)@.load_flags, LOAD_MATERIALS),
            has(final(self)@.load_flags, LOAD_ANIMATIONS) == has(old(self)@.load_flags, LOAD_ANIMATIONS),
            has(final(self)@.load_flags, LOAD_RAW_FILES) == has(old(self)@.load_flags, LOAD_RAW_FILES),
            has(final(self)@.load_flags, LOAD_FORCE_RAW_FILES) == has(old(self)@.load_flags, LOAD_FORCE_RAW_FILES),
    {
        proof {
            lemma_with_flag(self.load_settings, LOAD_SOUNDS, value);
            lemma_load_flags_disjoint();
            lemma_with_flag_other(self.load_settings, LOAD_SOUNDS, LOAD_MODELS, value);
            lemma_with_flag_other(self.load_settings, LOAD_SOUNDS, LOAD_IMAGES, value);
            lemma_with_flag_other(self.load_settings, LOAD_SOUNDS, LOAD_MATERIALS, value);
            lemma_with_flag_other(self.load_settings, LOAD_SOUNDS, LOAD_ANIMATIONS, value);
            lemma_with_flag_other(self.load_settings, LOAD_SOUNDS, LOAD_RAW_FILES, value);
            lemma_with_flag_other(self.load_settings, LOAD_SOUNDS, LOAD_FORCE_RAW_FILES, value);
        }
        if value {
            self.load_settings = self.load_settings | LOAD_SOUNDS;
        } else {
            self.load_settings = self.load_settings & !LOAD_SOUNDS;
        }
    }

    /// Whether or not to load raw files.
    #[verifier::when_used_as_spec(load_raw_files_spec)]
    pub fn load_raw_files(&self) -> (r: bool)
        ensures
            r == has(self@.load_flags, LOAD_RAW_FILES),
    {
        self.load_settings & LOAD_RAW_FILES == LOAD_RAW_FILES
    }

    /// Whether the `LOAD_RAW_FILES` flag is set.
    pub open spec fn load_raw_files_spec(&self) -> bool {
        has(self@.load_flags, LOAD_RAW_FILES)
    }

    /// Sets: whether or not to load raw files.
    pub fn set_load_raw_files(&mut self, value: bool)
        ensures
            final(self)@ == (SettingsModel { load_flags: with_flag(old(self)@.load_flags, LOAD_RAW_FILES, value), ..old(self)@ }),
            has(final(self)@.load_flags, LOAD_RAW_FILES) == value,
            has(final(self)@.load_flags, LOAD_MODELS) == has(old(self)@.load_flags, LOAD_MODELS),
            has(final(self)@.load_flags, LOAD_IMAGES) == has(old(self)@.load_flags, LOAD_IMAGES),
            has(final(self)@.load_flags, LOAD_MATERIALS) == has(old(self)@.load_flags, LOAD_MATERIALS),
            has(final(self)@.load_flags, LOAD_ANIMATIONS) == has(old(self)@.load_flags, LOAD_ANIMATIONS),
            has(final(self)@.load_flags, LOAD_SOUNDS) == has(old(self)@.load_flags, LOAD_SOUNDS),
            has(final(self)@.load_flags, LOAD_FORCE_RAW_FILES) == has(old(self)@.load_flags, LOAD_FORCE_RAW_FILES),
    {
        proof {
            lemma_with_flag(self.load_settings, LOAD_RAW_FILES, value);
            lemma_load_flags_disjoint();
            lemma_with_flag_other(self.load_settings, LOAD_RAW_FILES, LOAD_MODELS, value);
            lemma_with_flag_other(self.load_settings, LOAD_RAW_FILES, LOAD_IMAGES, value);
            lemma_with_flag_other(self.load_settings, LOAD_RAW_FILES, LOAD_MATERIALS, value);
            lemma_with_flag_other(self.load_settings, LOAD_RAW_FILES, LOAD_ANIMATIONS, value);
            lemma_with_flag_other(self.load_settings, LOAD_RAW_FILES, LOAD_SOUNDS, value);
            lemma_with_flag_other(self.load_settings, LOAD_RAW_FILES, LOAD_FORCE_RAW_FILES, value);
        }
        if value {
            self.load_settings = self.load_settings | LOAD_RAW_FILES;
        } else {
            self.load_settings = self.load_settings & !LOAD_RAW_FILES;
        }
    }

    /// Whether or not to force all assets as raw files.
    #[verifier::when_used_as_spec(force_raw_files_spec)]
    pub fn force_raw_files(&self) -> (r: bool)
        ensures
            r == has(self@.load_flags, LOAD_FORCE_RAW_FILES),
    {
        self.load_settings & LOAD_FORCE_RAW_FILES == LOAD_FORCE_RAW_FILES
    }

    /// Whether the `LOAD_FORCE_RAW_FILES` flag is set.
    pub open spec fn force_raw_files_spec(&self) -> bool {
        has(self@.load_flags, LOAD_FORCE_RAW_FILES)
    }

    /// Sets: whether or not to force all assets as raw files.
    pub fn set_force_raw_files(&mut self, value: bool)
        ensures
            final(self)@ == (SettingsModel { load_flags: with_flag(old(self)@.load_flags, LOAD_FORCE_RAW_FILES, value), ..old(self)@ }),
            has(final(self)@.load_flags, LOAD_FORCE_RAW_FILES) == value,
            has(final(self)@.load_flags, LOAD_MODELS) == has(old(self)@.load_flags, LOAD_MODELS),
            has(final(self)@.load_flags, LOAD_IMAGES) == has(old(self)@.load_flags, LOAD_IMAGES),
            has(final(self)@.load_flags, LOAD_MATERIALS) == has(old(self)@.load_flags, LOAD_MATERIALS),
            has(final(self)@.load_flags, LOAD_ANIMATIONS) == has(old(self)@.load_flags, LOAD_ANIMATIONS),
            has(final(self)@.load_flags, LOAD_SOUNDS) == has(old(self)@.load_flags, LOAD_SOUNDS),
            has(final(self)@.load_flags, LOAD_RAW_FILES) == has(old(self)@.load_flags, LOAD_RAW_FILES),
    {
        proof {
            lemma_with_flag(self.load_settings, LOAD_FORCE_RAW_FILES, value);
            lemma_load_flags_disjoint();
            lemma_with_flag_other(self.load_settings, LOAD_FORCE_RAW_FILES, LOAD_MODELS, value);
            lemma_with_flag_other(self.load_settings, LOAD_FORCE_RAW_FILES, LOAD_IMAGES, value);
            lemma_with_flag_other(self.load_settings, LOAD_FORCE_RAW_FILES, LOAD_MATERIALS, value);
            lemma_with_flag_other(self.load_settings, LOAD_FORCE_RAW_FILES, LOAD_ANIMATIONS, value);
            lemma_with_flag_other(self.load_settings, LOAD_FORCE_RAW_FILES, LOAD_SOUNDS, value);
            lemma_with_flag_other(self.load_settings, LOAD_FORCE_RAW_FILES, LOAD_RAW_FILES, value);
        }
        if value {
            self.load_settings = self.load_settings | LOAD_FORCE_RAW_FILES;
        } else {
            self.load_settings = self.load_settings & !LOAD_FORCE_RAW_FILES;
        }
    }

    /// The model file types to export to, in declaration order.
    pub fn model_file_types(&self) -> (r: Vec<ModelFileType>)
        ensures
            r@ == model_types_of(self@.model_flags),
    {
        let bits = self.model_settings;
        let ghost b = bits;
        let mut result: Vec<ModelFileType> = Vec::new();
        push_if(&mut result, bits & EXPORT_OBJ == EXPORT_OBJ, ModelFileType::Obj);
        push_if(&mut result, bits & EXPORT_SMD == EXPORT_SMD, ModelFileType::Smd);
        let ghost r2 = result@;
        assert(r2 =~= (if has(b, EXPORT_OBJ) { seq![ModelFileType::Obj] } else { seq![] })
            + (if has(b, EXPORT_SMD) { seq![ModelFileType::Smd] } else { seq![] }));
        push_if(&mut result, bits & EXPORT_XNA_LARA == EXPORT_XNA_LARA, ModelFileType::XnaLara);
        push_if(&mut result, bits & EXPORT_XMODEL_EXPORT == EXPORT_XMODEL_EXPORT, ModelFileType::XModelExport);
        let ghost r4 = result@;
        assert(r4 =~= r2 + (if has(b, EXPORT_XNA_LARA) { seq![ModelFileType::XnaLara] } else { seq![] })
            + (if has(b, EXPORT_XMODEL_EXPORT) { seq![ModelFileType::XModelExport] } else { seq![] }));
        push_if(&mut result, bits & EXPORT_CAST == EXPORT_CAST, ModelFileType::Cast);
        push_if(&mut result, bits & EXPORT_MAYA == EXPORT_MAYA, ModelFileType::Maya);
        push_if(&mut result, bits & EXPORT_FBX == EXPORT_FBX, ModelFileType::Fbx);
        assert(result@ =~= r4 + (if has(b, EXPORT_CAST) { seq![ModelFileType::Cast] } else { seq![] })
            + (if has(b, EXPORT_MAYA) { seq![ModelFileType::Maya] } else { seq![] })
            + (if has(b, EXPORT_FBX) { seq![ModelFileType::Fbx] } else { seq![] }));
        result
    }

    /// Sets whether or not a model file type is in use.
    pub fn set_model_file_type(&mut self, file_type: ModelFileType, value: bool)
        ensures
            final(self)@ == (SettingsModel { model_flags: with_flag(old(self)@.model_flags, model_flag(file_type), value), ..old(self)@ }),
            has(final(self)@.model_flags, model_flag(file_type)) == value,
    {
        let flag = match file_type {
            ModelFileType::Obj => EXPORT_OBJ,
            ModelFileType::Smd => EXPORT_SMD,
            ModelFileType::XnaLara => EXPORT_XNA_LARA,
            ModelFileType::XModelExport => EXPORT_XMODEL_EXPORT,
            ModelFileType::Cast => EXPORT_CAST,
            ModelFileType::Maya => EXPORT_MAYA,
            ModelFileType::Fbx => EXPORT_FBX,
        };
        proof {
            lemma_with_flag(self.model_settings, flag, value);
        }
        if value {
            self.model_settings = self.model_settings | flag;
        } else {
            self.model_settings = self.model_settings & !flag;
        }
    }

    /// The animation file types to export to.
    pub fn anim_file_types(&self) -> (r: Vec<AnimationFileType>)
        ensures
            r@ == (if has(self@.anim_flags, ANIM_EXPORT_CAST) { seq![AnimationFileType::Cast] } else { seq![] }),
    {
        let mut result: Vec<AnimationFileType> = Vec::new();
        if self.anim_settings & ANIM_EXPORT_CAST == ANIM_EXPORT_CAST {
            result.push(AnimationFileType::Cast);
        }
        assert(result@ =~= (if has(self@.anim_flags, ANIM_EXPORT_CAST) { seq![AnimationFileType::Cast] } else { seq![] }));
        result
    }

    /// Sets whether or not an animation file type is in use.
    pub fn set_anim_file_type(&mut self, file_type: AnimationFileType, value: bool)
        ensures
            final(self)@ == (SettingsModel { anim_flags: with_flag(old(self)@.anim_flags, ANIM_EXPORT_CAST, value), ..old(self)@ }),
            has(final(self)@.anim_flags, ANIM_EXPORT_CAST) == value,
    {
        let flag = match file_type {
            AnimationFileType::Cast => ANIM_EXPORT_CAST,
        };
        proof {
            lemma_with_flag(self.anim_settings, flag, value);
        }
        if value {
            self.anim_settings = self.anim_settings | flag;
        } else {
            self.anim_settings = self.anim_settings & !flag;
        }
    }

    /// The audio file types to export to: wav, then flac.
    pub fn audio_file_types(&self) -> (r: Vec<AudioFileType>)
        ensures
            r@ == audio_types_of(self@.audio_flags),
    {
        let mut result: Vec<AudioFileType> = Vec::new();
        if self.audio_settings & AUDIO_EXPORT_WAV == AUDIO_EXPORT_WAV {
            result.push(AudioFileType::Wav);
        }
        if self.audio_settings & AUDIO_EXPORT_FLAC == AUDIO_EXPORT_FLAC {
            result.push(AudioFileType::Flac);
        }
        assert(result@ =~= audio_types_of(self@.audio_flags));
        result
    }

    /// Sets whether or not an audio file type is in use. Ogg has no flag and changes nothing.
    pub fn set_audio_file_type(&mut self, file_type: AudioFileType, value: bool)
        ensures
            file_type == AudioFileType::Ogg ==> final(self)@ == old(self)@,
            file_type == AudioFileType::Wav ==> final(self)@ == (SettingsModel { audio_flags: with_flag(old(self)@.audio_flags, AUDIO_EXPORT_WAV, value), ..old(self)@ }),
            file_type == AudioFileType::Flac ==> final(self)@ == (SettingsModel { audio_flags: with_flag(old(self)@.audio_flags, AUDIO_EXPORT_FLAC, value), ..old(self)@ }),
    {
        let flag = match file_type {
            AudioFileType::Wav => AUDIO_EXPORT_WAV,
            AudioFileType::Flac => AUDIO_EXPORT_FLAC,
            AudioFileType::Ogg => {
                return;
            },
        };
        if value {
            self.audio_settings = self.audio_settings | flag;
        } else {
            self.audio_settings = self.audio_settings & !flag;
        }
    }

    /// A custom output directory, if one was set.
    pub fn custom_output_directory(&self) -> (r: Option<&String>)
        ensures
            r is None <==> self@.output_directory is None,
            r matches Some(s) ==> self@.output_directory == Some(s@),
    {
        self.output_directory.as_ref()
    }

    /// Sets a new output directory.
    pub fn set_output_directory(&mut self, path: String)
        ensures
            final(self)@ == (SettingsModel { output_directory: Some(path@), ..old(self)@ }),
    {
        self.output_directory = Some(path);
    }

    /// The far clip distance for the preview, held within `[10000, 1000000]`.
    pub fn far_clip(&self) -> (r: u32)
        ensures
            r == clamp(self@.far_clip, FAR_CLIP_MIN, FAR_CLIP_MAX),
    {
        if self.far_clip < FAR_CLIP_MIN {
            FAR_CLIP_MIN
        } else if self.far_clip > FAR_CLIP_MAX {
            FAR_CLIP_MAX
        } else {
            self.far_clip
        }
    }

    /// Sets the far clip distance for the preview.
    pub fn set_far_clip(&mut self, far_clip: u32)
        ensures
            final(self)@ == (SettingsModel { far_clip, ..old(self)@ }),
    {
        self.far_clip = far_clip;
    }

    /// The image file type to export to.
    pub fn image_file_type(&self) -> (r: ImageFileType)
        ensures
            r == self@.image_file_type,
    {
        self.image_file_type
    }

    /// Sets: the image file type to export to.
    pub fn set_image_file_type(&mut self, value: ImageFileType)
        ensures
            final(self)@ == (SettingsModel { image_file_type: value, ..old(self)@ }),
    {
        self.image_file_type = value;
    }

    /// The image normal map processing technique.
    pub fn image_normal_map_processing(&self) -> (r: ImageNormalMapProcessing)
        ensures
            r == self@.image_normal_map_processing,
    {
        self.image_normal_map_processing
    }

    /// Sets: the image normal map processing technique.
    pub fn set_image_normal_map_processing(&mut self, value: ImageNormalMapProcessing)
        ensures
            final(self)@ == (SettingsModel { image_normal_map_processing: value, ..old(self)@ }),
    {
        self.image_normal_map_processing = value;
    }

    /// Whether or not to download high-res images from CDN.
    pub fn image_download_cdn(&self) -> (r: bool)
        ensures
            r == self@.image_download_cdn,
    {
        self.image_download_cdn
    }

    /// Sets: whether or not to download high-res images from CDN.
    pub fn set_image_download_cdn(&mut self, value: bool)
        ensures
            final(self)@ == (SettingsModel { image_download_cdn: value, ..old(self)@ }),
    {
        self.image_download_cdn = value;
    }

    /// Whether or not to download high-res images from CDN when previewing.
    pub fn preview_download_cdn(&self) -> (r: bool)
        ensures
            r == self@.preview_download_cdn,
    {
        self.preview_download_cdn
    }

    /// Sets: whether or not to download high-res images from CDN when previewing.
    pub fn set_preview_download_cdn(&mut self, value: bool)
        ensures
            final(self)@ == (SettingsModel { preview_download_cdn: value, ..old(self)@ }),
    {
        self.preview_download_cdn = value;
    }

    /// The preview control scheme.
    pub fn preview_controls(&self) -> (r: PreviewControlScheme)
        ensures
            r == self@.preview_controls,
    {
        self.preview_controls
    }

    /// Sets: the preview control scheme.
    pub fn set_preview_controls(&mut self, value: PreviewControlScheme)
        ensures
            final(self)@ == (SettingsModel { preview_controls: value, ..old(self)@ }),
    {
        self.preview_controls = value;
    }

    /// The asset sorting order.
    pub fn asset_sorting(&self) -> (r: AssetSortOrder)
        ensures
            r == self@.asset_order,
    {
        self.asset_order
    }

    /// Sets: the asset sorting order.
    pub fn set_asset_sorting(&mut self, value: AssetSortOrder)
        ensures
            final(self)@ == (SettingsModel { asset_order: value, ..old(self)@ }),
    {
        self.asset_order = value;
    }

    /// Whether or not to show the preview overlay hints.
    pub fn preview_overlay(&self) -> (r: bool)
        ensures
            r == self@.preview_overlay,
    {
        self.preview_overlay
    }

    /// Sets: whether or not to show the preview overlay hints.
    pub fn set_preview_overlay(&mut self, value: bool)
        ensures
            final(self)@ == (SettingsModel { preview_overlay: value, ..old(self)@ }),
    {
        self.preview_overlay = value;
    }

    /// Whether or not to automatically scale models and animations.
    pub fn auto_scale(&self) -> (r: bool)
        ensures
            r == self@.auto_scale,
    {
        self.auto_scale
    }

    /// Sets: whether or not to automatically scale models and animations.
    pub fn set_auto_scale(&mut self, value: bool)
        ensures
            final(self)@ == (SettingsModel { auto_scale: value, ..old(self)@ }),
    {
        self.auto_scale = value;
    }

    /// Whether or not LODs are exported.
    pub fn export_lods(&self) -> (r: bool)
        ensures
            r == self@.lod_export,
    {
        self.lod_export
    }

    /// Sets: whether or not LODs are exported.
    pub fn set_export_lods(&mut self, value: bool)
        ensures
            final(self)@ == (SettingsModel { lod_export: value, ..old(self)@ }),
    {
        self.lod_export = value;
    }

    /// Whether or not to skip items exported before.
    pub fn skip_previously_exported(&self) -> (r: bool)
        ensures
            r == self@.skip_previously_exported,
    {
        self.skip_previously_exported
    }

    /// Sets: whether or not to skip items exported before.
    pub fn set_skip_previously_exported(&mut self, value: bool)
        ensures
            final(self)@ == (SettingsModel { skip_previously_exported: value, ..old(self)@ }),
    {
        self.skip_previously_exported = value;
    }

    /// Whether or not to export material info.
    pub fn export_material_info(&self) -> (r: bool)
        ensures
            r == self@.export_material_info,
    {
        self.export_material_info
    }

    /// Sets: whether or not to export material info.
    pub fn set_export_material_info(&mut self, value: bool)
        ensures
            final(self)@ == (SettingsModel { export_material_info: value, ..old(self)@ }),
    {
        self.export_material_info = value;
    }

    /// Whether or not material images are exported into material folders.
    pub fn export_material_folders(&self) -> (r: bool)
        ensures
            r == self@.export_material_folders,
    {
        self.export_material_folders
    }

    /// Sets: whether or not material images are exported into material folders.
    pub fn set_export_material_folders(&mut self, value: bool)
        ensures
            final(self)@ == (SettingsModel { export_material_folders: value, ..old(self)@ }),
    {
        self.export_material_folders = value;
    }

    /// Whether or not to strip the directory from material paths.
    pub fn strip_material_dir(&self) -> (r: bool)
        ensures
            r == self@.strip_material_dir,
    {
        self.strip_material_dir
    }

    /// Sets: whether or not to strip the directory from material paths.
    pub fn set_strip_material_dir(&mut self, value: bool)
        ensures
            final(self)@ == (SettingsModel { strip_material_dir: value, ..old(self)@ }),
    {
        self.strip_material_dir = value;
    }

    /// Whether or not to log assets.
    pub fn log_assets(&self) -> (r: bool)
        ensures
            r == self@.log_assets,
    {
        self.log_assets
    }

    /// Sets: whether or not to log assets.
    pub fn set_log_assets(&mut self, value: bool)
        ensures
            final(self)@ == (SettingsModel { log_assets: value, ..old(self)@ }),
    {
        self.log_assets = value;
    }

    /// A copy of these settings.
    pub fn copy(&self) -> (r: PorterSettings)
        ensures
            r@ == self@,
    {
        let output_directory = match &self.output_directory {
            Some(d) => Some(d.clone()),
            None => None,
        };
        PorterSettings {
            version: self.version,
            load_settings: self.load_settings,
            model_settings: self.model_settings,
            anim_settings: self.anim_settings,
            audio_settings: self.audio_settings,
            image_file_type: self.image_file_type,
            image_normal_map_processing: self.image_normal_map_processing,
            image_download_cdn: self.image_download_cdn,
            preview_download_cdn: self.preview_download_cdn,
            output_directory,
            preview_controls: self.preview_controls,
            preview_overlay: self.preview_overlay,
            auto_scale: self.auto_scale,
            far_clip: self.far_clip,
            lod_export: self.lod_export,
            export_material_info: self.export_material_info,
            export_material_folders: self.export_material_folders,
            strip_material_dir: self.strip_material_dir,
            log_assets: self.log_assets,
            skip_previously_exported: self.skip_previously_exported,
            asset_order: self.asset_order,
        }
    }

    /// Updates a copy of these settings with `callback` and returns it; these settings are left
    /// as they are.
    pub fn update<F: FnOnce(PorterSettings) -> PorterSettings>(&self, callback: F) -> (r: PorterSettings)
        requires
            forall|s: PorterSettings| s@ == self@ ==> callback.requires((s,)),
        ensures
            exists|s: PorterSettings| s@ == self@ && callback.ensures((s,), r),
    {
        let settings = self.copy();
        let ghost given = settings;
        let r = callback(settings);
        assert(given@ == self@ && callback.ensures((given,), r));
        r
    }
}

} // verus!
