use porter::audio::Audio;
use porter::file_types::{AnimationFileType, AudioFileType, ImageFileType, ModelFileType};
use porter::hash::{fnv1a_hash, HashFnv1a};
use porter::settings::{AssetSortOrder, ImageNormalMapProcessing, PorterSettings};
use porter::viewport::PreviewControlScheme;

const OFFSET: u64 = 0xcbf29ce484222325;
const PRIME: u64 = 0x100000001b3;

#[test]
fn defaults_match_the_documented_values() {
    let s = PorterSettings::default();
    assert!(s.load_models() && s.load_images() && s.load_materials() && s.load_animations() && s.load_sounds());
    assert!(!s.load_raw_files() && !s.force_raw_files());
    assert_eq!(s.model_file_types(), vec![ModelFileType::Cast]);
    assert_eq!(s.anim_file_types(), vec![AnimationFileType::Cast]);
    assert_eq!(s.audio_file_types(), vec![AudioFileType::Wav]);
    assert_eq!(s.image_file_type(), ImageFileType::Dds);
    assert_eq!(s.image_normal_map_processing(), ImageNormalMapProcessing::NoProcessing);
    assert!(s.image_download_cdn() && !s.preview_download_cdn());
    assert_eq!(s.preview_controls(), PreviewControlScheme::Simple);
    assert_eq!(s.asset_sorting(), AssetSortOrder::Name);
    assert!(s.preview_overlay() && s.auto_scale() && !s.export_lods());
    assert!(s.skip_previously_exported() && s.export_material_info() && s.export_material_folders());
    assert!(!s.strip_material_dir() && !s.log_assets());
    assert_eq!(s.far_clip(), 10000);
    assert!(s.custom_output_directory().is_none());
}

#[test]
fn load_flags_set_and_clear() {
    let mut s = PorterSettings::default();
    s.set_load_models(false);
    assert!(!s.load_models());
    assert!(s.load_images());
    s.set_force_raw_files(true);
    assert!(s.force_raw_files());
    s.set_load_raw_files(true);
    assert!(s.load_raw_files());
    s.set_load_images(false);
    s.set_load_materials(false);
    s.set_load_animations(false);
    s.set_load_sounds(false);
    assert!(!s.load_images() && !s.load_materials() && !s.load_animations() && !s.load_sounds());
}

#[test]
fn model_file_types_come_in_declaration_order() {
    let mut s = PorterSettings::default();
    s.set_model_file_type(ModelFileType::Fbx, true);
    s.set_model_file_type(ModelFileType::Obj, true);
    s.set_model_file_type(ModelFileType::XModelExport, true);
    assert_eq!(
        s.model_file_types(),
        vec![ModelFileType::Obj, ModelFileType::XModelExport, ModelFileType::Cast, ModelFileType::Fbx]
    );
    s.set_model_file_type(ModelFileType::Cast, false);
    assert_eq!(s.model_file_types(), vec![ModelFileType::Obj, ModelFileType::XModelExport, ModelFileType::Fbx]);
}

#[test]
fn audio_and_animation_types() {
    let mut s = PorterSettings::default();
    s.set_audio_file_type(AudioFileType::Flac, true);
    s.set_audio_file_type(AudioFileType::Ogg, true);
    assert_eq!(s.audio_file_types(), vec![AudioFileType::Wav, AudioFileType::Flac]);
    s.set_audio_file_type(AudioFileType::Wav, false);
    assert_eq!(s.audio_file_types(), vec![AudioFileType::Flac]);
    s.set_anim_file_type(AnimationFileType::Cast, false);
    assert!(s.anim_file_types().is_empty());
}

#[test]
fn far_clip_is_clamped() {
    let mut s = PorterSettings::default();
    s.set_far_clip(5);
    assert_eq!(s.far_clip(), 10000);
    s.set_far_clip(2_000_000);
    assert_eq!(s.far_clip(), 1_000_000);
    s.set_far_clip(50_000);
    assert_eq!(s.far_clip(), 50_000);
}

#[test]
fn reload_follows_load_flags_and_order_only() {
    let a = PorterSettings::default();
    let mut b = a.clone();
    b.set_log_assets(true);
    b.set_far_clip(12345);
    assert!(!a.reload_required(&b));
    b.set_asset_sorting(AssetSortOrder::Unsorted);
    assert!(a.reload_required(&b));
    let mut c = a.clone();
    c.set_load_sounds(false);
    assert!(a.reload_required(&c));
}

#[test]
fn plain_settings_round_trip() {
    let mut s = PorterSettings::default();
    s.set_image_file_type(ImageFileType::Png);
    s.set_image_normal_map_processing(ImageNormalMapProcessing::OpenGl);
    s.set_image_download_cdn(false);
    s.set_preview_download_cdn(true);
    s.set_preview_controls(PreviewControlScheme::Blender);
    s.set_preview_overlay(false);
    s.set_auto_scale(false);
    s.set_export_lods(true);
    s.set_skip_previously_exported(false);
    s.set_export_material_info(false);
    s.set_export_material_folders(false);
    s.set_strip_material_dir(true);
    s.set_output_directory(String::from("/tmp/out"));
    assert_eq!(s.image_file_type(), ImageFileType::Png);
    assert_eq!(s.image_normal_map_processing(), ImageNormalMapProcessing::OpenGl);
    assert!(!s.image_download_cdn() && s.preview_download_cdn());
    assert_eq!(s.preview_controls(), PreviewControlScheme::Blender);
    assert!(!s.preview_overlay() && !s.auto_scale() && s.export_lods());
    assert!(!s.skip_previously_exported() && !s.export_material_info() && !s.export_material_folders());
    assert!(s.strip_material_dir());
    assert_eq!(s.custom_output_directory(), Some(&String::from("/tmp/out")));
}

#[test]
fn fnv1a_matches_known_values() {
    assert_eq!(fnv1a_hash(b"", OFFSET, PRIME), 0xcbf29ce484222325);
    assert_eq!(fnv1a_hash(b"a", OFFSET, PRIME), 0xaf63dc4c8601ec8c);
    assert_eq!(fnv1a_hash(b"foobar", OFFSET, PRIME), 0x85944171f73967e8);
    assert_eq!("foobar".hash_fnv1a(OFFSET, PRIME), 0x85944171f73967e8);
    assert_eq!(String::from("a").hash_fnv1a(OFFSET, PRIME), 0xaf63dc4c8601ec8c);
    let bytes: &[u8] = b"foobar";
    assert_eq!(bytes.hash_fnv1a(OFFSET, PRIME), 0x85944171f73967e8);
}

#[test]
fn file_type_extensions() {
    assert_eq!(ModelFileType::XnaLara.extension(), "mesh.ascii");
    assert_eq!(ModelFileType::Maya.extension(), "ma");
    assert_eq!(ModelFileType::Cast.extension(), "cast");
    assert_eq!(AnimationFileType::Cast.extension(), "cast");
    assert_eq!(AudioFileType::Ogg.extension(), "ogg");
    assert_eq!(AudioFileType::Flac.extension(), "flac");
}

#[test]
fn new_audio_is_empty() {
    let a = Audio::new();
    assert_eq!(a.frame_rate, 0);
    assert_eq!(a.frame_count, 0);
    assert_eq!(a.channel_count, 0);
    assert_eq!(a.bits_per_sample, 0);
    assert!(a.samples.is_empty());
}

#[test]
fn update_changes_a_copy_only() {
    let a = PorterSettings::default();
    let b = a.update(|mut s| {
        s.set_load_models(false);
        s.set_far_clip(20000);
        s
    });
    assert!(a.load_models());
    assert!(!b.load_models());
    assert_eq!(b.far_clip(), 20000);
    assert!(a.reload_required(&b));
    let c = a.copy();
    assert!(!a.reload_required(&c));
    assert_eq!(c.far_clip(), a.far_clip());
}
