use remani::skin::{
    image_is_animated, image_is_optional, image_outcome, load_order, loaded_frames, ImageAction,
    ImageDir, ImageSearch, SkinImage, SkinImageError,
};

fn b(s: &str) -> Vec<u8> {
    s.as_bytes().to_vec()
}

#[test]
fn finds_animation_frames() {
    let (mut s, a) = ImageSearch::new(true, b"custom", b"mania-hit0");
    assert_eq!(a, ImageAction::LookUp(b("custom")));
    assert_eq!(s.answer(false), ImageAction::Exists(ImageDir::Skin, b("custom-0.png")));
    assert_eq!(s.answer(true), ImageAction::Exists(ImageDir::Skin, b("custom-1.png")));
    assert_eq!(s.answer(true), ImageAction::Exists(ImageDir::Skin, b("custom-2.png")));
    assert_eq!(
        s.answer(false),
        ImageAction::Load(ImageDir::Skin, vec![b("custom-0.png"), b("custom-1.png")], b("custom"))
    );
    assert_eq!(s.answer(true), ImageAction::Missing);
}

#[test]
fn falls_back_to_the_default_skin() {
    let (mut s, _) = ImageSearch::new(true, b"custom", b"mania-hit0");
    assert_eq!(s.answer(false), ImageAction::Exists(ImageDir::Skin, b("custom-0.png")));
    assert_eq!(s.answer(false), ImageAction::Exists(ImageDir::Skin, b("custom.png")));
    assert_eq!(s.answer(false), ImageAction::LookUp(b("mania-hit0")));
    assert_eq!(s.answer(false), ImageAction::Exists(ImageDir::Default, b("mania-hit0-0.png")));
    assert_eq!(s.answer(false), ImageAction::Exists(ImageDir::Default, b("mania-hit0.png")));
    assert_eq!(s.answer(false), ImageAction::Missing);
    let (mut s, _) = ImageSearch::new(true, b"custom", b"mania-hit0");
    s.answer(false);
    s.answer(false);
    assert_eq!(s.answer(false), ImageAction::LookUp(b("mania-hit0")));
    assert_eq!(s.answer(true), ImageAction::UseLoaded(b("mania-hit0")));
}

#[test]
fn single_images() {
    let (mut s, a) = ImageSearch::new(false, b"k", b"mania-key1");
    assert_eq!(a, ImageAction::LookUp(b("k")));
    assert_eq!(s.answer(false), ImageAction::Exists(ImageDir::Skin, b("k.png")));
    assert_eq!(s.answer(true), ImageAction::Load(ImageDir::Skin, vec![b("k.png")], b("k")));
    let (mut s, _) = ImageSearch::new(false, b"k", b"mania-key1");
    assert_eq!(s.answer(true), ImageAction::UseLoaded(b("k")));
}

#[test]
fn image_kinds_and_order() {
    assert!(!image_is_animated(SkinImage::Key(2)));
    assert!(!image_is_animated(SkinImage::StageLeft));
    assert!(image_is_animated(SkinImage::Note(2)));
    assert!(image_is_optional(SkinImage::StageBottom));
    assert!(image_is_optional(SkinImage::LongNoteTail(0)));
    assert!(!image_is_optional(SkinImage::Hit0));
    let order = load_order();
    assert_eq!(order.len(), 55);
    assert_eq!(order[5], SkinImage::Hit300g);
    assert_eq!(order[6], SkinImage::StageLight);
    assert_eq!(order[9], SkinImage::Key(0));
    assert_eq!(order[16], SkinImage::KeyDown(0));
    assert_eq!(order[50], SkinImage::LongNoteTail(6));
    assert_eq!(order[51], SkinImage::StageHint);
    assert_eq!(order[54], SkinImage::StageBottom);
}

#[test]
fn default_files_are_kept_under_the_default_name() {
    let (mut s, _) = ImageSearch::new(false, b"k", b"mania-key1");
    assert_eq!(s.answer(false), ImageAction::Exists(ImageDir::Skin, b("k.png")));
    assert_eq!(s.answer(false), ImageAction::LookUp(b("mania-key1")));
    assert_eq!(s.answer(false), ImageAction::Exists(ImageDir::Default, b("mania-key1.png")));
    assert_eq!(
        s.answer(true),
        ImageAction::Load(ImageDir::Default, vec![b("mania-key1.png")], b("mania-key1"))
    );
}

#[test]
fn loaded_images_keep_one_frame_unless_animated() {
    assert_eq!(loaded_frames(true, vec![1, 2, 3]), vec![1, 2, 3]);
    assert_eq!(loaded_frames(false, vec![1, 2, 3]), vec![1]);
    assert_eq!(loaded_frames(false, vec![7]), vec![7]);
}

#[test]
fn missing_images() {
    assert_eq!(image_outcome(SkinImage::Hit0, Some(vec![1]), b"mania-hit0"), Ok(Some(vec![1])));
    assert_eq!(image_outcome::<u8>(SkinImage::StageBottom, None, b"mania-stage-bottom"), Ok(None));
    assert_eq!(image_outcome::<u8>(SkinImage::LongNoteTail(3), None, b"mania-note1T"), Ok(None));
    assert_eq!(
        image_outcome::<u8>(SkinImage::Note(0), None, b"mania-note1"),
        Err(SkinImageError::NoDefaultTexture(b("mania-note1")))
    );
}
