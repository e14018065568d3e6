use sdl2_surface::pixels::{Color, PixelFormatEnum, PixelMasks, Palette};
use sdl2_surface::rect::Rect;
use sdl2_surface::render::BlendMode;
use sdl2_surface::rwops::RWops;
use sdl2_surface::surface::Surface;

fn red_rgba() -> Color {
    Color::RGB(255, 0, 0)
}

#[test]
fn oversized_dimensions_are_rejected_before_anything_else() {
    let e = Surface::new(0x8000_0000, 4, PixelFormatEnum::RGB24).unwrap_err();
    assert_eq!(e, "Image is too large.");
    let e = Surface::new(4, 0x8000_0000, PixelFormatEnum::RGBA8888).unwrap_err();
    assert_eq!(e, "Image is too large.");
    let masks = PixelFormatEnum::RGB24.into_masks().unwrap();
    let e = Surface::from_pixelmasks(0xFFFF_FFFF, 1, masks).unwrap_err();
    assert_eq!(e, "Image is too large.");
    let e = Surface::from_data(vec![0u8; 12], 0x8000_0000, 1, 12, PixelFormatEnum::RGB24)
        .unwrap_err();
    assert_eq!(e, "Image is too large.");
    let e = Surface::from_data_pixelmasks(vec![0u8; 12], 2, 2, 0x8000_0000, masks).unwrap_err();
    assert_eq!(e, "Pitch is too large.");
}

#[test]
fn huge_allocation_is_rejected_without_allocating() {
    let e = Surface::new(0x4000_0000, 2, PixelFormatEnum::RGBA8888).unwrap_err();
    assert_eq!(e, "Out of memory");
}

#[test]
fn indexed_format_has_no_masks() {
    let e = PixelFormatEnum::Index8.into_masks().unwrap_err();
    assert_eq!(e, "Indexed pixel formats have no masks");
    let e = Surface::new(4, 4, PixelFormatEnum::Index8).unwrap_err();
    assert_eq!(e, "Indexed pixel formats have no masks");
}

#[test]
fn unknown_masks_are_rejected() {
    let masks = PixelMasks { bpp: 16, rmask: 0xF800, gmask: 0x07E0, bmask: 0x001F, amask: 0 };
    let e = Surface::from_pixelmasks(4, 4, masks).unwrap_err();
    assert_eq!(e, "Unknown pixel format");
}

#[test]
fn new_surface_has_expected_metadata() {
    let s = Surface::new(5, 3, PixelFormatEnum::RGB24).unwrap();
    let r = s.as_ref();
    assert_eq!(r.get_width(), 5);
    assert_eq!(r.get_height(), 3);
    assert_eq!(r.get_pitch(), 15);
    assert_eq!(r.get_size(), (5, 3));
    assert_eq!(r.get_pixel_format(), PixelFormatEnum::RGB24);
    let rect = r.get_rect();
    assert_eq!((rect.x(), rect.y(), rect.width(), rect.height()), (0, 0, 5, 3));
    assert_eq!(r.get_clip_rect(), Some(rect));
}

#[test]
fn from_data_checks_the_buffer() {
    let e = Surface::from_data(vec![0u8; 10], 2, 2, 6, PixelFormatEnum::RGB24).unwrap_err();
    assert_eq!(e, "Buffer does not match the given dimensions");
    let e = Surface::from_data(vec![0u8; 8], 2, 2, 2, PixelFormatEnum::RGB24).unwrap_err();
    assert_eq!(e, "Buffer does not match the given dimensions");
    let s = Surface::from_data(vec![7u8; 16], 2, 2, 8, PixelFormatEnum::RGB24).unwrap();
    assert_eq!(s.as_ref().get_pitch(), 8);
}

#[test]
fn without_lock_iff_no_lock_needed_and_view_is_pitch_times_height() {
    let mut s = Surface::new(3, 2, PixelFormatEnum::RGB24).unwrap();
    assert!(!s.as_ref().must_lock());
    let view = s.as_ref().without_lock().unwrap();
    assert_eq!(view.len(), 18);
    assert_eq!(view.len(), (s.as_ref().get_pitch() * s.as_ref().get_height()) as usize);
    s.as_mut().enable_RLE();
    assert!(s.as_ref().must_lock());
    assert!(s.as_ref().without_lock().is_none());
    assert!(s.as_mut().without_lock_mut().is_none());
    s.as_mut().disable_RLE();
    assert!(!s.as_ref().must_lock());
    let view = s.as_mut().without_lock_mut().unwrap();
    view[0] = 42;
    assert_eq!(s.as_ref().without_lock().unwrap()[0], 42);
}

#[test]
fn with_lock_releases_even_when_the_callback_fails() {
    let mut s = Surface::new(2, 2, PixelFormatEnum::RGBA8888).unwrap();
    let r: Result<(), String> = s.as_mut().with_lock(|_b: &[u8]| Err("boom".to_string()));
    assert_eq!(r.unwrap_err(), "boom");
    // a subsequent lock attempt succeeds and sees the pixels
    let len = s.as_mut().with_lock(|b: &[u8]| b.len());
    assert_eq!(len, 16);
    let r: Result<(), String> = s.as_mut().with_lock_mut(|mut v: Vec<u8>| {
        v[0] = 9;
        (v, Err("ouch".to_string()))
    });
    assert_eq!(r.unwrap_err(), "ouch");
    let first = s.as_mut().with_lock(|b: &[u8]| b[0]);
    assert_eq!(first, 9);
}

#[test]
fn fill_rect_none_paints_the_entire_surface() {
    let mut s = Surface::new(2, 2, PixelFormatEnum::RGBA8888).unwrap();
    s.as_mut().fill_rect(None, red_rgba()).unwrap();
    let view = s.as_ref().without_lock().unwrap();
    assert_eq!(view, &[255, 0, 0, 255, 255, 0, 0, 255, 255, 0, 0, 255, 255, 0, 0, 255][..]);
}

#[test]
fn fill_rect_clips_to_the_surface() {
    let mut s = Surface::new(2, 2, PixelFormatEnum::RGB24).unwrap();
    let r = Rect::new(1, 1, 5, 5).unwrap();
    s.as_mut().fill_rect(Some(r), Color::RGB(1, 2, 3)).unwrap();
    let view = s.as_ref().without_lock().unwrap();
    assert_eq!(view, &[0, 0, 0, 0, 0, 0, 0, 0, 0, 1, 2, 3][..]);
}

#[test]
fn fill_rects_stops_at_the_first_bad_rectangle() {
    let mut s = Surface::new(2, 2, PixelFormatEnum::RGB24).unwrap();
    let good_first = Rect::new(0, 0, 1, 1).unwrap();
    let bad = Rect::new(i32::MAX, 0, 2, 2).unwrap();
    let good_last = Rect::new(1, 1, 1, 1).unwrap();
    let e = s
        .as_mut()
        .fill_rects(&[Some(good_first), Some(bad), Some(good_last)], Color::RGB(9, 9, 9))
        .unwrap_err();
    assert_eq!(e, "Fill rectangle is out of range");
    let view = s.as_ref().without_lock().unwrap();
    // the first rectangle is painted, the one after the bad one is not
    assert_eq!(view, &[9, 9, 9, 0, 0, 0, 0, 0, 0, 0, 0, 0][..]);
}

#[test]
fn set_clip_rect_reports_whether_clip_area_is_nonempty() {
    let mut s = Surface::new(4, 4, PixelFormatEnum::RGB24).unwrap();
    let inside = Rect::new(1, 1, 2, 2).unwrap();
    assert!(s.as_mut().set_clip_rect(Some(inside)));
    assert_eq!(s.as_ref().get_clip_rect(), Some(inside));
    let outside = Rect::new(10, 10, 2, 2).unwrap();
    assert!(!s.as_mut().set_clip_rect(Some(outside)));
    assert_eq!(s.as_ref().get_clip_rect(), None);
    assert!(s.as_mut().set_clip_rect(None));
    assert_eq!(s.as_ref().get_clip_rect(), Some(s.as_ref().get_rect()));
}

#[test]
fn fill_respects_the_clip_rectangle() {
    let mut s = Surface::new(2, 1, PixelFormatEnum::RGB24).unwrap();
    let left = Rect::new(0, 0, 1, 1).unwrap();
    s.as_mut().set_clip_rect(Some(left));
    s.as_mut().fill_rect(None, Color::RGB(5, 6, 7)).unwrap();
    let view = s.as_ref().without_lock().unwrap();
    assert_eq!(view, &[5, 6, 7, 0, 0, 0][..]);
}

#[test]
fn color_key_round_trips_and_is_absent_by_default() {
    let mut s = Surface::new(2, 2, PixelFormatEnum::RGBA8888).unwrap();
    let e = s.as_ref().get_color_key().unwrap_err();
    assert_eq!(e, "Surface doesn't have a color key");
    s.as_mut().set_color_key(true, Color::RGBA(10, 20, 30, 40)).unwrap();
    assert_eq!(s.as_ref().get_color_key().unwrap(), Color::RGBA(10, 20, 30, 40));
    s.as_mut().set_color_key(false, red_rgba()).unwrap();
    assert!(s.as_ref().get_color_key().is_err());
}

#[test]
fn color_key_on_a_format_without_alpha_round_trips_the_channels() {
    let mut s = Surface::new(1, 1, PixelFormatEnum::RGB24).unwrap();
    s.as_mut().set_color_key(true, Color::RGBA(1, 2, 3, 99)).unwrap();
    assert_eq!(s.as_ref().get_color_key().unwrap(), Color::RGB(1, 2, 3));
}

#[test]
fn color_mod_round_trips() {
    let mut s = Surface::new(1, 1, PixelFormatEnum::RGB24).unwrap();
    assert_eq!(s.as_ref().get_color_mod(), Color::RGB(255, 255, 255));
    s.as_mut().set_color_mod(Color::RGBA(11, 22, 33, 44));
    assert_eq!(s.as_ref().get_color_mod(), Color::RGB(11, 22, 33));
}

#[test]
fn alpha_mod_round_trips() {
    let mut s = Surface::new(1, 1, PixelFormatEnum::RGBA8888).unwrap();
    assert_eq!(s.as_ref().get_alpha_mod(), 255);
    s.as_mut().set_alpha_mod(77);
    assert_eq!(s.as_ref().get_alpha_mod(), 77);
}

#[test]
fn blend_mode_round_trips_for_every_mode() {
    let mut s = Surface::new(1, 1, PixelFormatEnum::RGB24).unwrap();
    for mode in [BlendMode::Opaque, BlendMode::Blend, BlendMode::Add, BlendMode::Mod] {
        s.as_mut().set_blend_mode(mode).unwrap();
        assert_eq!(s.as_ref().get_blend_mode(), mode);
    }
}

#[test]
fn default_blend_mode_depends_on_alpha_channel() {
    let s = Surface::new(1, 1, PixelFormatEnum::RGBA8888).unwrap();
    assert_eq!(s.as_ref().get_blend_mode(), BlendMode::Blend);
    let s = Surface::new(1, 1, PixelFormatEnum::RGB24).unwrap();
    assert_eq!(s.as_ref().get_blend_mode(), BlendMode::Opaque);
}

#[test]
fn set_palette_fails_on_mask_formats() {
    let mut s = Surface::new(1, 1, PixelFormatEnum::RGB24).unwrap();
    let palette = Palette::new(vec![Color::RGB(0, 0, 0)]).unwrap();
    let e = s.as_mut().set_palette(&palette).unwrap_err();
    assert_eq!(e, "Palette does not match the surface format");
    let e = Palette::new(vec![]).unwrap_err();
    assert_eq!(e, "Palette must hold between 1 and 256 colors");
}

#[test]
fn blit_clips_and_returns_a_rectangle_inside_the_destination() {
    let mut src = Surface::new(2, 2, PixelFormatEnum::RGBA8888).unwrap();
    src.as_mut().fill_rect(None, red_rgba()).unwrap();
    let mut dst = Surface::new(4, 4, PixelFormatEnum::RGBA8888).unwrap();
    let want = Rect::new(3, 3, 2, 2).unwrap();
    let out = src
        .as_ref()
        .blit(None, dst.as_mut(), Some(want))
        .unwrap()
        .unwrap();
    assert_eq!((out.x(), out.y(), out.width(), out.height()), (3, 3, 1, 1));
    // the returned rectangle lies inside the destination bounds
    assert!(out.x() >= 0 && out.y() >= 0);
    assert!(out.x() as u32 + out.width() <= 4 && out.y() as u32 + out.height() <= 4);
    let view = dst.as_ref().without_lock().unwrap();
    // only the corner pixel was painted
    assert_eq!(&view[(3 * 16 + 3 * 4)..(3 * 16 + 3 * 4 + 4)], &[255, 0, 0, 255][..]);
    assert_eq!(&view[0..4], &[0, 0, 0, 0][..]);
}

#[test]
fn blit_converts_between_formats() {
    let mut src = Surface::new(1, 1, PixelFormatEnum::RGB24).unwrap();
    src.as_mut().fill_rect(None, Color::RGB(10, 20, 30)).unwrap();
    let mut dst = Surface::new(1, 1, PixelFormatEnum::RGBA8888).unwrap();
    src.as_ref().blit(None, dst.as_mut(), None).unwrap();
    let view = dst.as_ref().without_lock().unwrap();
    assert_eq!(view, &[10, 20, 30, 255][..]);
}

#[test]
fn lower_blit_copies_prevalidated_rectangles() {
    let mut src = Surface::new(2, 1, PixelFormatEnum::RGB24).unwrap();
    src.as_mut().fill_rect(None, Color::RGB(1, 1, 1)).unwrap();
    let mut dst = Surface::new(2, 1, PixelFormatEnum::RGB24).unwrap();
    let r = Rect::new(1, 0, 1, 1).unwrap();
    src.as_ref().lower_blit(Some(r), dst.as_mut(), Some(r)).unwrap();
    let view = dst.as_ref().without_lock().unwrap();
    assert_eq!(view, &[0, 0, 0, 1, 1, 1][..]);
}

#[test]
fn blit_scaled_stretches_the_source() {
    let mut src = Surface::new(1, 1, PixelFormatEnum::RGB24).unwrap();
    src.as_mut().fill_rect(None, Color::RGB(8, 9, 10)).unwrap();
    let mut dst = Surface::new(2, 2, PixelFormatEnum::RGB24).unwrap();
    let target = Rect::new(0, 0, 2, 2).unwrap();
    let out = src
        .as_ref()
        .blit_scaled(None, dst.as_mut(), Some(target))
        .unwrap()
        .unwrap();
    assert_eq!((out.x(), out.y(), out.width(), out.height()), (0, 0, 2, 2));
    let view = dst.as_ref().without_lock().unwrap();
    assert_eq!(view, &[8, 9, 10, 8, 9, 10, 8, 9, 10, 8, 9, 10][..]);
}

#[test]
fn lower_blit_scaled_shrinks_the_source() {
    let mut src = Surface::new(2, 2, PixelFormatEnum::RGB24).unwrap();
    src.as_mut().fill_rect(None, Color::RGB(4, 5, 6)).unwrap();
    let mut dst = Surface::new(1, 1, PixelFormatEnum::RGB24).unwrap();
    src.as_ref().lower_blit_scaled(None, dst.as_mut(), None).unwrap();
    let view = dst.as_ref().without_lock().unwrap();
    assert_eq!(view, &[4, 5, 6][..]);
}

#[test]
fn convert_reformats_every_pixel() {
    let mut s = Surface::new(2, 1, PixelFormatEnum::RGBA8888).unwrap();
    s.as_mut().fill_rect(None, Color::RGBA(1, 2, 3, 4)).unwrap();
    let out = s.as_ref().convert(PixelFormatEnum::RGB24).unwrap();
    assert_eq!(out.as_ref().get_pixel_format(), PixelFormatEnum::RGB24);
    assert_eq!(out.as_ref().get_size(), (2, 1));
    let view = out.as_ref().without_lock().unwrap();
    assert_eq!(view, &[1, 2, 3, 1, 2, 3][..]);
    let e = s.as_ref().convert(PixelFormatEnum::Index8).unwrap_err();
    assert_eq!(e, "Indexed pixel formats have no masks");
}

#[test]
fn bmp_round_trip_preserves_dimensions_and_depth() {
    let mut s = Surface::new(3, 2, PixelFormatEnum::RGB24).unwrap();
    s.as_mut().fill_rect(Some(Rect::new(0, 0, 1, 1).unwrap()), Color::RGB(10, 11, 12)).unwrap();
    let mut rw = RWops::new();
    s.as_ref().save_bmp_rw(&mut rw).unwrap();
    rw.rewind();
    let loaded = Surface::load_bmp_rw(&mut rw).unwrap();
    assert_eq!(loaded.as_ref().get_width(), 3);
    assert_eq!(loaded.as_ref().get_height(), 2);
    assert_eq!(loaded.as_ref().get_pixel_format(), PixelFormatEnum::RGB24);
    // this codec also preserves the pixel bytes themselves
    assert_eq!(
        loaded.as_ref().without_lock().unwrap(),
        s.as_ref().without_lock().unwrap()
    );
}

#[test]
fn bmp_round_trip_preserves_32_bit_depth() {
    let mut s = Surface::new(2, 2, PixelFormatEnum::RGBA8888).unwrap();
    s.as_mut().fill_rect(None, Color::RGBA(9, 8, 7, 6)).unwrap();
    let mut rw = RWops::new();
    s.as_ref().save_bmp_rw(&mut rw).unwrap();
    rw.rewind();
    let loaded = Surface::load_bmp_rw(&mut rw).unwrap();
    assert_eq!(loaded.as_ref().get_pixel_format(), PixelFormatEnum::RGBA8888);
    assert_eq!(loaded.as_ref().get_size(), (2, 2));
}

#[test]
fn bmp_header_layout_is_the_classic_one() {
    let s = Surface::new(1, 1, PixelFormatEnum::RGB24).unwrap();
    let mut rw = RWops::new();
    s.as_ref().save_bmp_rw(&mut rw).unwrap();
    let bytes = rw.bytes();
    assert_eq!(bytes.len(), 54 + 4);
    assert_eq!(&bytes[0..2], &b"BM"[..]);
    assert_eq!(bytes[10], 54);
    assert_eq!(bytes[14], 40);
    assert_eq!(bytes[18], 1);
    assert_eq!(bytes[22], 1);
    assert_eq!(bytes[28], 24);
}

#[test]
fn load_bmp_rejects_garbage() {
    let mut rw = RWops::from_bytes(vec![0u8; 10]);
    let e = Surface::load_bmp_rw(&mut rw).unwrap_err();
    assert_eq!(e, "Unsupported or corrupt bitmap");
    let mut rw = RWops::from_bytes(vec![0xAAu8; 64]);
    let e = Surface::load_bmp_rw(&mut rw).unwrap_err();
    assert_eq!(e, "Unsupported or corrupt bitmap");
    assert_eq!(rw.position(), 0);
}

#[test]
fn rect_construction_and_intersection() {
    assert_eq!(Rect::new(0, 0, 0, 5).unwrap_err(), "Rect has no area");
    assert_eq!(Rect::new(0, 0, 0x8000_0000, 5).unwrap_err(), "Rect is too large");
    let a = Rect::new(0, 0, 4, 4).unwrap();
    let b = Rect::new(2, 2, 4, 4).unwrap();
    let i = a.intersection(&b).unwrap();
    assert_eq!((i.x(), i.y(), i.width(), i.height()), (2, 2, 2, 2));
    let far = Rect::new(10, 10, 1, 1).unwrap();
    assert!(a.intersection(&far).is_none());
}

#[test]
fn color_packing_round_trips() {
    let c = Color::RGBA(0x12, 0x34, 0x56, 0x78);
    let v = c.to_u32(PixelFormatEnum::RGBA8888);
    assert_eq!(v, 0x1234_5678);
    assert_eq!(Color::from_u32(PixelFormatEnum::RGBA8888, v), c);
    let c = Color::RGB(0xAB, 0xCD, 0xEF);
    let v = c.to_u32(PixelFormatEnum::RGB24);
    assert_eq!(v, 0x00AB_CDEF);
    assert_eq!(Color::from_u32(PixelFormatEnum::RGB24, v), c);
}
