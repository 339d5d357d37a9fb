use chroma_bridge::{BGRColor, Effect, KeyColor, MouseEffect, KeyboardEffect};

#[test]
fn channels_pack_as_bgr() {
    let c = BGRColor::from_channels(0x12, 0x34, 0x56);
    assert_eq!(c.as_u32(), 0x0056_3412);
    assert_eq!(c.r(), 0x12);
    assert_eq!(c.g(), 0x34);
    assert_eq!(c.b(), 0x56);
}

#[test]
fn channel_getters_read_each_byte() {
    let c = BGRColor::from_u32(0xffab_cdef);
    assert_eq!(c.r(), 0xef);
    assert_eq!(c.g(), 0xcd);
    assert_eq!(c.b(), 0xab);
    assert_eq!(BGRColor::default().as_u32(), 0);
}

#[test]
fn key_color_from_color_is_enabled() {
    let k = KeyColor::from(BGRColor::from_u32(0x0056_3412));
    assert_eq!(k.as_u32(), 0x0156_3412);
    assert!(k.is_enabled());
    assert_eq!(k.r(), 0x12);
    assert_eq!(k.g(), 0x34);
    assert_eq!(k.b(), 0x56);
}

#[test]
fn key_color_from_none_is_disabled() {
    let k = KeyColor::from(None::<BGRColor>);
    assert_eq!(k.as_u32(), 0);
    assert!(!k.is_enabled());
    let k = KeyColor::from(Some(BGRColor::from_u32(0xff)));
    assert_eq!(k.as_u32(), 0x0100_00ff);
    assert_eq!(KeyColor::default().as_u32(), 0);
}

#[test]
fn effect_api_paths() {
    let red = BGRColor::from_channels(255, 0, 0);
    assert_eq!(Effect::Mouse(MouseEffect::Static { color: red }).get_api(), "mouse");
    assert_eq!(Effect::Keyboard(KeyboardEffect::Off).get_api(), "keyboard");
    assert_eq!(Effect::Mousepad(Default::default()).get_api(), "mousepad");
    assert_eq!(Effect::Headset(Default::default()).get_api(), "headset");
    assert_eq!(Effect::Keypad(Default::default()).get_api(), "keypad");
    assert_eq!(Effect::ChromaLink(Default::default()).get_api(), "chromalink");
}

#[test]
fn debug_text_is_hex() {
    assert_eq!(BGRColor::from_u32(0x0056_3412).debug_text(), "BGRColor(0x563412)");
    assert_eq!(BGRColor::from_u32(0x12).debug_text(), "BGRColor(0x0012)");
    assert_eq!(KeyColor::from(BGRColor::from_u32(0x0056_3412)).debug_text(), "KeyColor(0x563412|1)");
    assert_eq!(KeyColor::default().debug_text(), "KeyColor(0x0000|0)");
}
