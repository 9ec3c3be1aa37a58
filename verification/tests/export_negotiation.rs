//! Dmabuf export negotiation and the EGL attribute lists.

use wayvr::egl_data::{
    config_attribs, context_attribs, negotiate_modifiers, DMAbufData, LINEAR_MODIFIER,
    QUIRK_PREFERRED_MODIFIER,
};
use wayvr::wayvr::WayVrError;

/// When the known problematic hardware's entry is enumerated, the
/// negotiated list is exactly [whitelisted entry, 0], not the full list.
#[test]
fn modifier_whitelist_restricts_list() {
    let enumerated = vec![7, QUIRK_PREFERRED_MODIFIER, 9, 11];
    let negotiated = negotiate_modifiers(&enumerated).unwrap();
    assert_eq!(negotiated, vec![QUIRK_PREFERRED_MODIFIER, 0]);
    assert_eq!(LINEAR_MODIFIER, 0);
}

/// Without the whitelisted entry the full enumerated list is kept, in
/// order.
#[test]
fn modifier_negotiation_keeps_full_list() {
    let enumerated = vec![7, 9, 11];
    assert_eq!(negotiate_modifiers(&enumerated).unwrap(), vec![7, 9, 11]);
}

/// A format with no usable memory layout is unusable: negotiation fails.
#[test]
fn modifier_negotiation_fails_on_empty_list() {
    let r = negotiate_modifiers(&Vec::new());
    assert!(matches!(r, Err(WayVrError::NoModifiers)));
}

/// The configuration attribute list asks for 8-bit RGB channels, a window
/// surface, and the target renderable API; the context list asks for the
/// minimum version 3.0.
#[test]
fn egl_attribute_lists() {
    assert_eq!(
        config_attribs(),
        vec![0x3024, 8, 0x3023, 8, 0x3022, 8, 0x3033, 0x0004, 0x3040, 0x0008, 0x3038]
    );
    assert_eq!(context_attribs(), vec![0x3098, 3, 0x30FB, 0, 0x3038]);
}

/// The export descriptor carries the negotiated metadata as plain values.
#[test]
fn export_descriptor_holds_negotiated_metadata() {
    let data = DMAbufData {
        fd: 5,
        stride: 4096,
        offset: 0,
        fourcc: 0x34324241,
        modifiers: negotiate_modifiers(&vec![QUIRK_PREFERRED_MODIFIER]).unwrap(),
    };
    assert_eq!(data.modifiers, vec![QUIRK_PREFERRED_MODIFIER, 0]);
    assert_eq!(data.fourcc, 0x34324241);
}
