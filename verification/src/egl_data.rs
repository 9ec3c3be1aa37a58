//! GPU export data: the rendering configuration the pipeline requests from
//! the driver, the dmabuf export descriptor, and the negotiation of the
//! descriptor's memory-layout modifier list.
//!
//! The driver calls themselves (display initialization, context and image
//! creation, the export query) are made by the unverified shell; this module
//! fixes what is asked for and what the negotiated result must be.

use crate::wayvr::WayVrError;
use vstd::prelude::*;

verus! {

/// EGL attribute and value codes, as the Khronos EGL specification fixes
/// them.
pub const EGL_BLUE_SIZE: i32 = 0x3022;

pub const EGL_GREEN_SIZE: i32 = 0x3023;

pub const EGL_RED_SIZE: i32 = 0x3024;

pub const EGL_SURFACE_TYPE: i32 = 0x3033;

pub const EGL_WINDOW_BIT: i32 = 0x0004;

pub const EGL_RENDERABLE_TYPE: i32 = 0x3040;

pub const EGL_OPENGL_BIT: i32 = 0x0008;

pub const EGL_NONE: i32 = 0x3038;

pub const EGL_CONTEXT_MAJOR_VERSION: i32 = 0x3098;

pub const EGL_CONTEXT_MINOR_VERSION: i32 = 0x30FB;

/// The attribute list for choosing the rendering configuration: 8-bit RGB
/// channel widths, window-surface capability, and the target renderable
/// API.
pub fn config_attribs() -> (r: Vec<i32>)
    ensures
        r@ == seq![
            EGL_RED_SIZE,
            8i32,
            EGL_GREEN_SIZE,
            8i32,
            EGL_BLUE_SIZE,
            8i32,
            EGL_SURFACE_TYPE,
            EGL_WINDOW_BIT,
            EGL_RENDERABLE_TYPE,
            EGL_OPENGL_BIT,
            EGL_NONE,
        ],
{
    let mut r: Vec<i32> = Vec::new();
    r.push(EGL_RED_SIZE);
    r.push(8);
    r.push(EGL_GREEN_SIZE);
    r.push(8);
    r.push(EGL_BLUE_SIZE);
    r.push(8);
    r.push(EGL_SURFACE_TYPE);
    r.push(EGL_WINDOW_BIT);
    r.push(EGL_RENDERABLE_TYPE);
    r.push(EGL_OPENGL_BIT);
    r.push(EGL_NONE);
    proof {
        assert(r@ =~= seq![
            EGL_RED_SIZE,
            8i32,
            EGL_GREEN_SIZE,
            8i32,
            EGL_BLUE_SIZE,
            8i32,
            EGL_SURFACE_TYPE,
            EGL_WINDOW_BIT,
            EGL_RENDERABLE_TYPE,
            EGL_OPENGL_BIT,
            EGL_NONE,
        ]);
    }
    r
}

/// The attribute list for context creation: the embedded profile at minimum
/// version 3.0.
pub fn context_attribs() -> (r: Vec<i32>)
    ensures
        r@ == seq![
            EGL_CONTEXT_MAJOR_VERSION,
            3i32,
            EGL_CONTEXT_MINOR_VERSION,
            0i32,
            EGL_NONE,
        ],
{
    let mut r: Vec<i32> = Vec::new();
    r.push(EGL_CONTEXT_MAJOR_VERSION);
    r.push(3);
    r.push(EGL_CONTEXT_MINOR_VERSION);
    r.push(0);
    r.push(EGL_NONE);
    proof {
        assert(r@ =~= seq![
            EGL_CONTEXT_MAJOR_VERSION,
            3i32,
            EGL_CONTEXT_MINOR_VERSION,
            0i32,
            EGL_NONE,
        ]);
    }
    r
}

/// The negotiated dmabuf export descriptor of the off-screen render target:
/// the OS-level buffer descriptor, the single plane's byte stride and
/// offset, the four-character pixel-format code, and the ordered list of
/// acceptable memory-layout modifiers. Computed once at construction and
/// immutable afterwards.
pub struct DMAbufData {
    pub fd: i32,
    pub stride: i32,
    pub offset: i32,
    pub fourcc: u32,
    pub modifiers: Vec<u64>,
}

/// The memory-layout modifier preferred on the known problematic GPU/driver
/// combination: handing such a consumer the full enumerated modifier list
/// has been seen to produce layout-mismatch corruption, and restricting the
/// list to this entry sidesteps it.
pub const QUIRK_PREFERRED_MODIFIER: u64 = 0x0100000000000002;

/// The implicit linear-layout sentinel that always accompanies a
/// whitelisted modifier.
pub const LINEAR_MODIFIER: u64 = 0;

/// The modifier list the export negotiation settles on, given what the
/// driver enumerated for the chosen format: the whitelist entry plus the
/// linear sentinel when the known problematic entry is present, otherwise
/// the full enumerated list.
pub open spec fn spec_negotiated_modifiers(enumerated: Seq<u64>) -> Seq<u64> {
    if enumerated.contains(QUIRK_PREFERRED_MODIFIER) {
        seq![QUIRK_PREFERRED_MODIFIER, LINEAR_MODIFIER]
    } else {
        enumerated
    }
}

/// Export negotiation over the modifiers the driver enumerated for the
/// chosen pixel format. An empty list means the format has no usable
/// memory layout, which fails; when the known problematic hardware's
/// preferred entry is present the list is restricted to that entry plus
/// the linear sentinel; otherwise the full enumerated list is kept.
pub fn negotiate_modifiers(enumerated: &Vec<u64>) -> (r: Result<Vec<u64>, WayVrError>)
    ensures
        r is Err <==> enumerated@.len() == 0,
        r matches Err(e) ==> e is NoModifiers,
        r matches Ok(v) ==> v@ == spec_negotiated_modifiers(enumerated@),
{
    if enumerated.len() == 0 {
        return Err(WayVrError::NoModifiers);
    }
    let n = enumerated.len();
    let mut i: usize = 0;
    let mut found = false;
    while i < n
        invariant
            n == enumerated@.len(),
            i <= n,
            found <==> exists|j: int| 0 <= j < i && enumerated@[j] == QUIRK_PREFERRED_MODIFIER,
        decreases n - i,
    {
        if enumerated[i] == QUIRK_PREFERRED_MODIFIER {
            found = true;
        }
        i = i + 1;
    }
    if found {
        let mut v: Vec<u64> = Vec::new();
        v.push(QUIRK_PREFERRED_MODIFIER);
        v.push(LINEAR_MODIFIER);
        proof {
            assert(enumerated@.contains(QUIRK_PREFERRED_MODIFIER));
            assert(v@ =~= seq![QUIRK_PREFERRED_MODIFIER, LINEAR_MODIFIER]);
        }
        Ok(v)
    } else {
        let mut v: Vec<u64> = Vec::new();
        let mut i: usize = 0;
        while i < n
            invariant
                n == enumerated@.len(),
                i <= n,
                v@ =~= enumerated@.take(i as int),
            decreases n - i,
        {
            v.push(enumerated[i]);
            i = i + 1;
        }
        proof {
            assert(!enumerated@.contains(QUIRK_PREFERRED_MODIFIER));
            assert(v@ =~= enumerated@);
        }
        Ok(v)
    }
}

} // verus!
