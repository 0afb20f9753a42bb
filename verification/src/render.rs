use vstd::prelude::*;

verus! {

/// Picks the texture format to configure a surface with, from the formats that the
/// surface supports (given by whether each is an sRGB format, in the order the
/// surface lists them): the first sRGB format, or the first format when none is sRGB.
/// The surface must support at least one format.
pub fn preferred_format_index(is_srgb: &Vec<bool>) -> (r: usize)
    requires
        is_srgb@.len() > 0,
    ensures
        r < is_srgb@.len(),
        r == preferred_format(is_srgb@),
{
    let mut i: usize = 0;
    while i < is_srgb.len()
        invariant
            i <= is_srgb@.len(),
            forall|k: int| 0 <= k < i ==> !is_srgb@[k],
        decreases is_srgb@.len() - i,
    {
        if is_srgb[i] {
            proof {
                let s = is_srgb@;
                assert(0 <= i < s.len() && s[i as int] && forall|j: int| 0 <= j < i ==> !s[j]);
                let k = choose|k: int|
                    0 <= k < s.len() && s[k] && forall|j: int| 0 <= j < k ==> !s[j];
                if k < i {
                    assert(!s[k]);
                } else if k > i {
                    assert(!s[i as int]);
                }
            }
            return i;
        }
        i = i + 1;
    }
    0
}

/// The index of the first sRGB format, or 0 when there is none.
pub open spec fn preferred_format(is_srgb: Seq<bool>) -> int {
    if exists|k: int| 0 <= k < is_srgb.len() && is_srgb[k] {
        choose|k: int|
            0 <= k < is_srgb.len() && is_srgb[k] && forall|j: int| 0 <= j < k ==> !is_srgb[j]
    } else {
        0
    }
}

/// The preferred format is sRGB whenever the surface supports an sRGB format, and
/// no sRGB format comes before it.
pub proof fn law_prefers_srgb(is_srgb: Seq<bool>)
    requires
        exists|k: int| 0 <= k < is_srgb.len() && is_srgb[k],
    ensures
        0 <= preferred_format(is_srgb) < is_srgb.len(),
        is_srgb[preferred_format(is_srgb)],
        forall|j: int| 0 <= j < preferred_format(is_srgb) ==> !is_srgb[j],
{
    lemma_first_true(is_srgb);
}

proof fn lemma_first_true(s: Seq<bool>)
    requires
        exists|k: int| 0 <= k < s.len() && s[k],
    ensures
        exists|k: int| 0 <= k < s.len() && s[k] && forall|j: int| 0 <= j < k ==> !s[j],
    decreases s.len(),
{
    if s[0] {
        assert(0 < s.len() && s[0] && forall|j: int| 0 <= j < 0 ==> !s[j]);
    } else {
        let k0 = choose|k: int| 0 <= k < s.len() && s[k];
        let t = s.drop_first();
        assert(t[k0 - 1]);
        lemma_first_true(t);
        let k = choose|k: int| 0 <= k < t.len() && t[k] && forall|j: int| 0 <= j < k ==> !t[j];
        assert forall|j: int| 0 <= j < k + 1 implies !s[j] by {
            if j > 0 {
                assert(s[j] == t[j - 1]);
            }
        }
        assert(s[k + 1]);
    }
}

/// How acquiring the next texture of a surface went (the variants of wgpu's
/// `CurrentSurfaceTexture`, without the texture itself).
#[derive(Debug, Clone, Copy, PartialEq, Eq, Structural)]
pub enum TextureAcquire {
    Success,
    Suboptimal,
    Timeout,
    Occluded,
    Outdated,
    Lost,
    Validation,
}

/// What the renderer does with the frame.
#[derive(Debug, Clone, Copy, PartialEq, Eq, Structural)]
pub enum FrameStep {
    /// Draw into the texture, submit the commands and present it.
    DrawAndPresent,
    /// Present the texture without drawing into it.
    PresentOnly,
    /// Skip the frame.
    Skip,
}

/// A fresh texture is drawn and presented, a suboptimal one is presented as it is,
/// and every failure skips the frame.
pub fn frame_step(acquire: TextureAcquire) -> (r: FrameStep)
    ensures
        r == (match acquire {
            TextureAcquire::Success => FrameStep::DrawAndPresent,
            TextureAcquire::Suboptimal => FrameStep::PresentOnly,
            _ => FrameStep::Skip,
        }),
{
    match acquire {
        TextureAcquire::Success => FrameStep::DrawAndPresent,
        TextureAcquire::Suboptimal => FrameStep::PresentOnly,
        _ => FrameStep::Skip,
    }
}

/// The message to log for the outcome, if any (an occluded window is skipped silently).
pub fn frame_notice(acquire: TextureAcquire) -> (r: Option<&'static str>)
    ensures
        match acquire {
            TextureAcquire::Success | TextureAcquire::Occluded => r is None,
            TextureAcquire::Suboptimal => r matches Some(m) && m@
                == "wgpu: surface suboptimal, resize pending"@,
            TextureAcquire::Timeout => r matches Some(m) && m@
                == "wgpu: get_current_texture timed out, skipping frame"@,
            TextureAcquire::Outdated => r matches Some(m) && m@
                == "wgpu: surface outdated, reconfigure needed"@,
            TextureAcquire::Lost => r matches Some(m) && m@ == "wgpu: surface lost, recreate needed"@,
            TextureAcquire::Validation => r matches Some(m) && m@
                == "wgpu: surface validation error"@,
        },
{
    match acquire {
        TextureAcquire::Success => None,
        TextureAcquire::Suboptimal => Some("wgpu: surface suboptimal, resize pending"),
        TextureAcquire::Timeout => Some("wgpu: get_current_texture timed out, skipping frame"),
        TextureAcquire::Occluded => None,
        TextureAcquire::Outdated => Some("wgpu: surface outdated, reconfigure needed"),
        TextureAcquire::Lost => Some("wgpu: surface lost, recreate needed"),
        TextureAcquire::Validation => Some("wgpu: surface validation error"),
    }
}

} // verus!
