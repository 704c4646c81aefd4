//! First-title accessibility profile: presentation and input overlays,
//! never a projection column and never an executable widget script.
use vstd::prelude::*;

use crate::failure::{concat, decimal, spec_decimal, text};
use crate::feel::FeelAccessibility;
use crate::ir_error::IrError;

verus! {

/// Contrast presentation. Color is never the only state cue.
#[derive(Copy, Clone, PartialEq, Eq, Structural, Hash, Debug)]
pub enum ContrastMode {
    /// Production palette.
    Default,
    /// High-contrast tokens plus numeric/shape labels.
    High,
}

impl Default for ContrastMode {
    fn default() -> (r: ContrastMode)
        ensures
            r == ContrastMode::Default,
    {
        ContrastMode::Default
    }
}

impl ContrastMode {
    /// Catalog name.
    pub fn as_str(self) -> (r: &'static str)
        ensures
            self == ContrastMode::Default ==> r@ == "default"@,
            self == ContrastMode::High ==> r@ == "high"@,
    {
        match self {
            ContrastMode::Default => "default",
            ContrastMode::High => "high",
        }
    }
}

/// Subtitle versus closed-caption / SDH presentation.
#[derive(Copy, Clone, PartialEq, Eq, Structural, Hash, Debug)]
pub enum CaptionMode {
    /// No caption band.
    Off,
    /// Dialogue subtitles.
    Subtitles,
    /// Subtitles plus SDH / closed captions.
    ClosedCaptions,
}

impl Default for CaptionMode {
    fn default() -> (r: CaptionMode)
        ensures
            r == CaptionMode::Subtitles,
    {
        CaptionMode::Subtitles
    }
}

impl CaptionMode {
    /// Catalog name.
    pub fn as_str(self) -> (r: &'static str)
        ensures
            self == CaptionMode::Off ==> r@ == "off"@,
            self == CaptionMode::Subtitles ==> r@ == "subtitles"@,
            self == CaptionMode::ClosedCaptions ==> r@ == "closed_captions"@,
    {
        match self {
            CaptionMode::Off => "off",
            CaptionMode::Subtitles => "subtitles",
            CaptionMode::ClosedCaptions => "closed_captions",
        }
    }
}

/// Authorable accessibility overlay.
#[derive(Copy, Clone, PartialEq, Eq, Structural, Hash, Debug)]
pub struct A11yProfile {
    /// Full action remapping is required and offered.
    pub remap: bool,
    /// Hold becomes toggle for hold actions.
    pub hold_to_toggle: bool,
    /// Dialogue subtitle band.
    pub subtitles: bool,
    /// SDH / closed captions. Off unless authored.
    pub closed_captions: bool,
    /// UI scale in thousandths, `750..=2000`.
    pub text_scale_milli: u16,
    /// Contrast variant.
    pub contrast: ContrastMode,
    /// Suppress non-essential motion in menus and presentation transitions.
    pub reduce_motion: bool,
    /// Zero presented camera shake.
    pub reduce_shake: bool,
    /// Emit screen-reader metadata for menu flows.
    pub screen_reader: bool,
}

/// Readable first-title defaults: remapping and subtitles on, 100% scale.
pub open spec fn spec_first_title() -> A11yProfile {
    A11yProfile {
        remap: true,
        hold_to_toggle: false,
        subtitles: true,
        closed_captions: false,
        text_scale_milli: 1_000,
        contrast: ContrastMode::Default,
        reduce_motion: false,
        reduce_shake: false,
        screen_reader: false,
    }
}

/// Everything on: high contrast, largest text, reduced motion, captions, reader.
pub open spec fn spec_max_access() -> A11yProfile {
    A11yProfile {
        remap: true,
        hold_to_toggle: true,
        subtitles: true,
        closed_captions: true,
        text_scale_milli: 2_000,
        contrast: ContrastMode::High,
        reduce_motion: true,
        reduce_shake: true,
        screen_reader: true,
    }
}

impl Default for A11yProfile {
    fn default() -> (r: A11yProfile)
        ensures
            r == spec_first_title(),
    {
        A11yProfile::first_title()
    }
}

impl A11yProfile {
    /// Inclusive lower UI scale.
    pub const MIN_SCALE: u16 = 750;
    /// Inclusive upper UI scale.
    pub const MAX_SCALE: u16 = 2_000;

    /// Readable first-title defaults: remapping and subtitles on, 100% scale.
    pub fn first_title() -> (r: A11yProfile)
        ensures
            r == spec_first_title(),
    {
        A11yProfile {
            remap: true,
            hold_to_toggle: false,
            subtitles: true,
            closed_captions: false,
            text_scale_milli: 1_000,
            contrast: ContrastMode::Default,
            reduce_motion: false,
            reduce_shake: false,
            screen_reader: false,
        }
    }

    /// High-contrast, large-text, reduced-motion, captions, and reader.
    pub fn max_access() -> (r: A11yProfile)
        ensures
            r == spec_max_access(),
    {
        A11yProfile {
            remap: true,
            hold_to_toggle: true,
            subtitles: true,
            closed_captions: true,
            text_scale_milli: A11yProfile::MAX_SCALE,
            contrast: ContrastMode::High,
            reduce_motion: true,
            reduce_shake: true,
            screen_reader: true,
        }
    }

    /// Caption presentation derived from the two booleans: captions win
    /// over subtitles, and neither is off.
    pub fn caption_mode(&self) -> (r: CaptionMode)
        ensures
            r == (if self.closed_captions {
                CaptionMode::ClosedCaptions
            } else if self.subtitles {
                CaptionMode::Subtitles
            } else {
                CaptionMode::Off
            }),
    {
        if self.closed_captions {
            CaptionMode::ClosedCaptions
        } else if self.subtitles {
            CaptionMode::Subtitles
        } else {
            CaptionMode::Off
        }
    }

    /// Feel overlay for the same profile: shake and toggle carry over,
    /// reduced motion reduces haptics, and no assist is demanded.
    pub fn feel(&self) -> (r: FeelAccessibility)
        ensures
            r == (FeelAccessibility {
                reduce_shake: self.reduce_shake,
                reduce_haptics: self.reduce_motion,
                hold_to_toggle: self.hold_to_toggle,
                aim_assist_required: false,
            }),
    {
        FeelAccessibility {
            reduce_shake: self.reduce_shake,
            reduce_haptics: self.reduce_motion,
            hold_to_toggle: self.hold_to_toggle,
            aim_assist_required: false,
        }
    }

    /// Fail closed on a scale outside `750..=2000`.
    pub fn validate(&self) -> (r: Result<(), IrError>)
        ensures
            (750 <= self.text_scale_milli <= 2000) ==> r is Ok,
            !(750 <= self.text_scale_milli <= 2000) ==> (r matches Err(
                IrError::InvalidA11y { field, reason },
            ) && field@ == "text_scale_milli"@ && reason@ == spec_decimal(
                self.text_scale_milli as nat,
            ) + " not in 750..=2000"@),
    {
        if self.text_scale_milli < A11yProfile::MIN_SCALE || self.text_scale_milli > A11yProfile::MAX_SCALE {
            let d = decimal(self.text_scale_milli as u64);
            let reason = concat(d.as_str(), " not in 750..=2000");
            return Err(IrError::InvalidA11y { field: text("text_scale_milli"), reason });
        }
        Ok(())
    }
}

/// The two pinned profiles pass their own validation.
pub proof fn lemma_pinned_profiles_in_range()
    ensures
        750 <= spec_first_title().text_scale_milli <= 2000,
        750 <= spec_max_access().text_scale_milli <= 2000,
{
}

} // verus!
