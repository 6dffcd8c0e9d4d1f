//! The SHT colour model: a classification of which channels are brightest,
//! a shade and a tint, with the invariants of its normal form.
use vstd::prelude::*;
use crate::ratio::Ratio;

verus! {

/// A primary colour of additive mixing.
#[derive(Debug, Clone, Copy, PartialEq, Eq, Structural)]
pub enum ColourChannel {
    Red,
    Green,
    Blue,
}

/// A secondary colour of additive mixing, the sum of two primaries.
#[derive(Debug, Clone, Copy, PartialEq, Eq, Structural)]
pub enum SecondaryColour {
    /// Green and blue.
    Cyan,
    /// Red and green.
    Yellow,
    /// Red and blue.
    Magenta,
}

/// Which channels of a colour are brightest.
#[derive(Debug, Clone, Copy, PartialEq)]
pub enum ChannelRatios {
    /// One channel is strictly brightest. `direction_blend` is `None` when the
    /// other two are equal; otherwise it holds the second brightest channel
    /// and its strength between the weakest and the brightest, strictly
    /// between 0 and 1.
    OneBrightestChannel { primary: ColourChannel, direction_blend: Option<(ColourChannel, Ratio)> },
    /// Two channels are equally bright, and brighter than the third.
    TwoBrightestChannels { secondary: SecondaryColour },
    /// All three channels are equally bright.
    ThreeBrightestChannels,
}

/// A violated invariant of the SHT normal form.
#[derive(Debug, Clone, Copy, PartialEq, Eq, Structural)]
pub enum SHTValueError {
    /// `primary` set, while `shade` is 0.
    PrimaryShadeZero,
    /// `primary` set, while `tint` is 1.
    PrimaryTintOne,
    /// `secondary` set, while `shade` is 0.
    SecondaryShadeZero,
    /// `secondary` set, while `tint` is 1.
    SecondaryTintOne,
    /// `direction` is equal to `primary`.
    DirectionEqualsPrimary,
    /// A ratio lies above 1.
    ValueOutOfBounds,
    /// `blend` is 0.
    BlendZero,
    /// `blend` is 1.
    BlendOne,
}

/// Errors of parsing an SHT code from text.
#[derive(Debug, Clone, PartialEq)]
pub enum ParsePropertyError {
    /// The text was parsed, but its values violate the normal form; every
    /// violated invariant is listed.
    ValueErrors(Vec<SHTValueError>),
    /// No alternative of the grammar matched.
    ParseFailure,
    /// An alternative matched, but left these characters unread.
    InputRemaining(String),
}

/// A colour in SHT form.
///
/// `shade` is the strength of the brightest channel above the tint, relative
/// to what is left above the tint (1 when omitted); `tint` is the strength of
/// the weakest channel (0 when omitted).
#[derive(Debug, Clone, Copy, PartialEq)]
pub struct SHT {
    pub channel_ratios: ChannelRatios,
    pub shade: Ratio,
    pub tint: Ratio,
}

/// `seq![e]` when `b` holds, else the empty sequence.
pub open spec fn flag(b: bool, e: SHTValueError) -> Seq<SHTValueError> {
    if b {
        seq![e]
    } else {
        seq![]
    }
}

/// Every ratio in the components has a nonzero denominator.
pub open spec fn components_wf(channel_ratios: ChannelRatios, shade: Ratio, tint: Ratio) -> bool {
    &&& shade.wf()
    &&& tint.wf()
    &&& match channel_ratios {
        ChannelRatios::OneBrightestChannel { direction_blend: Some((_, blend)), .. } => blend.wf(),
        _ => true,
    }
}

/// The invariants of the normal form that the components violate, in the
/// order in which they are checked.
pub open spec fn value_errors(channel_ratios: ChannelRatios, shade: Ratio, tint: Ratio) -> Seq<
    SHTValueError,
> {
    let by_kind = match channel_ratios {
        ChannelRatios::OneBrightestChannel { primary, direction_blend } => {
            flag(shade.numer == 0, SHTValueError::PrimaryShadeZero) + flag(
                tint.numer == tint.denom,
                SHTValueError::PrimaryTintOne,
            ) + match direction_blend {
                Some((direction, blend)) => flag(
                    direction == primary,
                    SHTValueError::DirectionEqualsPrimary,
                ) + flag(blend.numer == 0, SHTValueError::BlendZero) + flag(
                    blend.numer == blend.denom,
                    SHTValueError::BlendOne,
                ) + flag(blend.numer > blend.denom, SHTValueError::ValueOutOfBounds),
                None => seq![],
            }
        },
        ChannelRatios::TwoBrightestChannels { .. } => flag(
            shade.numer == 0,
            SHTValueError::SecondaryShadeZero,
        ) + flag(tint.numer == tint.denom, SHTValueError::SecondaryTintOne),
        ChannelRatios::ThreeBrightestChannels => seq![],
    };
    by_kind + flag(tint.numer > tint.denom, SHTValueError::ValueOutOfBounds) + flag(
        shade.numer > shade.denom,
        SHTValueError::ValueOutOfBounds,
    )
}

impl SHT {
    /// The colour is in normal form.
    pub open spec fn wf(self) -> bool {
        &&& components_wf(self.channel_ratios, self.shade, self.tint)
        &&& value_errors(self.channel_ratios, self.shade, self.tint).len() == 0
    }

    /// Builds a colour from its components, or returns every invariant of
    /// the normal form that they violate.
    pub fn new(channel_ratios: ChannelRatios, shade: Ratio, tint: Ratio) -> (r: Result<
        SHT,
        Vec<SHTValueError>,
    >)
        requires
            components_wf(channel_ratios, shade, tint),
        ensures
            value_errors(channel_ratios, shade, tint).len() == 0 <==> r is Ok,
            r matches Ok(s) ==> s.wf() && s == (SHT { channel_ratios, shade, tint }),
            r matches Err(e) ==> e@ == value_errors(channel_ratios, shade, tint),
    {
        let code = SHT { channel_ratios, shade, tint };
        code.normal()
    }

    /// Checks the invariants of the normal form, collecting every violation.
    fn normal(self) -> (r: Result<SHT, Vec<SHTValueError>>)
        requires
            components_wf(self.channel_ratios, self.shade, self.tint),
        ensures
            value_errors(self.channel_ratios, self.shade, self.tint).len() == 0 <==> r is Ok,
            r matches Ok(s) ==> s.wf() && s == self,
            r matches Err(e) ==> e@ == value_errors(self.channel_ratios, self.shade, self.tint),
    {
        let shade = self.shade;
        let tint = self.tint;
        let mut errors: Vec<SHTValueError> = Vec::new();
        match self.channel_ratios {
            ChannelRatios::OneBrightestChannel { primary, direction_blend } => {
                if shade.is_zero() {
                    errors.push(SHTValueError::PrimaryShadeZero);
                }
                if tint.is_one() {
                    errors.push(SHTValueError::PrimaryTintOne);
                }
                match direction_blend {
                    Some((direction, blend)) => {
                        if direction == primary {
                            errors.push(SHTValueError::DirectionEqualsPrimary);
                        }
                        if blend.is_zero() {
                            errors.push(SHTValueError::BlendZero);
                        }
                        if blend.is_one() {
                            errors.push(SHTValueError::BlendOne);
                        }
                        if blend.exceeds_one() {
                            errors.push(SHTValueError::ValueOutOfBounds);
                        }
                    },
                    None => {},
                }
            },
            ChannelRatios::TwoBrightestChannels { .. } => {
                if shade.is_zero() {
                    errors.push(SHTValueError::SecondaryShadeZero);
                }
                if tint.is_one() {
                    errors.push(SHTValueError::SecondaryTintOne);
                }
            },
            ChannelRatios::ThreeBrightestChannels => {},
        }
        if tint.exceeds_one() {
            errors.push(SHTValueError::ValueOutOfBounds);
        }
        if shade.exceeds_one() {
            errors.push(SHTValueError::ValueOutOfBounds);
        }
        assert(errors@ =~= value_errors(self.channel_ratios, shade, tint));
        if errors.len() == 0 {
            Ok(self)
        } else {
            Err(errors)
        }
    }

    /// The components of the colour: channel ratios, shade and tint.
    pub fn components(&self) -> (r: (ChannelRatios, Ratio, Ratio))
        ensures
            r == (self.channel_ratios, self.shade, self.tint),
    {
        (self.channel_ratios, self.shade, self.tint)
    }
}

/// A colour with one brightest channel, a shade of 0 and a tint of 1 is
/// refused with both violations reported, not only the first.
pub proof fn lemma_reports_every_violation(
    primary: ColourChannel,
    direction_blend: Option<(ColourChannel, Ratio)>,
    shade: Ratio,
    tint: Ratio,
)
    requires
        shade.numer == 0,
        tint.numer == tint.denom,
    ensures
        ({
            let errs = value_errors(
                ChannelRatios::OneBrightestChannel { primary, direction_blend },
                shade,
                tint,
            );
            &&& errs.contains(SHTValueError::PrimaryShadeZero)
            &&& errs.contains(SHTValueError::PrimaryTintOne)
        }),
{
    let errs = value_errors(
        ChannelRatios::OneBrightestChannel { primary, direction_blend },
        shade,
        tint,
    );
    assert(errs[0] == SHTValueError::PrimaryShadeZero);
    assert(errs[1] == SHTValueError::PrimaryTintOne);
}

} // verus!
