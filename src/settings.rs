use vstd::prelude::*;

verus! {

/// Why a conversion did not produce a grid.
#[derive(Clone, Debug)]
pub enum ConversionError {
    /// Malformed or out-of-range settings: a non-positive font ratio, a zero
    /// width or a zero height.
    InvalidSettings,
    /// The image has no pixels along one axis, or the derived grid height
    /// does not fit in 32 bits.
    InvalidDimensions,
    /// The image bytes could not be decoded; the decoder's reason.
    DecodeFailure(String),
    /// The gradient holds no glyph.
    EmptyGradient,
}

/// The settings of one conversion.
///
/// The font ratio, the width of a rendered glyph over its height, is the
/// fraction `font_ratio_num / font_ratio_den`.
#[derive(Clone, Debug)]
pub struct ConversionSettings {
    /// Grid columns.
    pub width: u32,
    /// Grid rows; derived from the image's aspect ratio when absent.
    pub height: Option<u32>,
    /// Glyphs from least to most dense.
    pub gradient: Vec<char>,
    pub font_ratio_num: i32,
    pub font_ratio_den: u32,
    /// Walk the gradient from its last glyph to its first.
    pub reverse: bool,
}

pub ghost struct SettingsModel {
    pub width: nat,
    pub height: Option<nat>,
    pub gradient: Seq<char>,
    pub font_ratio_num: int,
    pub font_ratio_den: nat,
    pub reverse: bool,
}

impl View for ConversionSettings {
    type V = SettingsModel;

    open spec fn view(&self) -> SettingsModel {
        SettingsModel {
            width: self.width as nat,
            height: match self.height {
                Some(h) => Some(h as nat),
                None => None,
            },
            gradient: self.gradient@,
            font_ratio_num: self.font_ratio_num as int,
            font_ratio_den: self.font_ratio_den as nat,
            reverse: self.reverse,
        }
    }
}

/// The error that settings are rejected with, checked in this order: an
/// empty gradient first, then any other malformed field.
pub open spec fn settings_error(s: SettingsModel) -> Option<ConversionError> {
    if s.gradient.len() == 0 {
        Some(ConversionError::EmptyGradient)
    } else if s.font_ratio_num <= 0 || s.font_ratio_den == 0 || s.width == 0 || s.height == Some(
        0nat,
    ) {
        Some(ConversionError::InvalidSettings)
    } else {
        None
    }
}

impl ConversionSettings {
    /// Checks the settings before any sampling work: `Err` exactly when
    /// `settings_error` names an error, and then that error.
    pub fn validate(&self) -> (r: Result<(), ConversionError>)
        ensures
            r is Ok <==> settings_error(self@) is None,
            r matches Err(e) ==> settings_error(self@) == Some(e),
    {
        if self.gradient.len() == 0 {
            return Err(ConversionError::EmptyGradient);
        }
        let bad_height: bool = match self.height {
            Some(h) => h == 0,
            None => false,
        };
        if self.font_ratio_num <= 0 || self.font_ratio_den == 0 || self.width == 0 || bad_height {
            return Err(ConversionError::InvalidSettings);
        }
        Ok(())
    }
}

} // verus!
