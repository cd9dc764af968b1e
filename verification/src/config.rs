//! The settings of one print job and the rules they must meet.
//!
//! Every length is held as the bit pattern of a double-precision value and
//! compared as the number it stands for.

use crate::binary64::{is_less_or_equal, less_or_equal, ZERO};
use vstd::prelude::*;

verus! {

/// One of the three axes of the bounding box.
#[derive(Clone, Copy, Debug, PartialEq, Eq, Structural, Hash)]
pub enum Axis {
    X,
    Y,
    Z,
}

/// The rule that a configuration breaks.
#[derive(Clone, Copy, Debug, PartialEq, Eq, Structural, Hash)]
pub enum ConfigurationError {
    /// The layer height is zero or negative.
    LayerHeightNotPositive,
    /// The nozzle diameter is zero or negative.
    NozzleDiameterNotPositive,
    /// The filament diameter is zero or negative.
    FilamentDiameterNotPositive,
    /// The upper bound of this axis is not above its lower bound.
    BoundsInverted { axis: Axis },
}

/// The settings of one print job.
#[derive(Clone, Copy, Debug, PartialEq, Eq, Structural, Hash)]
pub struct PrintConfig {
    pub nozzle_diameter: u64,
    pub layer_height: u64,
    pub filament_diameter: u64,
    pub extrusion_width_scalar: u64,
    pub perimeter_count: u64,
    pub x_min: u64,
    pub x_max: u64,
    pub y_min: u64,
    pub y_max: u64,
    pub z_min: u64,
    pub z_max: u64,
}

impl ConfigurationError {
    /// The rule in words.
    pub open spec fn text(self) -> Seq<char> {
        match self {
            ConfigurationError::LayerHeightNotPositive => "layer height must be positive"@,
            ConfigurationError::NozzleDiameterNotPositive => "nozzle diameter must be positive"@,
            ConfigurationError::FilamentDiameterNotPositive => "filament diameter must be positive"@,
            ConfigurationError::BoundsInverted { axis: Axis::X } => "x_max must be above x_min"@,
            ConfigurationError::BoundsInverted { axis: Axis::Y } => "y_max must be above y_min"@,
            ConfigurationError::BoundsInverted { axis: Axis::Z } => "z_max must be above z_min"@,
        }
    }

    /// The rule in words.
    pub fn message(&self) -> (message: &'static str)
        ensures
            message@ == self.text(),
    {
        match self {
            ConfigurationError::LayerHeightNotPositive => "layer height must be positive",
            ConfigurationError::NozzleDiameterNotPositive => "nozzle diameter must be positive",
            ConfigurationError::FilamentDiameterNotPositive => "filament diameter must be positive",
            ConfigurationError::BoundsInverted { axis: Axis::X } => "x_max must be above x_min",
            ConfigurationError::BoundsInverted { axis: Axis::Y } => "y_max must be above y_min",
            ConfigurationError::BoundsInverted { axis: Axis::Z } => "z_max must be above z_min",
        }
    }
}

impl PrintConfig {
    /// The first rule that the configuration breaks, in the order: layer
    /// height, nozzle diameter, filament diameter, then the bounds of the
    /// x, y and z axes. A length breaks its rule when it is zero or below,
    /// an axis when its upper bound is its lower bound or below. A NaN is
    /// not below anything and breaks no rule.
    pub open spec fn verdict(self) -> Result<(), ConfigurationError> {
        if less_or_equal(self.layer_height, ZERO) {
            Err(ConfigurationError::LayerHeightNotPositive)
        } else if less_or_equal(self.nozzle_diameter, ZERO) {
            Err(ConfigurationError::NozzleDiameterNotPositive)
        } else if less_or_equal(self.filament_diameter, ZERO) {
            Err(ConfigurationError::FilamentDiameterNotPositive)
        } else if less_or_equal(self.x_max, self.x_min) {
            Err(ConfigurationError::BoundsInverted { axis: Axis::X })
        } else if less_or_equal(self.y_max, self.y_min) {
            Err(ConfigurationError::BoundsInverted { axis: Axis::Y })
        } else if less_or_equal(self.z_max, self.z_min) {
            Err(ConfigurationError::BoundsInverted { axis: Axis::Z })
        } else {
            Ok(())
        }
    }

    /// The configuration breaks no rule.
    pub open spec fn valid(self) -> bool {
        self.verdict() is Ok
    }

    /// Checks the configuration against the rules.
    pub fn validate(&self) -> (verdict: Result<(), ConfigurationError>)
        ensures
            verdict == self.verdict(),
    {
        if is_less_or_equal(self.layer_height, ZERO) {
            Err(ConfigurationError::LayerHeightNotPositive)
        } else if is_less_or_equal(self.nozzle_diameter, ZERO) {
            Err(ConfigurationError::NozzleDiameterNotPositive)
        } else if is_less_or_equal(self.filament_diameter, ZERO) {
            Err(ConfigurationError::FilamentDiameterNotPositive)
        } else if is_less_or_equal(self.x_max, self.x_min) {
            Err(ConfigurationError::BoundsInverted { axis: Axis::X })
        } else if is_less_or_equal(self.y_max, self.y_min) {
            Err(ConfigurationError::BoundsInverted { axis: Axis::Y })
        } else if is_less_or_equal(self.z_max, self.z_min) {
            Err(ConfigurationError::BoundsInverted { axis: Axis::Z })
        } else {
            Ok(())
        }
    }
}

} // verus!
