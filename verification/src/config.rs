//! Model options.
use vstd::prelude::*;

verus! {

/// Largest spherical-harmonics degree that a model may use.
pub const MAX_SH_DEGREE: u32 = 4;

/// Spherical-harmonics degree used when none is given.
pub const DEFAULT_SH_DEGREE: u32 = 3;

/// A rejected model option.
#[derive(Debug, Clone, Copy, PartialEq, Eq, Structural)]
pub enum ConfigError {
    /// The spherical-harmonics degree lies outside `0..=MAX_SH_DEGREE`.
    ShDegreeOutOfRange { value: u32 },
}

/// Options of the splat model.
#[derive(Debug, Clone, Copy, PartialEq, Eq, Structural)]
pub struct ModelConfig {
    /// SH degree of splats.
    pub sh_degree: u32,
}

impl ModelConfig {
    /// Whether the options are in the accepted range.
    pub open spec fn valid(self) -> bool {
        self.sh_degree <= MAX_SH_DEGREE
    }

    /// Model options with the given SH degree, which must lie in
    /// `0..=MAX_SH_DEGREE`.
    pub fn new(sh_degree: u32) -> (r: Result<ModelConfig, ConfigError>)
        ensures
            r is Ok <==> sh_degree <= MAX_SH_DEGREE,
            r matches Ok(c) ==> c.sh_degree == sh_degree && c.valid(),
            r matches Err(e) ==> e == (ConfigError::ShDegreeOutOfRange { value: sh_degree }),
    {
        if sh_degree <= MAX_SH_DEGREE {
            Ok(ModelConfig { sh_degree })
        } else {
            Err(ConfigError::ShDegreeOutOfRange { value: sh_degree })
        }
    }
}

impl Default for ModelConfig {
    /// The default options: SH degree 3.
    fn default() -> (r: ModelConfig)
        ensures
            r.sh_degree == DEFAULT_SH_DEGREE,
            r.valid(),
    {
        ModelConfig { sh_degree: DEFAULT_SH_DEGREE }
    }
}

} // verus!
