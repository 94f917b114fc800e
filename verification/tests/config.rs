use brush_ir::config::{ConfigError, ModelConfig, DEFAULT_SH_DEGREE, MAX_SH_DEGREE};

#[test]
fn default_sh_degree_is_three() {
    let c = ModelConfig::default();
    assert_eq!(c.sh_degree, 3);
    assert_eq!(DEFAULT_SH_DEGREE, 3);
}

#[test]
fn sh_degree_range_is_zero_to_four() {
    assert_eq!(MAX_SH_DEGREE, 4);
    for d in 0..=4 {
        assert_eq!(ModelConfig::new(d), Ok(ModelConfig { sh_degree: d }));
    }
    assert_eq!(
        ModelConfig::new(5),
        Err(ConfigError::ShDegreeOutOfRange { value: 5 })
    );
    assert_eq!(
        ModelConfig::new(u32::MAX),
        Err(ConfigError::ShDegreeOutOfRange { value: u32::MAX })
    );
}
