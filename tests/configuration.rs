use librpysight::configuration::{AppConfig, Bidirectionality, ConfigError, InputChannel};
use librpysight::configuration::{DataType, Inputs};

fn base_config() -> AppConfig {
    AppConfig {
        rows: 2,
        columns: 2,
        planes: 0,
        scan_period: 1_000_000,
        laser_period: 12_500,
        tag_period: 0,
        bidir: Bidirectionality::Unidir,
        fill_fraction: 10_000,
        frame_dead_time: 0,
        line_shift: 0,
        pmt1_ch: InputChannel::new(1),
        pmt2_ch: InputChannel::new(-1),
        pmt3_ch: InputChannel::new(-1),
        pmt4_ch: InputChannel::new(-1),
        laser_ch: InputChannel::new(-1),
        frame_ch: InputChannel::new(3),
        line_ch: InputChannel::new(2),
        taglens_ch: InputChannel::new(-1),
        rolling_avg: 1,
        increment_color_by: 100_000,
        filename: String::from("frames.arrow"),
    }
}

#[test]
fn valid_config_passes() {
    assert_eq!(base_config().validate(), Ok(()));
}

#[test]
fn zero_rows_rejected() {
    let mut c = base_config();
    c.rows = 0;
    assert_eq!(c.validate(), Err(ConfigError::NonPositiveDimensions));
    let mut c = base_config();
    c.columns = 0;
    assert_eq!(c.validate(), Err(ConfigError::NonPositiveDimensions));
}

#[test]
fn short_scan_period_rejected() {
    let mut c = base_config();
    c.scan_period = 0;
    assert_eq!(c.validate(), Err(ConfigError::InvalidScanPeriod));
    let mut c = base_config();
    c.bidir = Bidirectionality::Bidir;
    c.scan_period = 1;
    assert_eq!(c.validate(), Err(ConfigError::InvalidScanPeriod));
}

#[test]
fn fill_fraction_bounds() {
    let mut c = base_config();
    c.fill_fraction = 0;
    assert_eq!(c.validate(), Err(ConfigError::InvalidFillFraction));
    c.fill_fraction = 10_001;
    assert_eq!(c.validate(), Err(ConfigError::InvalidFillFraction));
    c.fill_fraction = 7_130;
    assert_eq!(c.validate(), Ok(()));
}

#[test]
fn negative_dead_time_rejected() {
    let mut c = base_config();
    c.frame_dead_time = -1;
    assert_eq!(c.validate(), Err(ConfigError::NegativeDeadTime));
}

#[test]
fn overlong_frame_rejected() {
    let mut c = base_config();
    c.rows = u32::MAX;
    c.scan_period = i64::MAX / 2;
    assert_eq!(c.validate(), Err(ConfigError::FrameTooLong));
}

#[test]
fn volume_needs_tag_period() {
    let mut c = base_config();
    c.planes = 10;
    assert_eq!(c.validate(), Err(ConfigError::InvalidTagPeriod));
    c.tag_period = 5_000_000;
    assert_eq!(c.validate(), Ok(()));
}

#[test]
fn zero_rolling_average_rejected() {
    let mut c = base_config();
    c.rolling_avg = 0;
    assert_eq!(c.validate(), Err(ConfigError::InvalidRollingAverage));
}

#[test]
fn channel_out_of_range_rejected() {
    let mut c = base_config();
    c.pmt2_ch = InputChannel::new(19);
    assert_eq!(c.validate(), Err(ConfigError::ChannelOutOfRange));
}

#[test]
fn duplicate_channel_rejected() {
    let mut c = base_config();
    c.laser_ch = InputChannel::new(2);
    assert_eq!(c.validate(), Err(ConfigError::DuplicateChannel));
    let mut c = base_config();
    c.pmt2_ch = InputChannel::new(-1);
    c.pmt3_ch = InputChannel::new(-1);
    assert_eq!(c.validate(), Ok(()));
}

#[test]
fn inputs_map_channels_to_roles() {
    let inputs = Inputs::from_config(&base_config());
    assert_eq!(inputs.get(1), DataType::Pmt1);
    assert_eq!(inputs.get(2), DataType::Line);
    assert_eq!(inputs.get(3), DataType::Frame);
    assert_eq!(inputs.get(0), DataType::Invalid);
    assert_eq!(inputs.get(99), DataType::Invalid);
    assert_eq!(inputs.get(-1), DataType::Invalid);
}

#[test]
fn row_period_halves_for_bidir() {
    let mut c = base_config();
    assert_eq!(c.row_period_exec(), 1_000_000);
    c.bidir = Bidirectionality::Bidir;
    assert_eq!(c.row_period_exec(), 500_000);
}
