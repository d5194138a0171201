//! The acquisition descriptor and the channel-to-role mapping derived from it.
use vstd::prelude::*;

use crate::snakes::Picosecond;

verus! {

/// The largest input channel number of the instrument; channels are numbered
/// from zero, and a negative channel means that the input is disabled.
pub const MAX_CHANNEL: i32 = 18;

/// A fill fraction is given in hundredths of a percent: this value is 100%.
pub const FILL_FRACTION_FULL: u32 = 10_000;

/// Whether the scanner draws every row in the same direction or alternates.
#[derive(Clone, Copy, Debug, PartialEq, Eq, Structural)]
pub enum Bidirectionality {
    Bidir,
    Unidir,
}

/// The role of an input channel of the instrument.
#[derive(Clone, Copy, Debug, PartialEq, Eq, Structural)]
pub enum DataType {
    Pmt1,
    Pmt2,
    Pmt3,
    Pmt4,
    Line,
    Frame,
    TagLens,
    Laser,
    Invalid,
}

/// One input of the instrument, by its channel number (negative: disabled).
#[derive(Clone, Copy, Debug, PartialEq, Eq, Structural)]
pub struct InputChannel {
    pub channel: i32,
}

impl InputChannel {
    pub fn new(channel: i32) -> (r: InputChannel)
        ensures
            r.channel == channel,
    {
        InputChannel { channel }
    }
}

/// The immutable description of an acquisition.
///
/// Times are in picoseconds. `fill_fraction` is in hundredths of a percent
/// (`FILL_FRACTION_FULL` is the whole row), and `increment_color_by` in units
/// of `1 / COLOR_FULL` of the full color intensity.
#[derive(Clone, Debug)]
pub struct AppConfig {
    pub rows: u32,
    pub columns: u32,
    pub planes: u32,
    pub scan_period: Picosecond,
    pub laser_period: Picosecond,
    pub tag_period: Picosecond,
    pub bidir: Bidirectionality,
    pub fill_fraction: u32,
    pub frame_dead_time: Picosecond,
    pub line_shift: Picosecond,
    pub pmt1_ch: InputChannel,
    pub pmt2_ch: InputChannel,
    pub pmt3_ch: InputChannel,
    pub pmt4_ch: InputChannel,
    pub laser_ch: InputChannel,
    pub frame_ch: InputChannel,
    pub line_ch: InputChannel,
    pub taglens_ch: InputChannel,
    pub rolling_avg: u16,
    pub increment_color_by: u32,
    pub filename: String,
}

/// Why a configuration cannot drive an acquisition.
#[derive(Clone, Copy, Debug, PartialEq, Eq, Structural)]
pub enum ConfigError {
    /// `rows` or `columns` is zero.
    NonPositiveDimensions,
    /// A row lasts less than one picosecond.
    InvalidScanPeriod,
    /// The fill fraction is zero or above 100%.
    InvalidFillFraction,
    /// The dead time between frames is negative.
    NegativeDeadTime,
    /// A frame lasts longer than the picosecond type can hold.
    FrameTooLong,
    /// A volume is requested without a positive TAG-lens period.
    InvalidTagPeriod,
    /// The rendering cadence is zero frames.
    InvalidRollingAverage,
    /// An enabled input names a channel the instrument does not have.
    ChannelOutOfRange,
    /// Two enabled inputs share one channel.
    DuplicateChannel,
}

/// The duration of one row: the whole scan period for unidirectional
/// scanning, half of it for bidirectional scanning.
pub open spec fn spec_row_period(bidir: Bidirectionality, scan_period: int) -> int {
    match bidir {
        Bidirectionality::Unidir => scan_period,
        Bidirectionality::Bidir => if scan_period < 0 {
            scan_period
        } else {
            scan_period / 2
        },
    }
}

impl AppConfig {
    /// The eight inputs, in the order in which they claim a shared channel.
    pub open spec fn inputs_in_order(&self) -> Seq<(i32, DataType)> {
        seq![
            (self.pmt1_ch.channel, DataType::Pmt1),
            (self.pmt2_ch.channel, DataType::Pmt2),
            (self.pmt3_ch.channel, DataType::Pmt3),
            (self.pmt4_ch.channel, DataType::Pmt4),
            (self.line_ch.channel, DataType::Line),
            (self.frame_ch.channel, DataType::Frame),
            (self.taglens_ch.channel, DataType::TagLens),
            (self.laser_ch.channel, DataType::Laser),
        ]
    }

    pub open spec fn row_period(&self) -> int {
        spec_row_period(self.bidir, self.scan_period as int)
    }

    /// The span of the rows of one frame, dead time excluded.
    pub open spec fn frame_span(&self) -> int {
        self.rows * self.row_period()
    }

    pub open spec fn channel_enabled(ch: i32) -> bool {
        ch >= 0
    }

    pub open spec fn channels_in_range(&self) -> bool {
        forall|i: int|
            0 <= i < 8 && #[trigger] Self::channel_enabled(self.inputs_in_order()[i].0)
                ==> self.inputs_in_order()[i].0 <= MAX_CHANNEL
    }

    pub open spec fn channels_distinct(&self) -> bool {
        forall|i: int, j: int|
            0 <= i < j < 8 && #[trigger] Self::channel_enabled(self.inputs_in_order()[i].0)
                ==> self.inputs_in_order()[i].0 != #[trigger] self.inputs_in_order()[j].0
    }

    /// The outcome of validation: the first rule broken, in this order.
    pub open spec fn spec_validate(&self) -> Result<(), ConfigError> {
        if self.rows == 0 || self.columns == 0 {
            Err(ConfigError::NonPositiveDimensions)
        } else if self.row_period() < 1 {
            Err(ConfigError::InvalidScanPeriod)
        } else if self.fill_fraction == 0 || self.fill_fraction > FILL_FRACTION_FULL {
            Err(ConfigError::InvalidFillFraction)
        } else if self.frame_dead_time < 0 {
            Err(ConfigError::NegativeDeadTime)
        } else if self.frame_span() + self.frame_dead_time > i64::MAX {
            Err(ConfigError::FrameTooLong)
        } else if self.planes >= 2 && self.tag_period <= 0 {
            Err(ConfigError::InvalidTagPeriod)
        } else if self.rolling_avg == 0 {
            Err(ConfigError::InvalidRollingAverage)
        } else if !self.channels_in_range() {
            Err(ConfigError::ChannelOutOfRange)
        } else if !self.channels_distinct() {
            Err(ConfigError::DuplicateChannel)
        } else {
            Ok(())
        }
    }

    /// No rule on the numbers of the configuration is broken.
    pub open spec fn numbers_ok(&self) -> bool {
        &&& !(self.rows == 0 || self.columns == 0)
        &&& !(self.row_period() < 1)
        &&& !(self.fill_fraction == 0 || self.fill_fraction > FILL_FRACTION_FULL)
        &&& !(self.frame_dead_time < 0)
        &&& !(self.frame_span() + self.frame_dead_time > i64::MAX)
        &&& !(self.planes >= 2 && self.tag_period <= 0)
        &&& !(self.rolling_avg == 0)
    }

    /// A configuration that can drive an acquisition.
    pub open spec fn wf(&self) -> bool {
        self.spec_validate() is Ok
    }

    /// The role of channel `ch`: the first input that names it, `Invalid` for
    /// a channel outside the instrument's range or named by no input.
    pub open spec fn data_type_of(&self, ch: int) -> DataType {
        if !(0 <= ch <= MAX_CHANNEL) {
            DataType::Invalid
        } else if self.pmt1_ch.channel == ch {
            DataType::Pmt1
        } else if self.pmt2_ch.channel == ch {
            DataType::Pmt2
        } else if self.pmt3_ch.channel == ch {
            DataType::Pmt3
        } else if self.pmt4_ch.channel == ch {
            DataType::Pmt4
        } else if self.line_ch.channel == ch {
            DataType::Line
        } else if self.frame_ch.channel == ch {
            DataType::Frame
        } else if self.taglens_ch.channel == ch {
            DataType::TagLens
        } else if self.laser_ch.channel == ch {
            DataType::Laser
        } else {
            DataType::Invalid
        }
    }

    /// The duration of one row of the scan.
    pub fn row_period_exec(&self) -> (r: Picosecond)
        ensures
            r == self.row_period(),
    {
        match self.bidir {
            Bidirectionality::Unidir => self.scan_period,
            Bidirectionality::Bidir => if self.scan_period < 0 {
                self.scan_period
            } else {
                self.scan_period / 2
            },
        }
    }

    /// Checks the configuration before an acquisition starts.
    pub fn validate(&self) -> (r: Result<(), ConfigError>)
        ensures
            r == self.spec_validate(),
    {
        if self.rows == 0 || self.columns == 0 {
            return Err(ConfigError::NonPositiveDimensions);
        }
        let row_period = self.row_period_exec();
        if row_period < 1 {
            return Err(ConfigError::InvalidScanPeriod);
        }
        if self.fill_fraction == 0 || self.fill_fraction > FILL_FRACTION_FULL {
            return Err(ConfigError::InvalidFillFraction);
        }
        if self.frame_dead_time < 0 {
            return Err(ConfigError::NegativeDeadTime);
        }
        assert(0 <= (self.rows as int) * (row_period as int) <= 0x1_0000_0000 * 0x8000_0000_0000_0000)
            by (nonlinear_arith)
            requires
                0 <= self.rows <= 0xffff_ffff,
                1 <= row_period <= 0x7fff_ffff_ffff_ffff,
        ;
        let span: i128 = (self.rows as i128) * (row_period as i128);
        assert(span == self.frame_span());
        if span + (self.frame_dead_time as i128) > i64::MAX as i128 {
            return Err(ConfigError::FrameTooLong);
        }
        if self.planes >= 2 && self.tag_period <= 0 {
            return Err(ConfigError::InvalidTagPeriod);
        }
        if self.rolling_avg == 0 {
            return Err(ConfigError::InvalidRollingAverage);
        }
        let chans: [i32; 8] = [
            self.pmt1_ch.channel,
            self.pmt2_ch.channel,
            self.pmt3_ch.channel,
            self.pmt4_ch.channel,
            self.line_ch.channel,
            self.frame_ch.channel,
            self.taglens_ch.channel,
            self.laser_ch.channel,
        ];
        assert(forall|i: int| 0 <= i < 8 ==> chans@[i] == self.inputs_in_order()[i].0);
        assert(self.numbers_ok());
        let mut i: usize = 0;
        while i < 8
            invariant
                0 <= i <= 8,
                self.numbers_ok(),
                forall|k: int| 0 <= k < 8 ==> chans@[k] == self.inputs_in_order()[k].0,
                forall|k: int|
                    0 <= k < i && #[trigger] Self::channel_enabled(self.inputs_in_order()[k].0)
                        ==> self.inputs_in_order()[k].0 <= MAX_CHANNEL,
            decreases 8 - i,
        {
            if chans[i] >= 0 && chans[i] > MAX_CHANNEL {
                assert(Self::channel_enabled(self.inputs_in_order()[i as int].0));
                assert(!self.channels_in_range());
                return Err(ConfigError::ChannelOutOfRange);
            }
            i += 1;
        }
        assert(self.channels_in_range());
        let mut i: usize = 0;
        while i < 8
            invariant
                0 <= i <= 8,
                self.numbers_ok(),
                self.channels_in_range(),
                forall|k: int| 0 <= k < 8 ==> chans@[k] == self.inputs_in_order()[k].0,
                forall|a: int, b: int|
                    0 <= a < b < 8 && a < i && #[trigger] Self::channel_enabled(
                        self.inputs_in_order()[a].0,
                    ) ==> self.inputs_in_order()[a].0 != #[trigger] self.inputs_in_order()[b].0,
            decreases 8 - i,
        {
            let mut j: usize = i + 1;
            while j < 8
                invariant
                    0 <= i < j <= 8,
                    self.numbers_ok(),
                    self.channels_in_range(),
                    forall|k: int| 0 <= k < 8 ==> chans@[k] == self.inputs_in_order()[k].0,
                    forall|a: int, b: int|
                        0 <= a < b < 8 && a < i && #[trigger] Self::channel_enabled(
                            self.inputs_in_order()[a].0,
                        ) ==> self.inputs_in_order()[a].0 != #[trigger] self.inputs_in_order()[b].0,
                    forall|b: int|
                        i < b < j && #[trigger] Self::channel_enabled(self.inputs_in_order()[i as int].0)
                            ==> self.inputs_in_order()[i as int].0 != self.inputs_in_order()[b].0,
                decreases 8 - j,
            {
                if chans[i] >= 0 && chans[i] == chans[j] {
                    assert(Self::channel_enabled(self.inputs_in_order()[i as int].0));
                    assert(self.inputs_in_order()[i as int].0 == self.inputs_in_order()[j as int].0);
                    assert(!self.channels_distinct());
                    return Err(ConfigError::DuplicateChannel);
                }
                j += 1;
            }
            i += 1;
        }
        Ok(())
    }

    /// The role of channel `ch` under this configuration.
    pub fn data_type_of_exec(&self, ch: i32) -> (r: DataType)
        ensures
            r == self.data_type_of(ch as int),
    {
        if ch < 0 || ch > MAX_CHANNEL {
            DataType::Invalid
        } else if self.pmt1_ch.channel == ch {
            DataType::Pmt1
        } else if self.pmt2_ch.channel == ch {
            DataType::Pmt2
        } else if self.pmt3_ch.channel == ch {
            DataType::Pmt3
        } else if self.pmt4_ch.channel == ch {
            DataType::Pmt4
        } else if self.line_ch.channel == ch {
            DataType::Line
        } else if self.frame_ch.channel == ch {
            DataType::Frame
        } else if self.taglens_ch.channel == ch {
            DataType::TagLens
        } else if self.laser_ch.channel == ch {
            DataType::Laser
        } else {
            DataType::Invalid
        }
    }
}

/// A total mapping from channel number to role, dense over the channels of
/// the instrument.
pub struct Inputs {
    pub table: Vec<DataType>,
}

impl Inputs {
    pub open spec fn wf(&self) -> bool {
        self.table@.len() == MAX_CHANNEL + 1
    }

    /// The role of channel `ch`; `Invalid` outside the instrument's range.
    pub open spec fn spec_get(&self, ch: int) -> DataType {
        if 0 <= ch <= MAX_CHANNEL {
            self.table@[ch]
        } else {
            DataType::Invalid
        }
    }

    /// Builds the mapping of a configuration.
    pub fn from_config(config: &AppConfig) -> (r: Inputs)
        ensures
            r.wf(),
            forall|ch: int| #[trigger] r.spec_get(ch) == config.data_type_of(ch),
    {
        let mut table: Vec<DataType> = Vec::new();
        let mut ch: i32 = 0;
        while ch <= MAX_CHANNEL
            invariant
                0 <= ch <= MAX_CHANNEL + 1,
                table@.len() == ch,
                forall|k: int| 0 <= k < ch ==> #[trigger] table@[k] == config.data_type_of(k),
            decreases MAX_CHANNEL + 1 - ch,
        {
            table.push(config.data_type_of_exec(ch));
            ch += 1;
        }
        let r = Inputs { table };
        assert forall|c: int| #[trigger] r.spec_get(c) == config.data_type_of(c) by {
            if 0 <= c <= MAX_CHANNEL {
                assert(r.table@[c] == config.data_type_of(c));
            }
        }
        r
    }

    /// The role of channel `ch`.
    pub fn get(&self, ch: i32) -> (r: DataType)
        requires
            self.wf(),
        ensures
            r == self.spec_get(ch as int),
    {
        if ch < 0 || ch > MAX_CHANNEL {
            DataType::Invalid
        } else {
            self.table[ch as usize]
        }
    }
}

} // verus!
