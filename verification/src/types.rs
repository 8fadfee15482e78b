//! Core data model of a Vortex Tracker II module: samples, ornaments,
//! patterns, the position list and the AY register snapshot.
use vstd::prelude::*;

verus! {

pub const MAX_PAT_LEN: usize = 256;
pub const DEF_PAT_LEN: usize = 64;
pub const MAX_PAT_NUM: usize = 84;
pub const MAX_NUM_OF_PATS: usize = 85;
pub const MAX_ORN_LEN: usize = 255;
pub const MAX_SAM_LEN: usize = 64;
pub const MAX_NUMBER_OF_SOUND_CHIPS: usize = 2;
/// Number of AY channels per pattern row.
pub const NUM_CHANNELS: usize = 3;

/// Silence ("R--" in the pattern grid).
pub const NOTE_SOUND_OFF: i8 = -2;
/// No note in this cell ("---").
pub const NOTE_NONE: i8 = -1;

/// 0 = PT 3.5 and older;  1 = VT II / PT 3.6;  2 = PT 3.7+
#[derive(Debug, Clone, Copy, PartialEq, Eq, Structural)]
pub enum FeaturesLevel {
    Pt35,
    Vt2,
    Pt37,
}

impl Default for FeaturesLevel {
    fn default() -> (r: Self)
        ensures
            r == FeaturesLevel::Vt2,
    {
        FeaturesLevel::Vt2
    }
}

/// Kind of tracker module a file holds.
#[derive(Debug, Clone, Copy, PartialEq, Eq, Structural)]
pub enum FileType {
    Unknown,
    Stc,
    Asc,
    Asc0,
    Stp,
    Psc,
    Fls,
    Ftc,
    Pt1,
    Pt2,
    Pt3,
    Sqt,
    Gtr,
    Fxm,
    Psm,
}

/// Mirror of the 14 AY-3-8910 hardware registers.
#[derive(Debug, Clone, Copy, PartialEq, Eq, Structural)]
pub struct AyRegisters {
    pub ton_a: u16,
    pub ton_b: u16,
    pub ton_c: u16,
    pub noise: u8,
    pub mixer: u8,
    pub amplitude_a: u8,
    pub amplitude_b: u8,
    pub amplitude_c: u8,
    pub envelope: u16,
    pub env_type: u8,
}

/// The register snapshot with every register at zero.
pub open spec fn zero_registers() -> AyRegisters {
    AyRegisters {
        ton_a: 0,
        ton_b: 0,
        ton_c: 0,
        noise: 0,
        mixer: 0,
        amplitude_a: 0,
        amplitude_b: 0,
        amplitude_c: 0,
        envelope: 0,
        env_type: 0,
    }
}

impl Default for AyRegisters {
    fn default() -> (r: Self)
        ensures
            r == zero_registers(),
    {
        AyRegisters {
            ton_a: 0,
            ton_b: 0,
            ton_c: 0,
            noise: 0,
            mixer: 0,
            amplitude_a: 0,
            amplitude_b: 0,
            amplitude_c: 0,
            envelope: 0,
            env_type: 0,
        }
    }
}

/// One step in a sample ("instrument") definition.
#[derive(Debug, Clone, Copy, PartialEq, Eq, Structural)]
pub struct SampleTick {
    pub add_to_ton: i16,
    pub ton_accumulation: bool,
    pub amplitude: u8,
    pub amplitude_sliding: bool,
    pub amplitude_slide_up: bool,
    pub envelope_enabled: bool,
    pub envelope_or_noise_accumulation: bool,
    pub add_to_envelope_or_noise: i8,
    /// false = tone channel enabled in sample
    pub mixer_ton: bool,
    /// false = noise channel enabled in sample
    pub mixer_noise: bool,
}

/// The silent tick: every field zero or false.
pub open spec fn blank_tick() -> SampleTick {
    SampleTick {
        add_to_ton: 0,
        ton_accumulation: false,
        amplitude: 0,
        amplitude_sliding: false,
        amplitude_slide_up: false,
        envelope_enabled: false,
        envelope_or_noise_accumulation: false,
        add_to_envelope_or_noise: 0,
        mixer_ton: false,
        mixer_noise: false,
    }
}

impl Default for SampleTick {
    fn default() -> (r: Self)
        ensures
            r == blank_tick(),
    {
        SampleTick {
            add_to_ton: 0,
            ton_accumulation: false,
            amplitude: 0,
            amplitude_sliding: false,
            amplitude_slide_up: false,
            envelope_enabled: false,
            envelope_or_noise_accumulation: false,
            add_to_envelope_or_noise: 0,
            mixer_ton: false,
            mixer_noise: false,
        }
    }
}

/// A PT3 "sample" (synthesizer instrument program).
#[derive(Debug, Clone)]
pub struct Sample {
    pub length: u8,
    pub loop_pos: u8,
    pub enabled: bool,
    pub items: [SampleTick; 64],
}

impl Default for Sample {
    fn default() -> (r: Self)
        ensures
            r.length == 1,
            r.loop_pos == 0,
            r.enabled,
            forall|i: int| 0 <= i < 64 ==> #[trigger] r.items[i] == blank_tick(),
    {
        let t = SampleTick::default();
        Sample { length: 1, loop_pos: 0, enabled: true, items: [t; 64] }
    }
}

/// A PT3 "ornament" (arpeggio/vibrato sequence of semitone offsets).
#[derive(Debug, Clone)]
pub struct Ornament {
    pub length: usize,
    pub loop_pos: usize,
    pub items: [i8; 255],
}

impl Default for Ornament {
    fn default() -> (r: Self)
        ensures
            r.length == 1,
            r.loop_pos == 0,
            forall|i: int| 0 <= i < 255 ==> #[trigger] r.items[i] == 0,
    {
        Ornament { length: 1, loop_pos: 0, items: [0i8; 255] }
    }
}

/// Effect command in a pattern cell (glissando, arpeggio, on/off, etc.).
#[derive(Debug, Clone, Copy, PartialEq, Eq, Structural)]
pub struct AdditionalCommand {
    pub number: u8,
    pub delay: u8,
    pub parameter: u8,
}

impl Default for AdditionalCommand {
    fn default() -> (r: Self)
        ensures
            r == (AdditionalCommand { number: 0, delay: 0, parameter: 0 }),
    {
        AdditionalCommand { number: 0, delay: 0, parameter: 0 }
    }
}

/// One cell in a pattern for a single channel.
#[derive(Debug, Clone, Copy, PartialEq, Eq, Structural)]
pub struct ChannelLine {
    /// 0..95 = note,  NOTE_NONE = no note, NOTE_SOUND_OFF = silence
    pub note: i8,
    /// 0..31 sample index (0 = keep previous)
    pub sample: u8,
    /// 0..15 ornament index
    pub ornament: u8,
    /// 0 = keep previous, 1..15 = set volume
    pub volume: u8,
    /// 0 = keep, 1..14 = envelope type, 15 = off
    pub envelope: u8,
    pub additional_command: AdditionalCommand,
}

/// The empty cell: no note and every other field zero.
pub open spec fn empty_cell() -> ChannelLine {
    ChannelLine {
        note: NOTE_NONE,
        sample: 0,
        ornament: 0,
        volume: 0,
        envelope: 0,
        additional_command: AdditionalCommand { number: 0, delay: 0, parameter: 0 },
    }
}

impl Default for ChannelLine {
    fn default() -> (r: Self)
        ensures
            r == empty_cell(),
    {
        ChannelLine {
            note: NOTE_NONE,
            sample: 0,
            ornament: 0,
            volume: 0,
            envelope: 0,
            additional_command: AdditionalCommand::default(),
        }
    }
}

/// One row of a pattern (all three channels + noise/envelope).
#[derive(Debug, Clone, Copy)]
pub struct PatternRow {
    pub noise: u8,
    pub envelope: u16,
    pub channel: [ChannelLine; 3],
}

/// The empty row.
pub open spec fn empty_row() -> PatternRow {
    PatternRow { noise: 0, envelope: 0, channel: [empty_cell(), empty_cell(), empty_cell()] }
}

impl Default for PatternRow {
    fn default() -> (r: Self)
        ensures
            r == empty_row(),
            r.noise == 0,
            r.envelope == 0,
            forall|c: int| 0 <= c < 3 ==> #[trigger] r.channel[c] == empty_cell(),
    {
        let c = ChannelLine::default();
        PatternRow { noise: 0, envelope: 0, channel: [c, c, c] }
    }
}

/// A complete pattern (sequence of rows).
#[derive(Debug, Clone)]
pub struct Pattern {
    pub length: usize,
    pub items: [PatternRow; 256],
}

impl Default for Pattern {
    fn default() -> (r: Self)
        ensures
            r.length == DEF_PAT_LEN,
            forall|i: int| 0 <= i < 256 ==> #[trigger] r.items[i] == empty_row(),
            forall|i: int, c: int|
                0 <= i < 256 && 0 <= c < 3 ==> #[trigger] r.items[i].channel[c] == empty_cell(),
            forall|i: int| 0 <= i < 256 ==> (#[trigger] r.items[i]).noise == 0 && r.items[i].envelope
                == 0,
    {
        let row = PatternRow::default();
        Pattern { length: DEF_PAT_LEN, items: [row; 256] }
    }
}

/// The module's position (song order) list.
#[derive(Debug, Clone)]
pub struct PositionList {
    /// Pattern indices for each position.
    pub value: [usize; 256],
    pub length: usize,
    pub loop_pos: usize,
}

impl Default for PositionList {
    fn default() -> (r: Self)
        ensures
            r.length == 0,
            r.loop_pos == 0,
            forall|i: int| 0 <= i < 256 ==> #[trigger] r.value[i] == 0,
    {
        PositionList { value: [0usize; 256], length: 0, loop_pos: 0 }
    }
}

/// Persistent per-channel playing state.
#[derive(Debug, Clone, Copy, PartialEq, Eq, Structural)]
pub struct ChannelState {
    pub global_ton: bool,
    pub global_noise: bool,
    pub global_envelope: bool,
    pub envelope_enabled: bool,
    pub ornament: u8,
    pub sample: u8,
    pub volume: u8,
}

impl Default for ChannelState {
    fn default() -> (r: Self)
        ensures
            r == (ChannelState {
                global_ton: false,
                global_noise: false,
                global_envelope: false,
                envelope_enabled: false,
                ornament: 0,
                sample: 0,
                volume: 0,
            }),
    {
        ChannelState {
            global_ton: false,
            global_noise: false,
            global_envelope: false,
            envelope_enabled: false,
            ornament: 0,
            sample: 0,
            volume: 0,
        }
    }
}

/// A complete Vortex Tracker II module (song).
#[derive(Debug, Clone)]
pub struct Module {
    pub title: String,
    pub author: String,
    /// Tone-table index (0..4).
    pub ton_table: u8,
    /// Initial tick delay (e.g. 3).
    pub initial_delay: u8,
    pub positions: PositionList,
    /// 31 samples (indices 1..=31; index 0 unused).
    pub samples: [Option<Box<Sample>>; 32],
    /// 16 ornaments (indices 0..=15).
    pub ornaments: [Option<Box<Ornament>>; 16],
    /// Patterns 0..=MAX_PAT_NUM, plus the "blank" pattern (logical index -1)
    /// stored at index MAX_NUM_OF_PATS.
    pub patterns: Vec<Option<Box<Pattern>>>,
    pub features_level: FeaturesLevel,
    pub vortex_module_header: bool,
    pub is_chans: [ChannelState; 3],
}

impl Module {
    /// The module is well formed when its pattern table has one slot for each
    /// pattern number and one for the blank pattern.
    pub open spec fn wf(&self) -> bool {
        self.patterns@.len() == MAX_NUM_OF_PATS + 1
    }

    /// Storage slot of a logical pattern number.
    pub open spec fn spec_pat_idx(n: i32) -> int {
        if n < 0 {
            MAX_NUM_OF_PATS as int
        } else {
            n as int
        }
    }

    /// Return the "blank" pattern at logical index -1.
    pub fn blank_pattern(&self) -> (r: Option<&Pattern>)
        requires
            self.wf(),
        ensures
            r == match self.patterns@[MAX_NUM_OF_PATS as int] {
                Some(b) => Some(&*b),
                None => None,
            },
    {
        match &self.patterns[MAX_NUM_OF_PATS] {
            Some(b) => Some(&**b),
            None => None,
        }
    }

    /// Everything of the module but its pattern table is as in `m`.
    pub open spec fn same_but_patterns(&self, m: Module) -> bool {
        &&& self.title == m.title
        &&& self.author == m.author
        &&& self.ton_table == m.ton_table
        &&& self.initial_delay == m.initial_delay
        &&& self.positions == m.positions
        &&& self.samples == m.samples
        &&& self.ornaments == m.ornaments
        &&& self.features_level == m.features_level
        &&& self.vortex_module_header == m.vortex_module_header
        &&& self.is_chans == m.is_chans
    }

    /// Mutable access to the "blank" pattern at logical index -1.
    pub fn blank_pattern_mut(&mut self) -> (r: &mut Option<Box<Pattern>>)
        requires
            old(self).wf(),
        ensures
            *r == old(self).patterns@[MAX_NUM_OF_PATS as int],
            final(self).patterns@ == old(self).patterns@.update(MAX_NUM_OF_PATS as int, *final(r)),
            final(self).same_but_patterns(*old(self)),
    {
        &mut self.patterns[MAX_NUM_OF_PATS]
    }

    /// Mutable access to the pattern stored under logical number `n`
    /// (`-1` is the blank pattern).
    pub fn pattern_mut(&mut self, n: i32) -> (r: &mut Option<Box<Pattern>>)
        requires
            old(self).wf(),
            n <= MAX_NUM_OF_PATS,
        ensures
            *r == old(self).patterns@[Self::spec_pat_idx(n)],
            final(self).patterns@ == old(self).patterns@.update(Self::spec_pat_idx(n), *final(r)),
            final(self).same_but_patterns(*old(self)),
    {
        let i = Self::pat_idx(n);
        &mut self.patterns[i]
    }

    /// Map a logical pattern index (0..=MAX_PAT_NUM) to a storage index.
    pub fn pat_idx(n: i32) -> (r: usize)
        ensures
            r == Self::spec_pat_idx(n),
    {
        if n < 0 {
            MAX_NUM_OF_PATS
        } else {
            n as usize
        }
    }

    /// The pattern stored under logical number `n` (`-1` is the blank pattern).
    pub fn pattern(&self, n: i32) -> (r: Option<&Pattern>)
        requires
            self.wf(),
            n <= MAX_NUM_OF_PATS,
        ensures
            r == match self.patterns@[Self::spec_pat_idx(n)] {
                Some(b) => Some(&*b),
                None => None,
            },
    {
        match &self.patterns[Self::pat_idx(n)] {
            Some(b) => Some(&**b),
            None => None,
        }
    }
}

impl Default for Module {
    fn default() -> (m: Self)
        ensures
            m.wf(),
            m.title@.len() == 0,
            m.author@.len() == 0,
            m.ton_table == 0,
            m.initial_delay == 3,
            m.positions.length == 0,
            m.positions.loop_pos == 0,
            forall|i: int| 0 <= i < 256 ==> #[trigger] m.positions.value[i] == 0,
            forall|i: int| 0 <= i < 32 ==> #[trigger] m.samples[i] is None,
            forall|i: int| 1 <= i < 16 ==> #[trigger] m.ornaments[i] is None,
            m.ornaments[0] matches Some(o) && o.length == 1 && o.loop_pos == 0 && (forall|
                i: int,
            | 0 <= i < 255 ==> #[trigger] o.items[i] == 0),
            forall|i: int| 0 <= i < m.patterns@.len() ==> #[trigger] m.patterns@[i] is None,
            m.features_level == FeaturesLevel::Vt2,
            m.vortex_module_header,
            forall|c: int|
                0 <= c < 3 ==> #[trigger] m.is_chans[c] == (ChannelState {
                    global_ton: true,
                    global_noise: true,
                    global_envelope: true,
                    envelope_enabled: false,
                    ornament: 0,
                    sample: 1,
                    volume: 15,
                }),
    {
        let mut patterns: Vec<Option<Box<Pattern>>> = Vec::new();
        let mut i: usize = 0;
        while i < MAX_NUM_OF_PATS + 1
            invariant
                i <= MAX_NUM_OF_PATS + 1,
                patterns@.len() == i,
                forall|j: int| 0 <= j < i ==> #[trigger] patterns@[j] is None,
            decreases MAX_NUM_OF_PATS + 1 - i,
        {
            patterns.push(None);
            i = i + 1;
        }
        let chan = ChannelState {
            global_ton: true,
            global_noise: true,
            global_envelope: true,
            envelope_enabled: false,
            ornament: 0,
            sample: 1,
            volume: 15,
        };
        Module {
            title: String::new(),
            author: String::new(),
            ton_table: 0,
            initial_delay: 3,
            positions: PositionList::default(),
            samples: [
                None, None, None, None, None, None, None, None, None, None, None, None, None,
                None, None, None, None, None, None, None, None, None, None, None, None, None,
                None, None, None, None, None, None,
            ],
            ornaments: [
                Some(Box::new(Ornament::default())), None, None, None, None, None, None, None,
                None, None, None, None, None, None, None, None,
            ],
            patterns,
            features_level: FeaturesLevel::Vt2,
            vortex_module_header: true,
            is_chans: [chan, chan, chan],
        }
    }
}

} // verus!
