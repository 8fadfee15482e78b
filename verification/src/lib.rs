//! Vortex Tracker II core: the module data model, the tracker playback
//! engine, the AY-3-8910 / YM2149F chip model and the tracker file formats.
pub mod chip;
pub mod editor;
pub mod formats;
pub mod note_tables;
pub mod playback;
pub mod render;
pub mod player;
pub mod synth;
pub mod types;
pub mod util;

pub use types::{
    AdditionalCommand, AyRegisters, ChannelLine, ChannelState, FeaturesLevel, FileType, Module,
    Ornament, Pattern, PatternRow, PositionList, Sample, SampleTick, DEF_PAT_LEN, MAX_NUM_OF_PATS,
    MAX_NUMBER_OF_SOUND_CHIPS, MAX_ORN_LEN, MAX_PAT_LEN, MAX_PAT_NUM, MAX_SAM_LEN, NOTE_NONE,
    NOTE_SOUND_OFF, NUM_CHANNELS,
};
