//! What the screen space global illumination passes are set up from: the
//! quality levels and their sample counts, the shader definitions of a
//! pipeline, the noise table, and the sizes of the compute dispatches.
use vstd::prelude::*;

pub mod hilbert;

use crate::math::{div_ceil, lemma_parts_to_hold, parts_to_hold};
use hilbert::{generate_hilbert_index_lut, hilbert};

verus! {

/// How many storage textures one shader stage must be able to bind for the
/// passes to run.
pub const MIN_STORAGE_TEXTURES_PER_SHADER_STAGE: u32 = 5;

/// The side of the pixel tile that one workgroup of the depth preprocessing
/// pass covers.
pub const PREPROCESS_DEPTH_TILE: u32 = 16;

/// The side of the pixel tile that one workgroup of the illumination pass
/// and of the denoising pass covers.
pub const SSGI_TILE: u32 = 8;

/// How much work the effect puts into a pixel.
#[derive(PartialEq, Eq, Structural, Hash, Clone, Copy, Debug)]
pub enum ScreenSpaceGlobalIlluminationQualityLevel {
    Low,
    Medium,
    High,
    Ultra,
    Custom {
        /// A higher slice count means less noise and more work.
        slice_count: u32,
        /// Best left at 2 or 3.
        samples_per_slice_side: u32,
    },
}

impl Default for ScreenSpaceGlobalIlluminationQualityLevel {
    fn default() -> (level: Self)
        ensures
            level == ScreenSpaceGlobalIlluminationQualityLevel::High,
    {
        ScreenSpaceGlobalIlluminationQualityLevel::High
    }
}

impl ScreenSpaceGlobalIlluminationQualityLevel {
    /// The slice count of a level, and its samples per side of a slice.
    pub open spec fn counts(self) -> (u32, u32) {
        match self {
            Self::Low => (1, 2),
            Self::Medium => (2, 2),
            Self::High => (3, 3),
            Self::Ultra => (9, 3),
            Self::Custom { slice_count, samples_per_slice_side } => (
                slice_count,
                samples_per_slice_side,
            ),
        }
    }

    /// The slice count of this level, and its samples per side of a slice.
    pub fn sample_counts(&self) -> (counts: (u32, u32))
        ensures
            counts == self.counts(),
    {
        match self {
            Self::Low => (1, 2),
            Self::Medium => (2, 2),
            Self::High => (3, 3),
            Self::Ultra => (9, 3),
            Self::Custom { slice_count: slices, samples_per_slice_side } => (
                *slices,
                *samples_per_slice_side,
            ),
        }
    }
}

/// Whether a device can run the passes at all.
pub fn supports_ssgi(max_storage_textures_per_shader_stage: u32) -> (supported: bool)
    ensures
        supported == (max_storage_textures_per_shader_stage
            >= MIN_STORAGE_TEXTURES_PER_SHADER_STAGE),
{
    max_storage_textures_per_shader_stage >= MIN_STORAGE_TEXTURES_PER_SHADER_STAGE
}

/// What is to be done with the settings of one camera when they are taken
/// over for rendering.
#[derive(PartialEq, Eq, Structural, Clone, Copy, Debug)]
pub enum Extraction {
    /// The camera uses multisampling, which the effect does not work with:
    /// the fault is reported, and no further camera is looked at.
    Abort,
    /// The camera is active: its settings are taken over.
    Insert,
    /// The camera is not active: its settings are removed.
    Remove,
}

/// What is to be done with the settings of a camera.
pub fn extraction(msaa_off: bool, camera_is_active: bool) -> (action: Extraction)
    ensures
        action == if !msaa_off {
            Extraction::Abort
        } else if camera_is_active {
            Extraction::Insert
        } else {
            Extraction::Remove
        },
{
    if !msaa_off {
        Extraction::Abort
    } else if camera_is_active {
        Extraction::Insert
    } else {
        Extraction::Remove
    }
}

/// The format of the depth texture that the preprocessing pass writes.
#[derive(PartialEq, Eq, Structural, Clone, Copy, Debug)]
pub enum DepthFormat {
    R16Float,
    R32Float,
}

/// The depth format for a device: the smaller one where the device can
/// bind it as a storage texture.
pub fn depth_format(r16float_is_storage_capable: bool) -> (format: DepthFormat)
    ensures
        format == if r16float_is_storage_capable {
            DepthFormat::R16Float
        } else {
            DepthFormat::R32Float
        },
{
    if r16float_is_storage_capable {
        DepthFormat::R16Float
    } else {
        DepthFormat::R32Float
    }
}

/// A name that a shader is compiled with, and the value it stands for.
#[derive(Debug, PartialEq, Eq)]
pub enum ShaderDefVal {
    Bool(String, bool),
    Int(String, i32),
    UInt(String, u32),
}

impl ShaderDefVal {
    /// The name.
    pub open spec fn name(self) -> Seq<char> {
        match self {
            ShaderDefVal::Bool(name, _) => name@,
            ShaderDefVal::Int(name, _) => name@,
            ShaderDefVal::UInt(name, _) => name@,
        }
    }

    /// Whether this is a signed number with this name and this value.
    pub open spec fn is_int(self, name: Seq<char>, value: int) -> bool {
        self matches ShaderDefVal::Int(n, v) && n@ == name && v == value
    }

    /// Whether this is a switch with this name that is turned on.
    pub open spec fn is_set(self, name: Seq<char>) -> bool {
        self matches ShaderDefVal::Bool(n, v) && n@ == name && v
    }

    /// A switch that is turned on.
    pub fn flag(name: &str) -> (def: Self)
        ensures
            def.is_set(name@),
    {
        ShaderDefVal::Bool(name.to_owned(), true)
    }
}

/// The number that the bits of `count` stand for when they are read as a
/// signed number.
pub open spec fn as_signed(count: u32) -> int {
    if count <= i32::MAX {
        count as int
    } else {
        count - 0x1_0000_0000
    }
}

/// Reads the bits of an unsigned number as a signed one.
fn to_signed(count: u32) -> (signed: i32)
    ensures
        signed == as_signed(count),
{
    if count <= 0x7fff_ffff {
        count as i32
    } else {
        let below: u32 = count - 0x8000_0000;
        below as i32 - 0x4000_0000 - 0x4000_0000
    }
}

/// The definitions the depth preprocessing shader is compiled with.
pub fn depth_shader_defs(format: DepthFormat) -> (defs: Vec<ShaderDefVal>)
    ensures
        defs@.len() == (if format == DepthFormat::R16Float { 1nat } else { 0nat }),
        format == DepthFormat::R16Float ==> defs@[0].is_set("USE_R16FLOAT"@),
{
    let mut defs = Vec::new();
    match format {
        DepthFormat::R16Float => {
            defs.push(ShaderDefVal::flag("USE_R16FLOAT"));
        },
        DepthFormat::R32Float => {},
    }
    defs
}

/// What tells one variant of the illumination pipeline from another.
#[derive(PartialEq, Eq, Structural, Hash, Clone, Copy, Debug)]
pub struct SsgiPipelineKey {
    pub quality_level: ScreenSpaceGlobalIlluminationQualityLevel,
    pub temporal_jitter: bool,
}

impl SsgiPipelineKey {
    /// The definitions the illumination shader is compiled with: the two
    /// sample counts of the quality level, as signed numbers, and a switch
    /// where the camera jitters over time.
    pub fn shader_defs(&self) -> (defs: Vec<ShaderDefVal>)
        ensures
            defs@.len() == (if self.temporal_jitter { 3nat } else { 2nat }),
            defs@[0].is_int("SLICE_COUNT"@, as_signed(self.quality_level.counts().0)),
            defs@[1].is_int(
                "SAMPLES_PER_SLICE_SIDE"@,
                as_signed(self.quality_level.counts().1),
            ),
            self.temporal_jitter ==> defs@[2].is_set("TEMPORAL_JITTER"@),
    {
        let (slice_count, samples_per_slice_side) = self.quality_level.sample_counts();
        let mut defs = Vec::new();
        defs.push(ShaderDefVal::Int("SLICE_COUNT".to_owned(), to_signed(slice_count)));
        defs.push(
            ShaderDefVal::Int(
                "SAMPLES_PER_SLICE_SIDE".to_owned(),
                to_signed(samples_per_slice_side),
            ),
        );
        if self.temporal_jitter {
            defs.push(ShaderDefVal::flag("TEMPORAL_JITTER"));
        }
        defs
    }
}

/// The number of workgroups along one axis: the least number of tiles of
/// side `tile` that cover `pixels` pixels in a row.
pub fn workgroup_count(pixels: u32, tile: u32) -> (count: u32)
    requires
        tile > 0,
    ensures
        count == parts_to_hold(pixels as int, tile as int),
{
    proof {
        lemma_parts_to_hold(pixels as int, tile as int);
    }
    div_ceil(pixels as u64, tile as u64) as u32
}

/// The workgroups of one compute pass over a viewport, along the three axes.
pub fn dispatch_size(viewport: (u32, u32), tile: u32) -> (groups: (u32, u32, u32))
    requires
        tile > 0,
    ensures
        groups.0 == parts_to_hold(viewport.0 as int, tile as int),
        groups.1 == parts_to_hold(viewport.1 as int, tile as int),
        groups.2 == 1,
{
    (workgroup_count(viewport.0, tile), workgroup_count(viewport.1, tile), 1)
}

/// The two bytes at `at`, read as a number with the low byte first.
pub open spec fn word_le(bytes: Seq<u8>, at: int) -> int {
    bytes[at] + 256 * bytes[at + 1]
}

/// The two bytes at `at`, read as a number with the high byte first.
pub open spec fn word_be(bytes: Seq<u8>, at: int) -> int {
    256 * bytes[at] + bytes[at + 1]
}

/// Whether `bytes` hold the 64 by 64 numbers that `entry` gives, row after
/// row, two bytes a number, in one of the two byte orders throughout.
pub open spec fn holds_entries(bytes: Seq<u8>, entry: spec_fn(int, int) -> int) -> bool {
    &&& bytes.len() == 2 * 64 * 64
    &&& {
        ||| forall|x: int, y: int|
            0 <= x < 64 && 0 <= y < 64 ==> #[trigger] word_le(bytes, 2 * (64 * x + y)) == entry(x, y)
        ||| forall|x: int, y: int|
            0 <= x < 64 && 0 <= y < 64 ==> #[trigger] word_be(bytes, 2 * (64 * x + y)) == entry(x, y)
    }
}

/// The bytes of `table` as they lie in memory, from `bytemuck::cast_slice`.
///
/// The call reinterprets the memory of the rows as bytes. An array lies in
/// memory entry after entry, and the rows of a table row after row, so the
/// bytes are those of the entries in reading order. Which of the two bytes
/// of an entry comes first is the machine's choice, and the same for all.
/// Bytes have no alignment to meet and no length to divide, so the call
/// does not fail.
#[verifier::external_body]
fn table_bytes(table: &[[u16; 64]; 64]) -> (bytes: Vec<u8>)
    ensures
        holds_entries(bytes@, (|x: int, y: int| table[x][y] as int)),
{
    bytemuck::cast_slice::<[u16; 64], u8>(table).to_vec()
}

/// The contents of the noise texture: the positions of all cells on the
/// Hilbert curve, as the bytes of a texture of 64 by 64 numbers of 16 bits.
pub fn hilbert_index_lut_bytes() -> (bytes: Vec<u8>)
    ensures
        holds_entries(bytes@, (|x: int, y: int| hilbert(32, x as nat, y as nat) as int)),
{
    let table = generate_hilbert_index_lut();
    let bytes = table_bytes(&table);
    proof {
        let stored = |x: int, y: int| table[x][y] as int;
        let wanted = |x: int, y: int| hilbert(32, x as nat, y as nat) as int;
        assert forall|x: int, y: int| 0 <= x < 64 && 0 <= y < 64 implies #[trigger] stored(x, y) == wanted(
            x,
            y,
        ) by {
            assert(table[x][y] == hilbert(32, x as nat, y as nat));
        }
    }
    bytes
}

} // verus!
