//! Shapes and layers — the core data model of the editor.
//!
//! A shape has no colour of its own: it points to a layer through `layer_id`,
//! and the layer carries colour and laser parameters (colour = layer =
//! parameter set). The numeric laser parameters (speed, power, minimum power,
//! line step, resolution) and a shape's outline are measured values that the
//! editor logic only carries along; both are referred to by keys into stores
//! that the caller keeps, so that every decision of the editor — which layer a
//! shape belongs to, which layers exist and in which order, what is selected
//! and grouped — is made on plain values here.

use vstd::prelude::*;

use crate::chars::{decimal, push_digits, push_str, string_from_chars};

verus! {

/// The 14 standard layer colours (RGB). New layers receive them in turn.
pub const SWATCH_COLORS: [[u8; 3]; 14] = [
    [0xEF, 0x44, 0x44],
    [0x3B, 0x82, 0xF6],
    [0x10, 0xB9, 0x81],
    [0xEA, 0xB3, 0x08],
    [0xD9, 0x46, 0xEF],
    [0xA8, 0x55, 0xF7],
    [0x84, 0xCC, 0x16],
    [0x06, 0xB6, 0xD4],
    [0xF9, 0x73, 0x16],
    [0x8B, 0x5C, 0xF6],
    [0xEC, 0x48, 0x99],
    [0x00, 0xFF, 0xFF],
    [0xF5, 0x9E, 0x0B],
    [0x6B, 0x72, 0x80],
];

/// Key of the standard numeric laser parameter set of a new layer
/// (100 mm/s, 20 % power, 10 % minimum power, 0.1 mm line step, 254 dpi).
pub const STANDARD_PARAMS: u64 = 0;

/// How a layer is processed — decides HOW the laser works it.
#[derive(Debug, Clone, Copy, PartialEq, Eq, Structural)]
pub enum LayerMode {
    Cut,
    Fill,
    Raster,
    /// Image layer: carries exactly one imported image plus its processing
    /// parameters; rastered for the job.
    Image,
}

impl LayerMode {
    pub open spec fn spec_is_filled(self) -> bool {
        self is Fill || self is Raster || self is Image
    }

    /// Fill, raster and image layers fill areas; cut layers only follow the
    /// outline.
    pub fn is_filled(&self) -> (r: bool)
        ensures
            r == self.spec_is_filled(),
    {
        matches!(self, LayerMode::Fill | LayerMode::Raster | LayerMode::Image)
    }
}

/// Two colours are the same when all three channels agree.
pub open spec fn same_color(a: [u8; 3], b: [u8; 3]) -> bool {
    a@ == b@
}

/// Whether a layer mode needs its areas filled.
pub fn needs_fill(mode: LayerMode) -> (r: bool)
    ensures
        r == mode.spec_is_filled(),
{
    mode.is_filled()
}

pub fn color_eq(a: [u8; 3], b: [u8; 3]) -> (r: bool)
    ensures
        r == same_color(a, b),
{
    let r = a[0] == b[0] && a[1] == b[1] && a[2] == b[2];
    proof {
        if r {
            assert(a@ =~= b@);
        } else {
            assert(a@ != b@) by {
                if a@ == b@ {
                    assert(a@[0] == b@[0] && a@[1] == b@[1] && a@[2] == b@[2]);
                }
            }
        }
    }
    r
}

/// The abstract value of a layer.
pub struct LayerView {
    pub name: Seq<char>,
    pub color: [u8; 3],
    pub visible: bool,
    pub enabled: bool,
    pub active: bool,
    pub locked: bool,
    pub mode: LayerMode,
    pub air_assist: bool,
    pub passes: u32,
    pub bidirectional: bool,
    pub laser_params: u64,
}

/// A layer bundles colour and laser parameters. Shapes of the same colour share
/// a layer.
#[derive(Debug, Clone)]
pub struct Layer {
    pub name: String,
    pub color: [u8; 3],
    /// Show the layer's objects on the canvas.
    pub visible: bool,
    /// Burn/engrave the layer in the job (independent of `visible`).
    pub enabled: bool,
    pub active: bool,
    pub locked: bool,
    pub mode: LayerMode,
    pub air_assist: bool,
    /// Repetitions.
    pub passes: u32,
    /// Bidirectional scanning for image and raster layers.
    pub bidirectional: bool,
    /// Key of the numeric laser parameter set (speed, power, minimum power,
    /// line step, resolution) held by the caller.
    pub laser_params: u64,
}

impl View for Layer {
    type V = LayerView;

    open spec fn view(&self) -> LayerView {
        LayerView {
            name: self.name@,
            color: self.color,
            visible: self.visible,
            enabled: self.enabled,
            active: self.active,
            locked: self.locked,
            mode: self.mode,
            air_assist: self.air_assist,
            passes: self.passes,
            bidirectional: self.bidirectional,
            laser_params: self.laser_params,
        }
    }
}

/// Name of the layer created at `index`: "Ebene <index + 1>".
pub open spec fn layer_name(index: nat) -> Seq<char> {
    "Ebene "@ + decimal(index + 1)
}

/// A fresh layer with the given name and colour and the standard parameters.
pub open spec fn fresh_layer(name: Seq<char>, color: [u8; 3]) -> LayerView {
    LayerView {
        name,
        color,
        visible: true,
        enabled: true,
        active: true,
        locked: false,
        mode: LayerMode::Cut,
        air_assist: false,
        passes: 1,
        bidirectional: true,
        laser_params: STANDARD_PARAMS,
    }
}

/// Palette colour given to the layer created at `index` (colours repeat).
pub open spec fn swatch(index: nat) -> [u8; 3] {
    SWATCH_COLORS[(index % 14) as int]
}

impl Layer {
    /// New layer with the palette colour for `index` and standard parameters.
    pub fn new(index: usize) -> (l: Layer)
        requires
            index < usize::MAX,
        ensures
            l@ == fresh_layer(layer_name(index as nat), swatch(index as nat)),
    {
        let color = SWATCH_COLORS[index % 14];
        Self::with_color(index, color)
    }

    /// New layer with a fixed colour (for the colour palette).
    pub fn with_color(index: usize, color: [u8; 3]) -> (l: Layer)
        requires
            index < usize::MAX,
        ensures
            l@ == fresh_layer(layer_name(index as nat), color),
    {
        let name = numbered_name("Ebene ", index as u64 + 1);
        Layer {
            name,
            color,
            visible: true,
            enabled: true,
            active: true,
            locked: false,
            mode: LayerMode::Cut,
            air_assist: false,
            passes: 1,
            bidirectional: true,
            laser_params: STANDARD_PARAMS,
        }
    }

    /// Colour as hex string "#RRGGBB" (upper-case digits).
    pub fn color_hex(&self) -> (s: String)
        ensures
            s@ == seq!['#'] + hex_byte_upper(self.color[0]) + hex_byte_upper(self.color[1])
                + hex_byte_upper(self.color[2]),
    {
        let mut out: Vec<char> = Vec::new();
        out.push('#');
        push_hex_byte_upper(&mut out, self.color[0]);
        push_hex_byte_upper(&mut out, self.color[1]);
        push_hex_byte_upper(&mut out, self.color[2]);
        string_from_chars(&out)
    }

    /// A copy with the same abstract value.
    pub fn duplicate(&self) -> (l: Layer)
        ensures
            l@ == self@,
    {
        Layer {
            name: self.name.clone(),
            color: self.color,
            visible: self.visible,
            enabled: self.enabled,
            active: self.active,
            locked: self.locked,
            mode: self.mode,
            air_assist: self.air_assist,
            passes: self.passes,
            bidirectional: self.bidirectional,
            laser_params: self.laser_params,
        }
    }
}

/// `prefix` followed by the decimal notation of `n`.
pub fn numbered_name(prefix: &str, n: u64) -> (s: String)
    ensures
        s@ == prefix@ + decimal(n as nat),
{
    let mut out: Vec<char> = Vec::new();
    push_str(&mut out, prefix);
    push_digits(&mut out, n, 10);
    string_from_chars(&out)
}

/// Upper-case hexadecimal digit character of a value below 16.
pub open spec fn hex_upper_char(d: nat) -> char {
    if d < 10 {
        crate::chars::digit_char(d)
    } else if d == 10 {
        'A'
    } else if d == 11 {
        'B'
    } else if d == 12 {
        'C'
    } else if d == 13 {
        'D'
    } else if d == 14 {
        'E'
    } else {
        'F'
    }
}

/// A byte as two upper-case hexadecimal digits.
pub open spec fn hex_byte_upper(b: u8) -> Seq<char> {
    seq![hex_upper_char((b / 16) as nat), hex_upper_char((b % 16) as nat)]
}

fn hex_upper(d: u8) -> (c: char)
    requires
        d < 16,
    ensures
        c == hex_upper_char(d as nat),
{
    match d {
        0 => '0',
        1 => '1',
        2 => '2',
        3 => '3',
        4 => '4',
        5 => '5',
        6 => '6',
        7 => '7',
        8 => '8',
        9 => '9',
        10 => 'A',
        11 => 'B',
        12 => 'C',
        13 => 'D',
        14 => 'E',
        _ => 'F',
    }
}

fn push_hex_byte_upper(out: &mut Vec<char>, b: u8)
    ensures
        final(out)@ == old(out)@ + hex_byte_upper(b),
{
    out.push(hex_upper(b / 16));
    out.push(hex_upper(b % 16));
    assert(final(out)@ =~= old(out)@ + hex_byte_upper(b));
}

/// A drawn shape. Belongs to a layer through `layer_id`.
#[derive(Debug, Clone, Copy, PartialEq, Eq, Structural)]
pub struct Shape {
    pub layer_id: usize,
    /// Key of the shape's outline record (geometry, rotation, per-shape
    /// overrides, text and Bézier source) held by the caller.
    pub geo: u64,
    /// Helper outline that only bounds an area fill; neither shown in cut mode
    /// nor part of the laser job.
    pub fill_only: bool,
    /// Group id — shapes with the same id are handled together.
    pub group_id: Option<u32>,
    /// Compound fill path id (even/odd within the same id).
    pub fill_group_id: Option<u32>,
}

/// A new shape on a layer.
pub open spec fn new_shape(layer_id: usize, geo: u64) -> Shape {
    Shape { layer_id, geo, fill_only: false, group_id: None, fill_group_id: None }
}

impl Shape {
    /// New shape on a layer.
    pub fn new(layer_id: usize, geo: u64) -> (s: Shape)
        ensures
            s == new_shape(layer_id, geo),
    {
        Shape { layer_id, geo, fill_only: false, group_id: None, fill_group_id: None }
    }
}

/// Deterministic palette-free colour of an image layer is computed from a
/// hue rotation by the caller; the layer itself is named "Bild <seed + 1>".
pub open spec fn image_layer_name(seed: nat) -> Seq<char> {
    "Bild "@ + decimal(seed + 1)
}

/// Is `c` one of the standard palette colours?
pub open spec fn in_swatch(c: [u8; 3]) -> bool {
    exists|i: int| 0 <= i < 14 && same_color(#[trigger] SWATCH_COLORS[i], c)
}

fn is_swatch_color(c: [u8; 3]) -> (r: bool)
    ensures
        r == in_swatch(c),
{
    let palette = SWATCH_COLORS;
    let mut i: usize = 0;
    while i < 14
        invariant
            i <= 14,
            palette == SWATCH_COLORS,
            forall|k: int| 0 <= k < i ==> !same_color(#[trigger] SWATCH_COLORS[k], c),
        decreases 14 - i,
    {
        if color_eq(palette[i], c) {
            return true;
        }
        i = i + 1;
    }
    false
}

/// Index of the first candidate outside the palette.
pub open spec fn first_off_palette(candidates: Seq<[u8; 3]>) -> Option<int>
    decreases candidates.len(),
{
    if candidates.len() == 0 {
        None
    } else {
        match first_off_palette(candidates.drop_last()) {
            Some(i) => Some(i),
            None => if in_swatch(candidates.last()) {
                None
            } else {
                Some(candidates.len() - 1)
            },
        }
    }
}

/// Colour of a new image layer, chosen outside the palette so that image
/// layers never share a colour with drawn layers. `candidates` are the
/// colours of successive golden-angle hue steps from the layer's seed
/// (computed by the caller); the first one outside the palette is taken, and
/// the first candidate when none is.
pub fn image_layer_color(candidates: &Vec<[u8; 3]>) -> (c: [u8; 3])
    requires
        candidates@.len() > 0,
    ensures
        c == match first_off_palette(candidates@) {
            Some(i) => candidates@[i],
            None => candidates@[0],
        },
{
    let mut i: usize = 0;
    while i < candidates.len()
        invariant
            i <= candidates@.len(),
            first_off_palette(candidates@.subrange(0, i as int)) is None,
        decreases candidates.len() - i,
    {
        assert(candidates@.subrange(0, i + 1).drop_last() =~= candidates@.subrange(0, i as int));
        if !is_swatch_color(candidates[i]) {
            proof {
                lemma_first_off_extends(candidates@, i + 1);
            }
            return candidates[i];
        }
        i = i + 1;
    }
    assert(candidates@.subrange(0, candidates@.len() as int) =~= candidates@);
    candidates[0]
}

proof fn lemma_first_off_extends(s: Seq<[u8; 3]>, k: int)
    requires
        0 <= k <= s.len(),
        first_off_palette(s.subrange(0, k)) is Some,
    ensures
        first_off_palette(s) == first_off_palette(s.subrange(0, k)),
    decreases s.len(),
{
    if k == s.len() {
        assert(s.subrange(0, k) =~= s);
    } else {
        assert(s.drop_last().subrange(0, k) =~= s.subrange(0, k));
        lemma_first_off_extends(s.drop_last(), k);
    }
}

} // verus!
