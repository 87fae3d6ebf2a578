//! Materials and property resources (Materials and Properties extension).

use vstd::prelude::*;
use crate::model::resources::ResourceId;
use crate::text::{chars_of, push_char};

verus! {

/// A color in sRGB space with alpha channel, 8 bits per component.
#[derive(Debug, Clone, Copy, PartialEq, Eq)]
pub struct Color {
    /// Red component.
    pub r: u8,
    /// Green component.
    pub g: u8,
    /// Blue component.
    pub b: u8,
    /// Alpha (opacity) component; 255 is fully opaque.
    pub a: u8,
}

/// Whether `c` is a hexadecimal digit (either case).
pub open spec fn is_hex_digit(c: char) -> bool {
    ('0' <= c && c <= '9') || ('a' <= c && c <= 'f') || ('A' <= c && c <= 'F')
}

/// The value of a hexadecimal digit.
pub open spec fn hex_digit_value(c: char) -> nat {
    if '0' <= c && c <= '9' {
        (c as nat - '0' as nat) as nat
    } else if 'a' <= c && c <= 'f' {
        (c as nat - 'a' as nat + 10) as nat
    } else {
        (c as nat - 'A' as nat + 10) as nat
    }
}

/// The value of a sequence of hexadecimal digits, most significant first.
pub open spec fn hex_value(s: Seq<char>) -> nat
    decreases s.len(),
{
    if s.len() == 0 {
        0
    } else {
        hex_value(s.drop_last()) * 16 + hex_digit_value(s.last())
    }
}

/// Every character of `s` is a hexadecimal digit.
pub open spec fn all_hex(s: Seq<char>) -> bool {
    forall|i: int| 0 <= i < s.len() ==> is_hex_digit(#[trigger] s[i])
}

/// `s` with all leading `#` characters removed.
pub open spec fn trim_hashes(s: Seq<char>) -> Seq<char>
    decreases s.len(),
{
    if s.len() > 0 && s[0] == '#' {
        trim_hashes(s.drop_first())
    } else {
        s
    }
}

/// The digits that a radix-16 number parse reads: an optional leading `+` is skipped.
pub open spec fn radix_digits(s: Seq<char>) -> Seq<char> {
    if s.len() > 0 && s[0] == '+' { s.drop_first() } else { s }
}

/// Whether `s` parses as an unsigned radix-16 number that fits in 32 bits.
pub open spec fn parses_hex_u32(s: Seq<char>) -> bool {
    let d = radix_digits(s);
    d.len() > 0 && all_hex(d) && hex_value(d) < 0x1_0000_0000
}

/// What `Color::from_hex` returns for a string: `#RRGGBB` (opaque) or `#RRGGBBAA`.
/// Leading `#` characters are optional; the digit count is taken after removing them.
pub open spec fn color_from_hex_spec(s: Seq<char>) -> Option<Color> {
    let h = trim_hashes(s);
    if !parses_hex_u32(h) {
        None
    } else {
        let v = hex_value(radix_digits(h));
        if h.len() == 6 {
            Some(Color {
                r: ((v / 0x10000) % 256) as u8,
                g: ((v / 0x100) % 256) as u8,
                b: (v % 256) as u8,
                a: 255,
            })
        } else if h.len() == 8 {
            Some(Color {
                r: ((v / 0x1000000) % 256) as u8,
                g: ((v / 0x10000) % 256) as u8,
                b: ((v / 0x100) % 256) as u8,
                a: (v % 256) as u8,
            })
        } else {
            None
        }
    }
}

/// The upper-case hexadecimal digit for a value below sixteen.
pub open spec fn upper_hex_char(d: nat) -> char {
    if d < 10 {
        ((d + 48) as u8) as char
    } else {
        ((d - 10 + 65) as u8) as char
    }
}

/// Two upper-case hexadecimal digits of a byte.
pub open spec fn hex_byte(b: u8) -> Seq<char> {
    seq![upper_hex_char((b / 16) as nat), upper_hex_char((b % 16) as nat)]
}

/// What `Color::to_hex` returns: `#RRGGBBAA` in upper case.
pub open spec fn color_to_hex_spec(c: Color) -> Seq<char> {
    seq!['#'] + hex_byte(c.r) + hex_byte(c.g) + hex_byte(c.b) + hex_byte(c.a)
}

/// 16 to the power `n`.
pub open spec fn pow16(n: nat) -> nat
    decreases n,
{
    if n == 0 { 1 } else { 16 * pow16((n - 1) as nat) }
}

/// A sequence of `n` hexadecimal digits has a value below `16^n`.
pub proof fn lemma_hex_value_bound(s: Seq<char>)
    requires
        all_hex(s),
    ensures
        hex_value(s) < pow16(s.len()),
    decreases s.len(),
{
    if s.len() > 0 {
        let t = s.drop_last();
        assert(all_hex(t)) by {
            assert forall|i: int| 0 <= i < t.len() implies is_hex_digit(#[trigger] t[i]) by {
                assert(t[i] == s[i]);
            }
        }
        lemma_hex_value_bound(t);
        assert(is_hex_digit(s[s.len() - 1]));
        let hv = hex_value(t);
        let p = pow16(t.len());
        let d = hex_digit_value(s.last());
        assert(d < 16);
        assert(hv * 16 + d < p * 16) by (nonlinear_arith)
            requires
                hv < p,
                d < 16,
        ;
    }
}

/// The value of a single hexadecimal character.
fn hex_char_value(c: char) -> (r: Option<u32>)
    ensures
        r is Some <==> is_hex_digit(c),
        r matches Some(v) ==> v == hex_digit_value(c) && v < 16,
{
    if '0' <= c && c <= '9' {
        Some((c as u32) - ('0' as u32))
    } else if 'a' <= c && c <= 'f' {
        Some((c as u32) - ('a' as u32) + 10)
    } else if 'A' <= c && c <= 'F' {
        Some((c as u32) - ('A' as u32) + 10)
    } else {
        None
    }
}

/// The upper-case hexadecimal digit of a value below sixteen.
fn upper_hex_digit(d: u8) -> (c: char)
    requires
        d < 16,
    ensures
        c == upper_hex_char(d as nat),
{
    if d < 10 {
        (d + 48) as char
    } else {
        (d - 10 + 65) as char
    }
}

impl Color {
    /// Creates a color from its four components.
    pub fn new(r: u8, g: u8, b: u8, a: u8) -> (c: Self)
        ensures
            c == (Color { r, g, b, a }),
    {
        Color { r, g, b, a }
    }

    /// Parses `#RRGGBB` (opaque) or `#RRGGBBAA`; `None` for anything else.
    pub fn from_hex(hex: &str) -> (res: Option<Self>)
        ensures
            res == color_from_hex_spec(hex@),
    {
        let cs = chars_of(hex);
        let mut start: usize = 0;
        assert(cs@.skip(0) =~= cs@);
        while start < cs.len() && cs[start] == '#'
            invariant
                start <= cs.len(),
                trim_hashes(cs@) == trim_hashes(cs@.skip(start as int)),
            decreases cs.len() - start,
        {
            proof {
                let t = cs@.skip(start as int);
                assert(t.drop_first() =~= cs@.skip(start + 1));
            }
            start = start + 1;
        }
        let ghost h = cs@.skip(start as int);
        proof {
            assert(trim_hashes(h) == h);
        }
        let hlen = cs.len() - start;
        let mut i = start;
        if i < cs.len() && cs[i] == '+' {
            i = i + 1;
        }
        let ghost d = cs@.skip(i as int);
        assert(d =~= radix_digits(h));
        if i == cs.len() || cs.len() - i > 8 {
            return None;
        }
        let mut v: u32 = 0;
        let mut k = i;
        while k < cs.len()
            invariant
                i <= k <= cs.len(),
                cs.len() - i <= 8,
                d == cs@.skip(i as int),
                d == radix_digits(trim_hashes(hex@)),
                trim_hashes(hex@).len() == hlen,
                all_hex(cs@.subrange(i as int, k as int)),
                v == hex_value(cs@.subrange(i as int, k as int)),
            decreases cs.len() - k,
        {
            let ghost pre = cs@.subrange(i as int, k as int);
            match hex_char_value(cs[k]) {
                None => {
                    proof {
                        assert(d[k - i] == cs@[k as int]);
                        assert(!is_hex_digit(d[k - i]));
                        assert(!all_hex(d));
                    }
                    return None;
                },
                Some(x) => {
                    proof {
                        lemma_hex_value_bound(pre);
                        lemma_pow16_mono(pre.len(), 7);
                        reveal_with_fuel(pow16, 8);
                        assert(pow16(7) == 0x1000_0000);
                    }
                    v = v * 16 + x;
                    k = k + 1;
                    proof {
                        let now = cs@.subrange(i as int, k as int);
                        assert(now.drop_last() =~= pre);
                        assert(now.last() == cs@[k - 1]);
                        assert forall|j: int| 0 <= j < now.len() implies is_hex_digit(#[trigger] now[j]) by {
                            if j < pre.len() {
                                assert(now[j] == pre[j]);
                            }
                        }
                    }
                },
            }
        }
        proof {
            assert(cs@.subrange(i as int, cs.len() as int) =~= d);
            lemma_hex_value_bound(d);
            lemma_pow16_mono(d.len(), 8);
            reveal_with_fuel(pow16, 9);
            assert(pow16(8) == 0x1_0000_0000);
        }
        if hlen == 6 {
            Some(Color {
                r: ((v / 0x10000) % 256) as u8,
                g: ((v / 0x100) % 256) as u8,
                b: (v % 256) as u8,
                a: 255,
            })
        } else if hlen == 8 {
            Some(Color {
                r: ((v / 0x1000000) % 256) as u8,
                g: ((v / 0x10000) % 256) as u8,
                b: ((v / 0x100) % 256) as u8,
                a: (v % 256) as u8,
            })
        } else {
            None
        }
    }

    /// Renders the color as `#RRGGBBAA` with upper-case digits.
    pub fn to_hex(&self) -> (s: String)
        ensures
            s@ == color_to_hex_spec(*self),
    {
        let mut s = String::new();
        push_char(&mut s, '#');
        push_char(&mut s, upper_hex_digit(self.r / 16));
        push_char(&mut s, upper_hex_digit(self.r % 16));
        push_char(&mut s, upper_hex_digit(self.g / 16));
        push_char(&mut s, upper_hex_digit(self.g % 16));
        push_char(&mut s, upper_hex_digit(self.b / 16));
        push_char(&mut s, upper_hex_digit(self.b % 16));
        push_char(&mut s, upper_hex_digit(self.a / 16));
        push_char(&mut s, upper_hex_digit(self.a % 16));
        proof {
            assert(s@ =~= color_to_hex_spec(*self));
        }
        s
    }
}

/// `16^n` grows with `n`.
pub proof fn lemma_pow16_mono(a: nat, b: nat)
    requires
        a <= b,
    ensures
        pow16(a) <= pow16(b),
    decreases b,
{
    if a < b {
        lemma_pow16_mono(a, (b - 1) as nat);
    }
}


/// An upper-case digit is a hexadecimal digit of its value, and neither `#` nor `+`.
proof fn lemma_upper_hex_char(d: nat)
    requires
        d < 16,
    ensures
        is_hex_digit(upper_hex_char(d)),
        hex_digit_value(upper_hex_char(d)) == d,
        upper_hex_char(d) != '#',
        upper_hex_char(d) != '+',
{
    let c = upper_hex_char(d);
    if d < 10 {
        assert(c as nat == d + 48);
    } else {
        assert(c as nat == d + 55);
    }
}

/// Appending the two digits of a byte multiplies the value by 256 and adds the byte.
proof fn lemma_hex_byte_append(s: Seq<char>, b: u8)
    requires
        all_hex(s),
    ensures
        all_hex(s + hex_byte(b)),
        hex_value(s + hex_byte(b)) == hex_value(s) * 256 + b,
{
    let hi = (b / 16) as nat;
    let lo = (b % 16) as nat;
    lemma_upper_hex_char(hi);
    lemma_upper_hex_char(lo);
    let t = s + hex_byte(b);
    assert(t.drop_last() =~= s.push(upper_hex_char(hi)));
    assert(s.push(upper_hex_char(hi)).drop_last() =~= s);
    assert(t.last() == upper_hex_char(lo));
    assert(hex_value(t) == hex_value(t.drop_last()) * 16 + hex_digit_value(t.last()));
    let sp = s.push(upper_hex_char(hi));
    assert(sp.last() == upper_hex_char(hi));
    assert(hex_value(sp) == hex_value(sp.drop_last()) * 16 + hex_digit_value(sp.last()));
    assert(hex_value(t) == (hex_value(s) * 16 + hi) * 16 + lo);
    let h = hex_value(s);
    assert((h * 16 + hi) * 16 + lo == h * 256 + b) by (nonlinear_arith)
        requires
            hi == b / 16,
            lo == b % 16,
    ;
    assert forall|i: int| 0 <= i < t.len() implies is_hex_digit(#[trigger] t[i]) by {
        if i < s.len() {
            assert(t[i] == s[i]);
        }
    }
}

/// Reading the hexadecimal text of a color gives the color back.
pub proof fn lemma_hex_round_trip(c: Color)
    ensures
        color_from_hex_spec(color_to_hex_spec(c)) == Some(c),
{
    let e: Seq<char> = Seq::empty();
    lemma_hex_byte_append(e, c.r);
    let s1 = e + hex_byte(c.r);
    lemma_hex_byte_append(s1, c.g);
    let s2 = s1 + hex_byte(c.g);
    lemma_hex_byte_append(s2, c.b);
    let s3 = s2 + hex_byte(c.b);
    lemma_hex_byte_append(s3, c.a);
    let h = s3 + hex_byte(c.a);
    let full = color_to_hex_spec(c);
    assert(full =~= seq!['#'] + h);
    assert(full.drop_first() =~= h);
    lemma_upper_hex_char((c.r / 16) as nat);
    assert(h[0] == upper_hex_char((c.r / 16) as nat));
    assert(trim_hashes(h) == h);
    assert(trim_hashes(full) == h);
    assert(radix_digits(h) == h);
    assert(hex_value(e) == 0);
    let v = hex_value(h);
    let (r, g, b, a) = (c.r as int, c.g as int, c.b as int, c.a as int);
    assert(v == ((r * 256 + g) * 256 + b) * 256 + a);
    assert(v < 0x1_0000_0000 && (v / 0x1000000) % 256 == r && (v / 0x10000) % 256 == g
        && (v / 0x100) % 256 == b && v % 256 == a) by (nonlinear_arith)
        requires
            v == ((r * 256 + g) * 256 + b) * 256 + a,
            0 <= r < 256, 0 <= g < 256, 0 <= b < 256, 0 <= a < 256,
    ;
    assert(h.len() == 8);
}

} // verus!

verus! {

/// A base material with a name and display color.
#[derive(Debug, Clone)]
pub struct BaseMaterial {
    /// Human-readable material name.
    pub name: String,
    /// Display color for visualization.
    pub display_color: Color,
}

/// A resource group containing base materials.
#[derive(Debug, Clone)]
pub struct BaseMaterialsGroup {
    /// Resource ID of the group.
    pub id: ResourceId,
    /// The materials of the group.
    pub materials: Vec<BaseMaterial>,
}

/// A resource group of colors for per-vertex or per-triangle coloring.
#[derive(Debug, Clone)]
pub struct ColorGroup {
    /// Resource ID of the group.
    pub id: ResourceId,
    /// The colors of the group.
    pub colors: Vec<Color>,
}

/// A 2D texture coordinate; `u` and `v` are IEEE-754 single-precision bit patterns.
#[derive(Debug, Clone, Copy, PartialEq, Eq)]
pub struct Texture2DCoord {
    /// Horizontal coordinate (bit pattern).
    pub u: u32,
    /// Vertical coordinate (bit pattern).
    pub v: u32,
}

/// A resource group of texture coordinates.
#[derive(Debug, Clone)]
pub struct Texture2DGroup {
    /// Resource ID of the group.
    pub id: ResourceId,
    /// The texture image resource.
    pub texture_id: ResourceId,
    /// The UV coordinates.
    pub coords: Vec<Texture2DCoord>,
}

/// A texture image stored in the package.
#[derive(Debug, Clone)]
pub struct Texture2D {
    /// Resource ID of the texture.
    pub id: ResourceId,
    /// Package path of the image.
    pub path: String,
    /// MIME content type of the image.
    pub contenttype: String,
}

/// A resource group of composite (blended) materials.
#[derive(Debug, Clone)]
pub struct CompositeMaterials {
    /// Resource ID of the group.
    pub id: ResourceId,
    /// The base materials group blended from.
    pub base_material_id: ResourceId,
    /// Indices of the base materials used.
    pub indices: Vec<u32>,
    /// The composite definitions.
    pub composites: Vec<Composite>,
}

/// One composite: mixing ratios as single-precision bit patterns.
#[derive(Debug, Clone)]
pub struct Composite {
    /// Mixing ratios (bit patterns).
    pub values: Vec<u32>,
}

/// A resource group combining several property groups.
#[derive(Debug, Clone)]
pub struct MultiProperties {
    /// Resource ID of the group.
    pub id: ResourceId,
    /// The combined property groups.
    pub pids: Vec<ResourceId>,
    /// Blending method for each combined group.
    pub blend_methods: Vec<BlendMethod>,
    /// The index combinations.
    pub multis: Vec<Multi>,
}

/// One multi-property combination: an index into each combined group.
#[derive(Debug, Clone)]
pub struct Multi {
    /// Property indices, parallel to the group's `pids`.
    pub pindices: Vec<u32>,
}

/// How properties are blended.
#[derive(Debug, Clone, Copy, PartialEq, Eq)]
pub enum BlendMethod {
    /// No blending: the first property only.
    NoBlend,
    /// Linear mixing.
    Mix,
    /// Multiplicative blending.
    Multiply,
}

/// Texture channel used for displacement.
#[derive(Debug, Clone, Copy, PartialEq, Eq)]
pub enum Channel {
    /// Red.
    R,
    /// Green (the default).
    G,
    /// Blue.
    B,
    /// Alpha.
    A,
}

/// Texture tiling style.
#[derive(Debug, Clone, Copy, PartialEq, Eq)]
pub enum TileStyle {
    /// Repeat (the default).
    Wrap,
    /// Mirror.
    Mirror,
    /// Clamp to the edge.
    Clamp,
    /// No tiling (`none`).
    NoTiling,
}

/// Texture filtering mode.
#[derive(Debug, Clone, Copy, PartialEq, Eq)]
pub enum FilterMode {
    /// Linear filtering (the default).
    Linear,
    /// Nearest-neighbour filtering.
    Nearest,
}

/// A displacement texture resource; `height` and `offset` are single-precision bit patterns.
#[derive(Debug, Clone)]
pub struct Displacement2D {
    /// Resource ID of the texture.
    pub id: ResourceId,
    /// Package path of the image.
    pub path: String,
    /// Channel holding the displacement values.
    pub channel: Channel,
    /// Tiling style.
    pub tile_style: TileStyle,
    /// Filtering mode.
    pub filter: FilterMode,
    /// Maximum displacement height (bit pattern).
    pub height: u32,
    /// Base offset (bit pattern).
    pub offset: u32,
}

} // verus!
