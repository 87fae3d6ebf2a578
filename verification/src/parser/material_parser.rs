//! Reading of material and property resources: base materials, color groups, texture
//! coordinate groups, composite materials and multi-properties.

use vstd::prelude::*;
use crate::error::Lib3mfError;
use crate::model::materials::{
    BaseMaterial, BaseMaterialsGroup, BlendMethod, Color, ColorGroup, Composite, CompositeMaterials, Multi,
    MultiProperties, Texture2DCoord, Texture2DGroup, color_from_hex_spec,
};
use crate::model::resources::ResourceId;
use crate::parser::bambu_config::u32_of;
use crate::parser::crypto_parser::{eof_error, moved_on};
use crate::parser::xml_parser::{
    AttrsView, EventView, NumberTable, NumbersView, XmlEvent, XmlParser, XmlTag, attr_text, attrs_view,
    eof_message, get_attribute, numbers_view, parse_u32, split_words, std_number, unsigned_value, words,
};
use crate::text::same_text;

verus! {

/// The bit patterns `str::parse` reads from each word, or `None` when one is no number.
pub open spec fn word_numbers(ws: Seq<Seq<char>>, t: NumbersView) -> Option<Seq<u32>>
    decreases ws.len(),
{
    if ws.len() == 0 {
        Some(Seq::empty())
    } else {
        match word_numbers(ws.drop_last(), t) {
            None => None,
            Some(v) => match std_number(t, ws.last()) {
                Some(b) => Some(v.push(b)),
                None => None,
            },
        }
    }
}

/// The `u32`s `str::parse` reads from each word, or `None` when one is no such number.
pub open spec fn word_u32s(ws: Seq<Seq<char>>) -> Option<Seq<u32>>
    decreases ws.len(),
{
    if ws.len() == 0 {
        Some(Seq::empty())
    } else {
        match word_u32s(ws.drop_last()) {
            None => None,
            Some(v) => match u32_of(ws.last()) {
                Some(b) => Some(v.push(b)),
                None => None,
            },
        }
    }
}

proof fn lemma_word_numbers_none(ws: Seq<Seq<char>>, t: NumbersView, k: int)
    requires
        0 <= k <= ws.len(),
        word_numbers(ws.take(k), t) is None,
    ensures
        word_numbers(ws, t) is None,
    decreases ws.len() - k,
{
    if k < ws.len() {
        assert(ws.take(k + 1).drop_last() =~= ws.take(k));
        lemma_word_numbers_none(ws, t, k + 1);
    } else {
        assert(ws.take(k) =~= ws);
    }
}

proof fn lemma_word_u32s_none(ws: Seq<Seq<char>>, k: int)
    requires
        0 <= k <= ws.len(),
        word_u32s(ws.take(k)) is None,
    ensures
        word_u32s(ws) is None,
    decreases ws.len() - k,
{
    if k < ws.len() {
        assert(ws.take(k + 1).drop_last() =~= ws.take(k));
        lemma_word_u32s_none(ws, k + 1);
    } else {
        assert(ws.take(k) =~= ws);
    }
}

/// The numbers of the words of a text, read by `str::parse`.
pub fn parse_word_numbers(s: &str, numbers: &NumberTable) -> (r: Option<Vec<u32>>)
    ensures
        match word_numbers(words(s@), numbers_view(*numbers)) {
            Some(v) => r matches Some(x) && x@ == v,
            None => r is None,
        },
{
    let parts = split_words(s);
    let ghost ws = words(s@);
    proof {
        assert forall|k: int| 0 <= k < ws.len() implies ws[k] == #[trigger] parts@[k]@ by {
            assert(parts@.map_values(|w: String| w@)[k] == parts@[k]@);
        }
        assert(ws.take(0) =~= Seq::<Seq<char>>::empty());
    }
    let mut out: Vec<u32> = Vec::new();
    let mut i: usize = 0;
    while i < parts.len()
        invariant
            ws == words(s@),
            ws.len() == parts@.len(),
            forall|k: int| 0 <= k < ws.len() ==> ws[k] == #[trigger] parts@[k]@,
            i <= parts@.len(),
            word_numbers(ws.take(i as int), numbers_view(*numbers)) == Some(out@),
        decreases parts@.len() - i,
    {
        proof {
            assert(ws.take(i + 1).drop_last() =~= ws.take(i as int));
            assert(ws.take(i + 1).last() == parts@[i as int]@);
        }
        match numbers.standard(parts[i].as_str()) {
            Some(b) => out.push(b),
            None => {
                proof {
                    lemma_word_numbers_none(ws, numbers_view(*numbers), i + 1);
                }
                return None;
            },
        }
        i = i + 1;
    }
    proof {
        assert(ws.take(i as int) =~= ws);
    }
    Some(out)
}

/// The `u32`s of the words of a text, read by `str::parse`.
pub fn parse_word_u32s(s: &str) -> (r: Option<Vec<u32>>)
    ensures
        match word_u32s(words(s@)) {
            Some(v) => r matches Some(x) && x@ == v,
            None => r is None,
        },
{
    let parts = split_words(s);
    let ghost ws = words(s@);
    proof {
        assert forall|k: int| 0 <= k < ws.len() implies ws[k] == #[trigger] parts@[k]@ by {
            assert(parts@.map_values(|w: String| w@)[k] == parts@[k]@);
        }
        assert(ws.take(0) =~= Seq::<Seq<char>>::empty());
    }
    let mut out: Vec<u32> = Vec::new();
    let mut i: usize = 0;
    while i < parts.len()
        invariant
            ws == words(s@),
            ws.len() == parts@.len(),
            forall|k: int| 0 <= k < ws.len() ==> ws[k] == #[trigger] parts@[k]@,
            i <= parts@.len(),
            word_u32s(ws.take(i as int)) == Some(out@),
        decreases parts@.len() - i,
    {
        proof {
            assert(ws.take(i + 1).drop_last() =~= ws.take(i as int));
            assert(ws.take(i + 1).last() == parts@[i as int]@);
        }
        match parse_u32(parts[i].as_str()) {
            Some(b) => out.push(b),
            None => {
                proof {
                    lemma_word_u32s_none(ws, i + 1);
                }
                return None;
            },
        }
        i = i + 1;
    }
    proof {
        assert(ws.take(i as int) =~= ws);
    }
    Some(out)
}

/// What a `<base>` tag gives: its name and display color, both required.
pub open spec fn base_of(a: AttrsView) -> Result<(Seq<char>, Color), Seq<char>> {
    match attr_text(a, "name"@) {
        None => Err("base element missing 'name' attribute"@),
        Some(name) => match attr_text(a, "displaycolor"@) {
            None => Err("base element missing 'displaycolor' attribute"@),
            Some(hex) => match color_from_hex_spec(hex) {
                None => Err("Invalid color format: "@ + hex),
                Some(c) => Ok((name, c)),
            },
        },
    }
}

/// What a `<color>` tag gives: its color, required.
pub open spec fn color_of(a: AttrsView) -> Result<Color, Seq<char>> {
    match attr_text(a, "color"@) {
        None => Err("color element missing 'color' attribute"@),
        Some(hex) => match color_from_hex_spec(hex) {
            None => Err("Invalid color format: "@ + hex),
            Some(c) => Ok(c),
        },
    }
}

/// What a `<tex2coord>` tag gives: its coordinates, both required.
pub open spec fn tex_coord_of(a: AttrsView, t: NumbersView) -> Result<Texture2DCoord, Seq<char>> {
    match attr_text(a, "u"@) {
        None => Err("tex2coord missing u"@),
        Some(us) => match std_number(t, us) {
            None => Err("Invalid u value"@),
            Some(u) => match attr_text(a, "v"@) {
                None => Err("tex2coord missing v"@),
                Some(vs) => match std_number(t, vs) {
                    None => Err("Invalid v value"@),
                    Some(v) => Ok(Texture2DCoord { u, v }),
                },
            },
        },
    }
}

/// What a `<composite>` tag gives: the numbers of its `values`, required.
pub open spec fn composite_of(a: AttrsView, t: NumbersView) -> Result<Seq<u32>, Seq<char>> {
    match attr_text(a, "values"@) {
        None => Err("composite missing values"@),
        Some(s) => match word_numbers(words(s), t) {
            None => Err("Invalid composite value"@),
            Some(v) => Ok(v),
        },
    }
}

/// What a `<multi>` tag gives: the indices of its `pindices`, required.
pub open spec fn multi_of(a: AttrsView) -> Result<Seq<u32>, Seq<char>> {
    match attr_text(a, "pindices"@) {
        None => Err("multi missing pindices"@),
        Some(s) => match word_u32s(words(s)) {
            None => Err("Invalid pindex value"@),
            Some(v) => Ok(v),
        },
    }
}

/// Items read from the tags named `item` of an element that ends with `end`, from
/// position `pos` on, added to `acc`, and the position after its end.
pub open spec fn items_scan<T>(evs: Seq<EventView>, err: Option<Seq<char>>, pos: int, item: Seq<char>, end: Seq<char>, eof: Seq<char>, read: spec_fn(AttrsView) -> Result<T, Seq<char>>, acc: Seq<T>) -> Result<(Seq<T>, int), Seq<char>>
    decreases evs.len() - pos,
{
    if pos < 0 || pos >= evs.len() {
        Err(eof_message(err, eof))
    } else {
        match evs[pos] {
            EventView::End(n) => if n == end {
                Ok((acc, pos + 1))
            } else {
                items_scan(evs, err, pos + 1, item, end, eof, read, acc)
            },
            EventView::Start(g) => if g.0 == item {
                match read(g.1) {
                    Ok(v) => items_scan(evs, err, pos + 1, item, end, eof, read, acc.push(v)),
                    Err(m) => Err(m),
                }
            } else {
                items_scan(evs, err, pos + 1, item, end, eof, read, acc)
            },
            EventView::Empty(g) => if g.0 == item {
                match read(g.1) {
                    Ok(v) => items_scan(evs, err, pos + 1, item, end, eof, read, acc.push(v)),
                    Err(m) => Err(m),
                }
            } else {
                items_scan(evs, err, pos + 1, item, end, eof, read, acc)
            },
            EventView::Text(_) | EventView::CData(_) => items_scan(evs, err, pos + 1, item, end, eof, read, acc),
        }
    }
}

/// Base materials as values.
pub open spec fn bases_view(v: Seq<BaseMaterial>) -> Seq<(Seq<char>, Color)> {
    v.map_values(|b: BaseMaterial| (b.name@, b.display_color))
}

/// The base materials of a `<basematerials>` element.
pub open spec fn base_materials_scan(evs: Seq<EventView>, err: Option<Seq<char>>, pos: int) -> Result<(Seq<(Seq<char>, Color)>, int), Seq<char>> {
    items_scan(evs, err, pos, "base"@, "basematerials"@, "Unexpected EOF in basematerials"@, |a: AttrsView| base_of(a), Seq::empty())
}

/// The colors of a `<colorgroup>` element.
pub open spec fn colors_scan(evs: Seq<EventView>, err: Option<Seq<char>>, pos: int) -> Result<(Seq<Color>, int), Seq<char>> {
    items_scan(evs, err, pos, "color"@, "colorgroup"@, "Unexpected EOF in colorgroup"@, |a: AttrsView| color_of(a), Seq::empty())
}

/// The coordinates of a `<texture2dgroup>` element.
pub open spec fn tex_coords_scan(evs: Seq<EventView>, err: Option<Seq<char>>, pos: int, t: NumbersView) -> Result<(Seq<Texture2DCoord>, int), Seq<char>> {
    items_scan(evs, err, pos, "tex2coord"@, "texture2dgroup"@, "Unexpected EOF in texture2dgroup"@, |a: AttrsView| tex_coord_of(a, t), Seq::empty())
}

/// The composites of a `<compositematerials>` element.
pub open spec fn composites_scan(evs: Seq<EventView>, err: Option<Seq<char>>, pos: int, t: NumbersView) -> Result<(Seq<Seq<u32>>, int), Seq<char>> {
    items_scan(evs, err, pos, "composite"@, "compositematerials"@, "Unexpected EOF in compositematerials"@, |a: AttrsView| composite_of(a, t), Seq::empty())
}

/// The multis of a `<multiproperties>` element.
pub open spec fn multis_scan(evs: Seq<EventView>, err: Option<Seq<char>>, pos: int) -> Result<(Seq<Seq<u32>>, int), Seq<char>> {
    items_scan(evs, err, pos, "multi"@, "multiproperties"@, "Unexpected EOF in multiproperties"@, |a: AttrsView| multi_of(a), Seq::empty())
}

fn read_base(tag: &XmlTag) -> (r: Result<BaseMaterial, Lib3mfError>)
    ensures
        match base_of(attrs_view(tag.attrs@)) {
            Ok(v) => r matches Ok(b) && (b.name@, b.display_color) == v,
            Err(m) => r matches Err(Lib3mfError::Validation(x)) && x@ == m,
        },
{
    let name = match get_attribute(tag, "name") {
        Some(n) => n,
        None => return Err(Lib3mfError::Validation(String::from_str("base element missing 'name' attribute"))),
    };
    let hex = match get_attribute(tag, "displaycolor") {
        Some(h) => h,
        None => return Err(Lib3mfError::Validation(String::from_str("base element missing 'displaycolor' attribute"))),
    };
    match Color::from_hex(hex.as_str()) {
        Some(c) => Ok(BaseMaterial { name, display_color: c }),
        None => Err(Lib3mfError::Validation(String::from_str("Invalid color format: ").concat(hex.as_str()))),
    }
}

fn read_color(tag: &XmlTag) -> (r: Result<Color, Lib3mfError>)
    ensures
        match color_of(attrs_view(tag.attrs@)) {
            Ok(v) => r == Ok::<Color, Lib3mfError>(v),
            Err(m) => r matches Err(Lib3mfError::Validation(x)) && x@ == m,
        },
{
    let hex = match get_attribute(tag, "color") {
        Some(h) => h,
        None => return Err(Lib3mfError::Validation(String::from_str("color element missing 'color' attribute"))),
    };
    match Color::from_hex(hex.as_str()) {
        Some(c) => Ok(c),
        None => Err(Lib3mfError::Validation(String::from_str("Invalid color format: ").concat(hex.as_str()))),
    }
}

fn read_tex_coord(tag: &XmlTag, numbers: &NumberTable) -> (r: Result<Texture2DCoord, Lib3mfError>)
    ensures
        match tex_coord_of(attrs_view(tag.attrs@), numbers_view(*numbers)) {
            Ok(v) => r == Ok::<Texture2DCoord, Lib3mfError>(v),
            Err(m) => r matches Err(Lib3mfError::Validation(x)) && x@ == m,
        },
{
    let us = match get_attribute(tag, "u") {
        Some(s) => s,
        None => return Err(Lib3mfError::Validation(String::from_str("tex2coord missing u"))),
    };
    let u = match numbers.standard(us.as_str()) {
        Some(b) => b,
        None => return Err(Lib3mfError::Validation(String::from_str("Invalid u value"))),
    };
    let vs = match get_attribute(tag, "v") {
        Some(s) => s,
        None => return Err(Lib3mfError::Validation(String::from_str("tex2coord missing v"))),
    };
    let v = match numbers.standard(vs.as_str()) {
        Some(b) => b,
        None => return Err(Lib3mfError::Validation(String::from_str("Invalid v value"))),
    };
    Ok(Texture2DCoord { u, v })
}

fn read_composite(tag: &XmlTag, numbers: &NumberTable) -> (r: Result<Composite, Lib3mfError>)
    ensures
        match composite_of(attrs_view(tag.attrs@), numbers_view(*numbers)) {
            Ok(v) => r matches Ok(c) && c.values@ == v,
            Err(m) => r matches Err(Lib3mfError::Validation(x)) && x@ == m,
        },
{
    let s = match get_attribute(tag, "values") {
        Some(s) => s,
        None => return Err(Lib3mfError::Validation(String::from_str("composite missing values"))),
    };
    match parse_word_numbers(s.as_str(), numbers) {
        Some(values) => Ok(Composite { values }),
        None => Err(Lib3mfError::Validation(String::from_str("Invalid composite value"))),
    }
}

fn read_multi(tag: &XmlTag) -> (r: Result<Multi, Lib3mfError>)
    ensures
        match multi_of(attrs_view(tag.attrs@)) {
            Ok(v) => r matches Ok(c) && c.pindices@ == v,
            Err(m) => r matches Err(Lib3mfError::Validation(x)) && x@ == m,
        },
{
    let s = match get_attribute(tag, "pindices") {
        Some(s) => s,
        None => return Err(Lib3mfError::Validation(String::from_str("multi missing pindices"))),
    };
    match parse_word_u32s(s.as_str()) {
        Some(pindices) => Ok(Multi { pindices }),
        None => Err(Lib3mfError::Validation(String::from_str("Invalid pindex value"))),
    }
}

/// Reads the content of a `<basematerials>` element whose start tag was just read.
pub fn parse_base_materials(parser: &mut XmlParser, id: ResourceId) -> (r: Result<BaseMaterialsGroup, Lib3mfError>)
    requires
        old(parser).wf(),
    ensures
        moved_on(*old(parser), *final(parser)),
        r is Ok ==> old(parser).pos < final(parser).pos,
        match base_materials_scan(old(parser).events_of(), old(parser).error_of(), old(parser).pos as int) {
            Ok((v, p)) => r matches Ok(g) && g.id == id && bases_view(g.materials@) == v && final(parser).pos == p,
            Err(m) => r matches Err(Lib3mfError::Validation(x)) && x@ == m,
        },
{
    let ghost evs = parser.events_of();
    let ghost err = parser.error_of();
    let ghost start = parser.pos as int;
    let ghost read = |a: AttrsView| base_of(a);
    let mut materials: Vec<BaseMaterial> = Vec::new();
    proof {
        assert(bases_view(materials@) =~= Seq::<(Seq<char>, Color)>::empty());
    }
    loop
        invariant
            moved_on(*old(parser), *parser),
            start == old(parser).pos,
            evs == parser.events_of(),
            err == parser.error_of(),
            start <= parser.pos,
            read == (|a: AttrsView| base_of(a)),
            items_scan(evs, err, start, "base"@, "basematerials"@, "Unexpected EOF in basematerials"@, read, Seq::empty())
                == items_scan(evs, err, parser.pos as int, "base"@, "basematerials"@, "Unexpected EOF in basematerials"@, read, bases_view(materials@)),
        decreases evs.len() - parser.pos,
    {
        let ev = match parser.read_next_event() {
            Ok(Some(e)) => e,
            Ok(None) => return Err(eof_error(parser, "Unexpected EOF in basematerials")),
            Err(e) => return Err(e),
        };
        match ev {
            XmlEvent::End(n) => {
                if same_text(n.as_str(), "basematerials") {
                    return Ok(BaseMaterialsGroup { id, materials });
                }
            },
            XmlEvent::Start(g) | XmlEvent::Empty(g) => {
                if same_text(g.name.as_str(), "base") {
                    match read_base(&g) {
                        Ok(b) => {
                            let ghost before = materials@;
                            materials.push(b);
                            proof {
                                assert(bases_view(materials@) =~= bases_view(before).push((b.name@, b.display_color)));
                            }
                        },
                        Err(e) => return Err(e),
                    }
                }
            },
            XmlEvent::Text(_) | XmlEvent::CData(_) => {},
        }
    }
}

/// Reads the content of a `<colorgroup>` element whose start tag was just read.
pub fn parse_color_group(parser: &mut XmlParser, id: ResourceId) -> (r: Result<ColorGroup, Lib3mfError>)
    requires
        old(parser).wf(),
    ensures
        moved_on(*old(parser), *final(parser)),
        r is Ok ==> old(parser).pos < final(parser).pos,
        match colors_scan(old(parser).events_of(), old(parser).error_of(), old(parser).pos as int) {
            Ok((v, p)) => r matches Ok(g) && g.id == id && g.colors@ == v && final(parser).pos == p,
            Err(m) => r matches Err(Lib3mfError::Validation(x)) && x@ == m,
        },
{
    let ghost evs = parser.events_of();
    let ghost err = parser.error_of();
    let ghost start = parser.pos as int;
    let ghost read = |a: AttrsView| color_of(a);
    let mut colors: Vec<Color> = Vec::new();
    loop
        invariant
            moved_on(*old(parser), *parser),
            start == old(parser).pos,
            evs == parser.events_of(),
            err == parser.error_of(),
            start <= parser.pos,
            read == (|a: AttrsView| color_of(a)),
            items_scan(evs, err, start, "color"@, "colorgroup"@, "Unexpected EOF in colorgroup"@, read, Seq::empty())
                == items_scan(evs, err, parser.pos as int, "color"@, "colorgroup"@, "Unexpected EOF in colorgroup"@, read, colors@),
        decreases evs.len() - parser.pos,
    {
        let ev = match parser.read_next_event() {
            Ok(Some(e)) => e,
            Ok(None) => return Err(eof_error(parser, "Unexpected EOF in colorgroup")),
            Err(e) => return Err(e),
        };
        match ev {
            XmlEvent::End(n) => {
                if same_text(n.as_str(), "colorgroup") {
                    return Ok(ColorGroup { id, colors });
                }
            },
            XmlEvent::Start(g) | XmlEvent::Empty(g) => {
                if same_text(g.name.as_str(), "color") {
                    match read_color(&g) {
                        Ok(c) => colors.push(c),
                        Err(e) => return Err(e),
                    }
                }
            },
            XmlEvent::Text(_) | XmlEvent::CData(_) => {},
        }
    }
}

/// Reads the content of a `<texture2dgroup>` element whose start tag was just read.
pub fn parse_texture_2d_group(parser: &mut XmlParser, id: ResourceId, texture_id: ResourceId, numbers: &NumberTable) -> (r: Result<Texture2DGroup, Lib3mfError>)
    requires
        old(parser).wf(),
    ensures
        moved_on(*old(parser), *final(parser)),
        r is Ok ==> old(parser).pos < final(parser).pos,
        match tex_coords_scan(old(parser).events_of(), old(parser).error_of(), old(parser).pos as int, numbers_view(*numbers)) {
            Ok((v, p)) => r matches Ok(g) && g.id == id && g.texture_id == texture_id && g.coords@ == v && final(parser).pos == p,
            Err(m) => r matches Err(Lib3mfError::Validation(x)) && x@ == m,
        },
{
    let ghost evs = parser.events_of();
    let ghost err = parser.error_of();
    let ghost start = parser.pos as int;
    let ghost tv = numbers_view(*numbers);
    let ghost read = |a: AttrsView| tex_coord_of(a, tv);
    let mut coords: Vec<Texture2DCoord> = Vec::new();
    loop
        invariant
            moved_on(*old(parser), *parser),
            start == old(parser).pos,
            evs == parser.events_of(),
            err == parser.error_of(),
            tv == numbers_view(*numbers),
            start <= parser.pos,
            read == (|a: AttrsView| tex_coord_of(a, tv)),
            items_scan(evs, err, start, "tex2coord"@, "texture2dgroup"@, "Unexpected EOF in texture2dgroup"@, read, Seq::empty())
                == items_scan(evs, err, parser.pos as int, "tex2coord"@, "texture2dgroup"@, "Unexpected EOF in texture2dgroup"@, read, coords@),
        decreases evs.len() - parser.pos,
    {
        let ev = match parser.read_next_event() {
            Ok(Some(e)) => e,
            Ok(None) => return Err(eof_error(parser, "Unexpected EOF in texture2dgroup")),
            Err(e) => return Err(e),
        };
        match ev {
            XmlEvent::End(n) => {
                if same_text(n.as_str(), "texture2dgroup") {
                    return Ok(Texture2DGroup { id, texture_id, coords });
                }
            },
            XmlEvent::Start(g) | XmlEvent::Empty(g) => {
                if same_text(g.name.as_str(), "tex2coord") {
                    match read_tex_coord(&g, numbers) {
                        Ok(c) => coords.push(c),
                        Err(e) => return Err(e),
                    }
                }
            },
            XmlEvent::Text(_) | XmlEvent::CData(_) => {},
        }
    }
}

/// Composites as values.
pub open spec fn composites_view(v: Seq<Composite>) -> Seq<Seq<u32>> {
    v.map_values(|c: Composite| c.values@)
}

/// Multis as values.
pub open spec fn multis_view(v: Seq<Multi>) -> Seq<Seq<u32>> {
    v.map_values(|m: Multi| m.pindices@)
}

/// Reads the content of a `<compositematerials>` element whose start tag was just read.
pub fn parse_composite_materials(parser: &mut XmlParser, id: ResourceId, base_material_id: ResourceId, indices: Vec<u32>, numbers: &NumberTable) -> (r: Result<CompositeMaterials, Lib3mfError>)
    requires
        old(parser).wf(),
    ensures
        moved_on(*old(parser), *final(parser)),
        r is Ok ==> old(parser).pos < final(parser).pos,
        match composites_scan(old(parser).events_of(), old(parser).error_of(), old(parser).pos as int, numbers_view(*numbers)) {
            Ok((v, p)) => r matches Ok(g) && g.id == id && g.base_material_id == base_material_id && g.indices@ == indices@
                && composites_view(g.composites@) == v && final(parser).pos == p,
            Err(m) => r matches Err(Lib3mfError::Validation(x)) && x@ == m,
        },
{
    let ghost evs = parser.events_of();
    let ghost err = parser.error_of();
    let ghost start = parser.pos as int;
    let ghost tv = numbers_view(*numbers);
    let ghost read = |a: AttrsView| composite_of(a, tv);
    let mut composites: Vec<Composite> = Vec::new();
    proof {
        assert(composites_view(composites@) =~= Seq::<Seq<u32>>::empty());
    }
    loop
        invariant
            moved_on(*old(parser), *parser),
            start == old(parser).pos,
            evs == parser.events_of(),
            err == parser.error_of(),
            tv == numbers_view(*numbers),
            start <= parser.pos,
            read == (|a: AttrsView| composite_of(a, tv)),
            items_scan(evs, err, start, "composite"@, "compositematerials"@, "Unexpected EOF in compositematerials"@, read, Seq::empty())
                == items_scan(evs, err, parser.pos as int, "composite"@, "compositematerials"@, "Unexpected EOF in compositematerials"@, read, composites_view(composites@)),
        decreases evs.len() - parser.pos,
    {
        let ev = match parser.read_next_event() {
            Ok(Some(e)) => e,
            Ok(None) => return Err(eof_error(parser, "Unexpected EOF in compositematerials")),
            Err(e) => return Err(e),
        };
        match ev {
            XmlEvent::End(n) => {
                if same_text(n.as_str(), "compositematerials") {
                    return Ok(CompositeMaterials { id, base_material_id, indices, composites });
                }
            },
            XmlEvent::Start(g) | XmlEvent::Empty(g) => {
                if same_text(g.name.as_str(), "composite") {
                    match read_composite(&g, numbers) {
                        Ok(c) => {
                            let ghost before = composites@;
                            composites.push(c);
                            proof {
                                assert(composites_view(composites@) =~= composites_view(before).push(c.values@));
                            }
                        },
                        Err(e) => return Err(e),
                    }
                }
            },
            XmlEvent::Text(_) | XmlEvent::CData(_) => {},
        }
    }
}

/// Reads the content of a `<multiproperties>` element whose start tag was just read.
pub fn parse_multi_properties(parser: &mut XmlParser, id: ResourceId, pids: Vec<ResourceId>, blend_methods: Vec<BlendMethod>) -> (r: Result<MultiProperties, Lib3mfError>)
    requires
        old(parser).wf(),
    ensures
        moved_on(*old(parser), *final(parser)),
        r is Ok ==> old(parser).pos < final(parser).pos,
        match multis_scan(old(parser).events_of(), old(parser).error_of(), old(parser).pos as int) {
            Ok((v, p)) => r matches Ok(g) && g.id == id && g.pids@ == pids@ && g.blend_methods@ == blend_methods@
                && multis_view(g.multis@) == v && final(parser).pos == p,
            Err(m) => r matches Err(Lib3mfError::Validation(x)) && x@ == m,
        },
{
    let ghost evs = parser.events_of();
    let ghost err = parser.error_of();
    let ghost start = parser.pos as int;
    let ghost read = |a: AttrsView| multi_of(a);
    let mut multis: Vec<Multi> = Vec::new();
    proof {
        assert(multis_view(multis@) =~= Seq::<Seq<u32>>::empty());
    }
    loop
        invariant
            moved_on(*old(parser), *parser),
            start == old(parser).pos,
            evs == parser.events_of(),
            err == parser.error_of(),
            start <= parser.pos,
            read == (|a: AttrsView| multi_of(a)),
            items_scan(evs, err, start, "multi"@, "multiproperties"@, "Unexpected EOF in multiproperties"@, read, Seq::empty())
                == items_scan(evs, err, parser.pos as int, "multi"@, "multiproperties"@, "Unexpected EOF in multiproperties"@, read, multis_view(multis@)),
        decreases evs.len() - parser.pos,
    {
        let ev = match parser.read_next_event() {
            Ok(Some(e)) => e,
            Ok(None) => return Err(eof_error(parser, "Unexpected EOF in multiproperties")),
            Err(e) => return Err(e),
        };
        match ev {
            XmlEvent::End(n) => {
                if same_text(n.as_str(), "multiproperties") {
                    return Ok(MultiProperties { id, pids, blend_methods, multis });
                }
            },
            XmlEvent::Start(g) | XmlEvent::Empty(g) => {
                if same_text(g.name.as_str(), "multi") {
                    match read_multi(&g) {
                        Ok(m) => {
                            let ghost before = multis@;
                            multis.push(m);
                            proof {
                                assert(multis_view(multis@) =~= multis_view(before).push(m.pindices@));
                            }
                        },
                        Err(e) => return Err(e),
                    }
                }
            },
            XmlEvent::Text(_) | XmlEvent::CData(_) => {},
        }
    }
}

} // verus!
