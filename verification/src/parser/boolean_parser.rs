//! Reading of boolean shapes (the Boolean Operations extension).

use vstd::prelude::*;
use crate::error::Lib3mfError;
use crate::model::mesh::{BooleanOperation, BooleanOperationType, BooleanShape, Transform};
use crate::model::resources::ResourceId;
use crate::parser::component_parser::{optional_transform, path_of, read_optional_transform, read_path};
use crate::parser::crypto_parser::{eof_error, moved_on};
use crate::parser::displacement_parser::has_local_name;
use crate::parser::xml_parser::{
    AttrsView, EventView, NumberTable, NumbersView, XmlEvent, XmlParser, XmlTag, attr_text, attr_u32, attrs_view,
    eof_message, get_attribute, get_attribute_u32, local_name, numbers_view, opt_view,
};
use crate::text::same_text;

verus! {

/// A boolean operation as values: kind, object, matrix entries, part path.
pub type OperationView = (BooleanOperationType, u32, Seq<u32>, Option<Seq<char>>);

/// A boolean operation as values.
pub open spec fn operation_view(o: BooleanOperation) -> OperationView {
    (o.operation_type, o.object_id.0, o.transform.m@, opt_view(o.path))
}

/// Boolean operations as values.
pub open spec fn operations_view(v: Seq<BooleanOperation>) -> Seq<OperationView> {
    v.map_values(|o: BooleanOperation| operation_view(o))
}

/// The kind of operation an `operation` attribute names; a union otherwise.
pub open spec fn operation_type_of(a: AttrsView) -> BooleanOperationType {
    match attr_text(a, "operation"@) {
        Some(s) => if s == "difference"@ {
            BooleanOperationType::Difference
        } else if s == "intersection"@ {
            BooleanOperationType::Intersection
        } else {
            BooleanOperationType::Union
        },
        None => BooleanOperationType::Union,
    }
}

/// What a `<boolean>` tag gives: its object (required), kind, transform and part path.
pub open spec fn operation_of(a: AttrsView, t: NumbersView) -> Result<OperationView, Seq<char>> {
    match attr_u32(a, "objectid"@) {
        Err(m) => Err(m),
        Ok(id) => match optional_transform(a, t) {
            Err(m) => Err(m),
            Ok(m) => Ok((operation_type_of(a), id, m, path_of(a))),
        },
    }
}

/// The operations of a `<booleanshape>` from position `pos` on, added to `ops`, and the
/// position after its end; elements are known by their local names.
pub open spec fn boolean_scan(evs: Seq<EventView>, err: Option<Seq<char>>, pos: int, t: NumbersView, ops: Seq<OperationView>) -> Result<(Seq<OperationView>, int), Seq<char>>
    decreases evs.len() - pos,
{
    if pos < 0 || pos >= evs.len() {
        Err(eof_message(err, "Unexpected EOF in booleanshape"@))
    } else {
        match evs[pos] {
            EventView::End(n) => if local_name(n) == "booleanshape"@ {
                Ok((ops, pos + 1))
            } else {
                boolean_scan(evs, err, pos + 1, t, ops)
            },
            EventView::Start(g) => if local_name(g.0) == "boolean"@ {
                match operation_of(g.1, t) {
                    Ok(o) => boolean_scan(evs, err, pos + 1, t, ops.push(o)),
                    Err(m) => Err(m),
                }
            } else {
                boolean_scan(evs, err, pos + 1, t, ops)
            },
            EventView::Empty(g) => if local_name(g.0) == "boolean"@ {
                match operation_of(g.1, t) {
                    Ok(o) => boolean_scan(evs, err, pos + 1, t, ops.push(o)),
                    Err(m) => Err(m),
                }
            } else {
                boolean_scan(evs, err, pos + 1, t, ops)
            },
            EventView::Text(_) | EventView::CData(_) => boolean_scan(evs, err, pos + 1, t, ops),
        }
    }
}

fn parse_boolean_operation(tag: &XmlTag, numbers: &NumberTable) -> (r: Result<BooleanOperation, Lib3mfError>)
    ensures
        match operation_of(attrs_view(tag.attrs@), numbers_view(*numbers)) {
            Ok(v) => r matches Ok(o) && operation_view(o) == v,
            Err(m) => r matches Err(Lib3mfError::Validation(x)) && x@ == m,
        },
{
    let object_id = match get_attribute_u32(tag, "objectid") {
        Ok(v) => v,
        Err(e) => return Err(e),
    };
    let operation_type = match get_attribute(tag, "operation") {
        Some(s) => if same_text(s.as_str(), "difference") {
            BooleanOperationType::Difference
        } else if same_text(s.as_str(), "intersection") {
            BooleanOperationType::Intersection
        } else {
            BooleanOperationType::Union
        },
        None => BooleanOperationType::Union,
    };
    let transform = match read_optional_transform(tag, numbers) {
        Ok(t) => t,
        Err(e) => return Err(e),
    };
    Ok(BooleanOperation { operation_type, object_id: ResourceId(object_id), transform, path: read_path(tag) })
}

/// Reads the content of a `<booleanshape>` element whose start tag was just read, with
/// the base object, transform and path of that tag given: its `<boolean>` operations.
pub fn parse_boolean_shape(parser: &mut XmlParser, base_object_id: ResourceId, base_transform: Transform, base_path: Option<String>, numbers: &NumberTable) -> (r: Result<BooleanShape, Lib3mfError>)
    requires
        old(parser).wf(),
    ensures
        moved_on(*old(parser), *final(parser)),
        r is Ok ==> old(parser).pos < final(parser).pos,
        match boolean_scan(old(parser).events_of(), old(parser).error_of(), old(parser).pos as int, numbers_view(*numbers), Seq::empty()) {
            Ok((ops, p)) => r matches Ok(b) && b.base_object_id == base_object_id && b.base_transform == base_transform
                && opt_view(b.base_path) == opt_view(base_path) && operations_view(b.operations@) == ops && final(parser).pos == p,
            Err(m) => r matches Err(Lib3mfError::Validation(x)) && x@ == m,
        },
{
    let ghost evs = parser.events_of();
    let ghost err = parser.error_of();
    let ghost start = parser.pos as int;
    let ghost tv = numbers_view(*numbers);
    let mut operations: Vec<BooleanOperation> = Vec::new();
    proof {
        assert(operations_view(operations@) =~= Seq::<OperationView>::empty());
    }
    loop
        invariant
            moved_on(*old(parser), *parser),
            start == old(parser).pos,
            evs == parser.events_of(),
            err == parser.error_of(),
            tv == numbers_view(*numbers),
            start <= parser.pos,
            boolean_scan(evs, err, start, tv, Seq::empty()) == boolean_scan(evs, err, parser.pos as int, tv, operations_view(operations@)),
        decreases evs.len() - parser.pos,
    {
        let ev = match parser.read_next_event() {
            Ok(Some(e)) => e,
            Ok(None) => return Err(eof_error(parser, "Unexpected EOF in booleanshape")),
            Err(e) => return Err(e),
        };
        match ev {
            XmlEvent::End(n) => {
                if has_local_name(&n, "booleanshape") {
                    return Ok(BooleanShape { base_object_id, base_transform, base_path, operations });
                }
            },
            XmlEvent::Start(g) | XmlEvent::Empty(g) => {
                if has_local_name(&g.name, "boolean") {
                    match parse_boolean_operation(&g, numbers) {
                        Ok(o) => {
                            let ghost before = operations@;
                            operations.push(o);
                            proof {
                                assert(operations_view(operations@) =~= operations_view(before).push(operation_view(o)));
                            }
                        },
                        Err(e) => return Err(e),
                    }
                }
            },
            XmlEvent::Text(_) | XmlEvent::CData(_) => {},
        }
    }
}

} // verus!
