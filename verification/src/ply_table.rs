//! Reading the vertices of PLY files with `ply_rs_bw`.

use vstd::prelude::*;

use crate::error::CloudError;
use crate::names::names_of;

verus! {

#[verifier::external_type_specification]
#[verifier::external_body]
pub struct ExPlyError(ply_rs_bw::parser::ParseError);

#[verifier::external_type_specification]
#[verifier::external_body]
pub struct ExPlyProperty(ply_rs_bw::ply::Property);

/// Whether `ply_rs_bw` parses PLY bytes.
pub uninterp spec fn ply_parses(bytes: Seq<u8>) -> bool;

/// The property names of each element of kind `element` in PLY bytes, as
/// `ply_rs_bw` reads them; `None` when the file has no element of that kind.
pub uninterp spec fn ply_element_names(bytes: Seq<u8>, element: Seq<char>) -> Option<
    Seq<Seq<Seq<char>>>,
>;

/// The properties of each element of kind `element` in PLY bytes, in the
/// order of the header, as `ply_rs_bw` reads them; `None` when the file has
/// no element of that kind.
pub uninterp spec fn ply_element_values(bytes: Seq<u8>, element: Seq<char>) -> Option<
    Seq<Seq<ply_rs_bw::ply::Property>>,
>;

/// The properties of each element.
pub open spec fn values_of(elements: Seq<(Vec<String>, Vec<ply_rs_bw::ply::Property>)>) -> Seq<
    Seq<ply_rs_bw::ply::Property>,
> {
    elements.map_values(|e: (Vec<String>, Vec<ply_rs_bw::ply::Property>)| e.1@)
}

/// The property names of each element.
pub open spec fn keys_of(elements: Seq<(Vec<String>, Vec<ply_rs_bw::ply::Property>)>) -> Seq<
    Seq<Seq<char>>,
> {
    elements.map_values(|e: (Vec<String>, Vec<ply_rs_bw::ply::Property>)| names_of(e.0@))
}

/// Parses `buf` with `ply_rs_bw::parser::Parser::<DefaultElement>::read_ply`
/// and looks up the elements of kind `element` in its payload, each given as
/// its property names and, in the same order, its properties. Parsing depends
/// on the bytes alone and succeeds when `ply_parses(buf)`; then the names are `ply_element_names(buf, element)` and the
/// properties `ply_element_values(buf, element)`; since the
/// parser fills every element with all the properties that the header
/// declares for its kind, in the order of the header, all elements have the
/// same names.
#[verifier::external_body]
fn ply_elements(buf: &[u8], element: &str) -> (res: Result<
    Option<Vec<(Vec<String>, Vec<ply_rs_bw::ply::Property>)>>,
    ply_rs_bw::parser::ParseError,
>)
    ensures
        res is Ok <==> ply_parses(buf@),
        res matches Ok(found) ==> match found {
            Some(els) => ply_element_names(buf@, element@) == Some(keys_of(els@))
                && ply_element_values(buf@, element@) == Some(values_of(els@)),
            None => ply_element_names(buf@, element@) is None && ply_element_values(
                buf@,
                element@,
            ) is None,
        },
        res matches Ok(Some(els)) ==> forall|i: int|
            0 <= i < els.len() ==> (#[trigger] els@[i]).0.len() == els@[i].1.len(),
        res matches Ok(Some(els)) ==> forall|i: int|
            0 <= i < els.len() ==> names_of((#[trigger] els@[i]).0@) == names_of(els@[0].0@),
{
    let parser = ply_rs_bw::parser::Parser::<ply_rs_bw::ply::DefaultElement>::new();
    let ply = parser.read_ply(&mut std::io::Cursor::new(buf))?;
    Ok(ply.payload.get(element).map(|els| els.iter().map(|e| {
        (e.keys().cloned().collect(), e.values().cloned().collect())
    }).collect()))
}

/// The vertices of a PLY file.
pub struct PlyTable {
    /// The names of the properties of a vertex.
    pub field_names: Vec<String>,
    /// The properties of each vertex, in the order of the names.
    pub rows: Vec<Vec<ply_rs_bw::ply::Property>>,
}

/// The name of the kind of element that holds the points of a PLY file.
pub open spec fn vertex_name() -> Seq<char> {
    seq!['v', 'e', 'r', 't', 'e', 'x']
}

/// Reads the vertices of PLY bytes: their property names, from the first
/// vertex, and the properties of each vertex. It succeeds exactly when the
/// bytes parse and hold at least one vertex; a file that does not parse, one
/// without a `vertex` element and one with no vertex are each refused with
/// their own error.
pub fn read_ply_table(buf: &[u8]) -> (res: Result<PlyTable, CloudError>)
    ensures
        res matches Ok(t) ==> {
            &&& ply_element_names(buf@, vertex_name()) matches Some(names)
            &&& names.len() > 0
            &&& names_of(t.field_names@) == names[0]
            &&& t.rows.len() == names.len()
            &&& ply_element_values(buf@, vertex_name()) == Some(
                t.rows@.map_values(|r: Vec<ply_rs_bw::ply::Property>| r@),
            )
        },
        res matches Ok(t) ==> forall|i: int|
            0 <= i < t.rows.len() ==> (#[trigger] t.rows@[i]).len() == t.field_names.len(),
        res is Ok <==> (ply_parses(buf@) && (ply_element_names(buf@, vertex_name()) matches Some(
            names,
        ) && names.len() > 0)),
        res matches Err(CloudError::Ply(_)) <==> !ply_parses(buf@),
        res matches Err(CloudError::NoVertexElement) <==> (ply_parses(buf@) && ply_element_names(
            buf@,
            vertex_name(),
        ) is None),
        res matches Err(CloudError::NoPoints) <==> (ply_parses(buf@) && ply_element_names(
            buf@,
            vertex_name(),
        ) == Some(Seq::<Seq<Seq<char>>>::empty())),
        res matches Err(e) ==> (e is Ply || e is NoVertexElement || e is NoPoints),
{
    proof {
        reveal_strlit("vertex");
        assert("vertex"@ =~= vertex_name());
    }
    let mut elements = match ply_elements(buf, "vertex") {
        Ok(Some(els)) => els,
        Ok(None) => {
            return Err(CloudError::NoVertexElement);
        },
        Err(e) => {
            return Err(CloudError::Ply(e));
        },
    };
    let n = elements.len();
    if n == 0 {
        proof {
            assert(keys_of(elements@) =~= Seq::<Seq<Seq<char>>>::empty());
        }
        return Err(CloudError::NoPoints);
    }
    let ghost all = elements@;
    let field_names = elements[0].0.clone();
    proof {
        assert(names_of(field_names@) =~= names_of(all[0].0@));
        assert(keys_of(all)[0] == names_of(all[0].0@));
    }
    // Take the elements out from the last to the first, then restore their order.
    let mut reversed: Vec<Vec<ply_rs_bw::ply::Property>> = Vec::new();
    while elements.len() > 0
        invariant
            elements@ == all.take(n - reversed.len()),
            reversed.len() + elements.len() == n,
            n == all.len(),
            forall|i: int| 0 <= i < reversed.len() ==> (#[trigger] reversed@[i])@ == all[n - 1 - i].1@,
        decreases elements.len(),
    {
        let ghost before = elements@;
        match elements.pop() {
            Some((_, values)) => {
                reversed.push(values);
            },
            None => {},
        }
        proof {
            assert(elements@ =~= all.take(n - reversed.len()));
        }
    }
    let mut rows: Vec<Vec<ply_rs_bw::ply::Property>> = Vec::new();
    while reversed.len() > 0
        invariant
            rows.len() + reversed.len() == n,
            n == all.len(),
            forall|i: int| 0 <= i < reversed.len() ==> (#[trigger] reversed@[i])@ == all[n - 1 - i].1@,
            forall|i: int| 0 <= i < rows.len() ==> (#[trigger] rows@[i])@ == all[i].1@,
        decreases reversed.len(),
    {
        match reversed.pop() {
            Some(values) => {
                rows.push(values);
            },
            None => {},
        }
    }
    proof {
        assert(rows@.map_values(|r: Vec<ply_rs_bw::ply::Property>| r@) =~= values_of(all));
        assert forall|i: int| 0 <= i < rows.len() implies (#[trigger] rows@[i]).len()
            == field_names.len() by {
            assert(all[i].0.len() == all[i].1.len());
            assert(names_of(all[i].0@) == names_of(all[0].0@));
            assert(names_of(all[i].0@).len() == all[i].0@.len());
        }
    }
    Ok(PlyTable { field_names, rows })
}

} // verus!
