//! The manifest: a JSON document whose first view names the canvas extent
//! and lists the tile placements.

use crate::coords::{parse_placement, placement_of, EntryError};
use crate::geometry::{Geometry, GeometryDescriptor, TilePlacement};
use crate::json::{
    as_array, as_str, as_u64, error_column, error_line, is_object, json_of, json_text, member,
    read_json, Json,
};
use vstd::prelude::*;

verus! {

/// The members of a view that the reader asks for.
#[derive(Clone, Copy, Debug, PartialEq, Eq, Structural)]
pub enum ManifestField {
    Width,
    Height,
    Coords,
}

/// Why a manifest was refused.
#[derive(Clone, Copy, Debug, PartialEq, Eq, Structural)]
pub enum ParseError {
    /// The text is no JSON document; the position is where the reader
    /// stopped.
    InvalidJson { line: usize, column: usize },
    /// The document has no `views` array whose first element is an object.
    NoViews,
    /// The view lacks the member.
    MissingField(ManifestField),
    /// The member is of the wrong kind: a dimension that is not written as
    /// an integer from 0 to `u64::MAX`, or coordinates that are no array.
    MalformedField(ManifestField),
    /// The entry of `coords` at `index` denotes no placement.
    Entry { index: usize, error: EntryError },
}

/// The first view of a document: the first element of the array `views` of
/// the top-level object, where that element is an object.
pub open spec fn first_view(document: Json) -> Option<Map<Seq<char>, Json>> {
    match document {
        Json::Object(top) if top.contains_key("views"@) => match top["views"@] {
            Json::Array(views) if views.len() > 0 => match views[0] {
                Json::Object(view) => Some(view),
                _ => None,
            },
            _ => None,
        },
        _ => None,
    }
}

/// The dimension that a view states under `key`.
pub open spec fn dimension_of(view: Map<Seq<char>, Json>, key: Seq<char>, field: ManifestField) -> Result<
    u64,
    ParseError,
> {
    if !view.contains_key(key) {
        Err(ParseError::MissingField(field))
    } else {
        match view[key] {
            Json::Number(Some(n)) => Ok(n),
            _ => Err(ParseError::MalformedField(field)),
        }
    }
}

/// The entries of a view's `coords`.
pub open spec fn coords_of(view: Map<Seq<char>, Json>) -> Result<Seq<Json>, ParseError> {
    if !view.contains_key("coords"@) {
        Err(ParseError::MissingField(ManifestField::Coords))
    } else {
        match view["coords"@] {
            Json::Array(items) => Ok(items),
            _ => Err(ParseError::MalformedField(ManifestField::Coords)),
        }
    }
}

/// The placement that one entry of `coords` denotes.
pub open spec fn entry_of(item: Json) -> Result<TilePlacement, EntryError> {
    match item {
        Json::Text(text) => placement_of(text),
        _ => Err(EntryError::NotText),
    }
}

/// The placements that the entries denote, in their order; or the error of
/// the first entry that denotes none.
pub open spec fn placements_of(items: Seq<Json>) -> Result<Seq<TilePlacement>, ParseError>
    decreases items.len(),
{
    if items.len() == 0 {
        Ok(Seq::empty())
    } else {
        match placements_of(items.drop_last()) {
            Err(e) => Err(e),
            Ok(placements) => match entry_of(items.last()) {
                Ok(placement) => Ok(placements.push(placement)),
                Err(error) => Err(
                    ParseError::Entry { index: (items.len() - 1) as usize, error },
                ),
            },
        }
    }
}

/// The geometry that a document describes, or the first reason to refuse
/// it: the view, its width, its height, its coordinates, and then each entry
/// in turn.
pub open spec fn geometry_of(document: Json) -> Result<Geometry, ParseError> {
    match first_view(document) {
        None => Err(ParseError::NoViews),
        Some(view) => match dimension_of(view, "width"@, ManifestField::Width) {
            Err(e) => Err(e),
            Ok(width) => match dimension_of(view, "height"@, ManifestField::Height) {
                Err(e) => Err(e),
                Ok(height) => match coords_of(view) {
                    Err(e) => Err(e),
                    Ok(items) => match placements_of(items) {
                        Err(e) => Err(e),
                        Ok(placements) => Ok(
                            Geometry {
                                canvas_width: width as nat,
                                canvas_height: height as nat,
                                placements,
                            },
                        ),
                    },
                },
            },
        },
    }
}

/// Whether `outcome` is what `expected` asks for: the same error, or a
/// descriptor of the expected geometry.
pub open spec fn agrees(
    outcome: Result<GeometryDescriptor, ParseError>,
    expected: Result<Geometry, ParseError>,
) -> bool {
    match outcome {
        Ok(descriptor) => expected == Ok::<Geometry, ParseError>(descriptor@),
        Err(e) => expected == Err::<Geometry, ParseError>(e),
    }
}

/// Reads the dimension that the view states under `key`.
fn read_dimension(view: &serde_json::Value, key: &str, field: ManifestField) -> (dimension: Result<
    u64,
    ParseError,
>)
    requires
        json_of(*view) is Object,
    ensures
        dimension == dimension_of(json_of(*view)->Object_0, key@, field),
{
    match member(view, key) {
        None => Err(ParseError::MissingField(field)),
        Some(value) => match as_u64(value) {
            Some(n) => Ok(n),
            None => Err(ParseError::MalformedField(field)),
        },
    }
}

/// Reads the placements that the entries of `coords` denote.
fn read_placements(items: &Vec<serde_json::Value>) -> (placements: Result<
    Vec<TilePlacement>,
    ParseError,
>)
    ensures
        match placements {
            Ok(list) => placements_of(items@.map_values(|v: serde_json::Value| json_of(v)))
                == Ok::<Seq<TilePlacement>, ParseError>(list@),
            Err(e) => placements_of(items@.map_values(|v: serde_json::Value| json_of(v)))
                == Err::<Seq<TilePlacement>, ParseError>(e),
        },
{
    let ghost entries = items@.map_values(|v: serde_json::Value| json_of(v));
    let mut list: Vec<TilePlacement> = Vec::new();
    let mut i: usize = 0;
    assert(entries.take(0) =~= Seq::<Json>::empty());
    while i < items.len()
        invariant
            i <= items.len(),
            entries == items@.map_values(|v: serde_json::Value| json_of(v)),
            placements_of(entries.take(i as int)) == Ok::<Seq<TilePlacement>, ParseError>(list@),
        decreases items.len() - i,
    {
        let ghost seen = entries.take(i + 1);
        assert(seen.drop_last() =~= entries.take(i as int));
        assert(seen.last() == json_of(items@[i as int]));
        let read = match as_str(&items[i]) {
            Some(text) => parse_placement(text),
            None => Err(EntryError::NotText),
        };
        assert(read == entry_of(seen.last()));
        match read {
            Ok(placement) => {
                list.push(placement);
            },
            Err(error) => {
                proof {
                    lemma_refused_entry_refuses_all(entries, i as int);
                }
                return Err(ParseError::Entry { index: i, error });
            },
        }
        i = i + 1;
    }
    assert(entries.take(i as int) =~= entries);
    Ok(list)
}

/// Reads the geometry that a JSON document describes.
pub fn geometry_from_value(document: &serde_json::Value) -> (geometry: Result<
    GeometryDescriptor,
    ParseError,
>)
    ensures
        agrees(geometry, geometry_of(json_of(*document))),
{
    let views = match member(document, "views") {
        Some(views) => views,
        None => { return Err(ParseError::NoViews); },
    };
    let views = match as_array(views) {
        Some(views) => views,
        None => { return Err(ParseError::NoViews); },
    };
    if views.len() == 0 {
        return Err(ParseError::NoViews);
    }
    let view = &views[0];
    if !is_object(view) {
        return Err(ParseError::NoViews);
    }
    let canvas_width = match read_dimension(view, "width", ManifestField::Width) {
        Ok(n) => n,
        Err(e) => { return Err(e); },
    };
    let canvas_height = match read_dimension(view, "height", ManifestField::Height) {
        Ok(n) => n,
        Err(e) => { return Err(e); },
    };
    let items = match member(view, "coords") {
        Some(coords) => match as_array(coords) {
            Some(items) => items,
            None => { return Err(ParseError::MalformedField(ManifestField::Coords)); },
        },
        None => { return Err(ParseError::MissingField(ManifestField::Coords)); },
    };
    assert(items@.map_values(|v: serde_json::Value| json_of(v)) =~= coords_of(
        json_of(*view)->Object_0,
    )->Ok_0);
    let placements = match read_placements(items) {
        Ok(placements) => placements,
        Err(e) => { return Err(e); },
    };
    Ok(GeometryDescriptor { canvas_width, canvas_height, placements })
}

/// Reads a manifest from its JSON text.
///
/// A text that is no JSON document is refused with
/// [`ParseError::InvalidJson`]; of a document, the result is what
/// [`geometry_of`] says of it.
pub fn parse_json(json_str: &str) -> (geometry: Result<GeometryDescriptor, ParseError>)
    ensures
        match json_text(json_str@) {
            Some(document) => agrees(geometry, geometry_of(document)),
            None => geometry matches Err(ParseError::InvalidJson { .. }),
        },
{
    match read_json(json_str) {
        Ok(document) => geometry_from_value(&document),
        Err(error) => Err(
            ParseError::InvalidJson { line: error_line(&error), column: error_column(&error) },
        ),
    }
}

/// Once an entry is refused, so is every list of entries that holds it at
/// that position, and with the error of the first refused entry.
pub proof fn lemma_refused_entry_refuses_all(items: Seq<Json>, at: int)
    requires
        0 <= at < items.len(),
        placements_of(items.take(at)) is Ok,
        entry_of(items[at]) is Err,
    ensures
        placements_of(items) == Err::<Seq<TilePlacement>, ParseError>(
            ParseError::Entry { index: at as usize, error: entry_of(items[at])->Err_0 },
        ),
    decreases items.len(),
{
    if at == items.len() - 1 {
        assert(items.drop_last() =~= items.take(at));
    } else {
        assert(items.drop_last().take(at) =~= items.take(at));
        lemma_refused_entry_refuses_all(items.drop_last(), at);
    }
}

/// No entry is dropped: a list of entries one of which denotes no placement
/// is refused as a whole.
pub proof fn lemma_refused_entry_is_not_dropped(items: Seq<Json>, at: int)
    requires
        0 <= at < items.len(),
        entry_of(items[at]) is Err,
    ensures
        placements_of(items) is Err,
    decreases items.len(),
{
    if at < items.len() - 1 {
        assert(items.drop_last()[at] == items[at]);
        lemma_refused_entry_is_not_dropped(items.drop_last(), at);
        assert(placements_of(items.drop_last()) is Err);
    } else {
        assert(items.last() == items[at]);
    }
}

/// Strictness for the whole manifest: a document whose coordinates hold an
/// entry that denotes no placement describes no geometry.
pub proof fn lemma_refused_entry_refuses_manifest(document: Json, at: int)
    requires
        first_view(document) is Some,
        coords_of(first_view(document)->0) is Ok,
        0 <= at < coords_of(first_view(document)->0)->Ok_0.len(),
        entry_of(coords_of(first_view(document)->0)->Ok_0[at]) is Err,
    ensures
        geometry_of(document) is Err,
{
    lemma_refused_entry_is_not_dropped(coords_of(first_view(document)->0)->Ok_0, at);
}

/// Where a list of entries is accepted, each entry has its placement, at
/// its own position.
pub proof fn lemma_accepted_entries_are_kept(items: Seq<Json>)
    requires
        placements_of(items) is Ok,
    ensures
        placements_of(items)->Ok_0.len() == items.len(),
        forall|i: int|
            0 <= i < items.len() ==> entry_of(#[trigger] items[i]) == Ok::<
                TilePlacement,
                EntryError,
            >(placements_of(items)->Ok_0[i]),
    decreases items.len(),
{
    if items.len() > 0 {
        lemma_accepted_entries_are_kept(items.drop_last());
        let placements = placements_of(items)->Ok_0;
        assert forall|i: int| 0 <= i < items.len() implies entry_of(#[trigger] items[i]) == Ok::<
            TilePlacement,
            EntryError,
        >(placements[i]) by {
            if i < items.len() - 1 {
                assert(items[i] == items.drop_last()[i]);
            }
        }
    }
}

} // verus!
