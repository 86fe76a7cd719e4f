//! Preview tiles.

use vstd::prelude::*;
use vstd::string::*;
use crate::answer::{ApiError, Refusal};
use crate::text::{self, parse_u64};

verus! {

fn has_width(widths: &Vec<u32>, width: u32) -> (r: bool)
    ensures
        r == widths@.contains(width),
{
    let mut i: usize = 0;
    while i < widths.len()
        invariant
            i <= widths@.len(),
            forall|k: int| 0 <= k < i ==> #[trigger] widths@[k] != width,
        decreases widths@.len() - i,
    {
        if widths[i] == width {
            return true;
        }
        i += 1;
    }
    false
}

/// The number of the item that a tile is asked of: the width has to be one that
/// is made, tiles have to be made at all, and the id has to be a number.
pub fn tile_item(widths: &Vec<u32>, width: u32, enabled: bool, id: &str) -> (r: Result<
    u64,
    ApiError,
>)
    ensures
        match r {
            Ok(n) => widths@.contains(width) && enabled && text::parse_unsigned(
                id@,
                u64::MAX as int,
            ) == Some(n as int),
            Err(e) => if !widths@.contains(width) {
                e.says(Refusal::NotFound, "unknown trickplay width"@)
            } else if !enabled {
                e.says(Refusal::NotFound, "trickplay disabled"@)
            } else {
                text::parse_unsigned(id@, u64::MAX as int) is None && e.says(
                    Refusal::BadRequest,
                    "invalid id"@,
                )
            },
        },
{
    if !has_width(widths, width) {
        return Err(ApiError::NotFound("unknown trickplay width".to_owned()));
    }
    if !enabled {
        return Err(ApiError::NotFound("trickplay disabled".to_owned()));
    }
    match parse_u64(id) {
        Some(n) => Ok(n),
        None => Err(ApiError::BadRequest("invalid id".to_owned())),
    }
}

/// Whether an item has the tile that is asked for, given how many it has, if it
/// has any.
pub fn tile_in_layout(tiles: Option<u32>, index: u32) -> (r: Result<(), ApiError>)
    ensures
        r is Ok <==> tiles is Some && index < tiles->0,
        r matches Err(e) ==> e.says(
            Refusal::NotFound,
            if tiles is None {
                "no trickplay layout (missing probe data)"@
            } else {
                "tile index out of range"@
            },
        ),
{
    match tiles {
        Some(n) => if index < n {
            Ok(())
        } else {
            Err(ApiError::NotFound("tile index out of range".to_owned()))
        },
        None => Err(ApiError::NotFound("no trickplay layout (missing probe data)".to_owned())),
    }
}

/// Why a tile could not be read.
pub enum TileFailure {
    OutOfRange,
    UnknownDuration,
    Other(String),
}

/// What a client is told of a tile that could not be read.
pub fn map_cache_err(f: TileFailure) -> (r: ApiError)
    ensures
        match f {
            TileFailure::OutOfRange => r.says(Refusal::NotFound, "tile index out of range"@),
            TileFailure::UnknownDuration => r.says(Refusal::NotFound, "source duration unknown"@),
            TileFailure::Other(why) => r.says(Refusal::Internal, "trickplay: "@ + why@),
        },
{
    match f {
        TileFailure::OutOfRange => ApiError::NotFound("tile index out of range".to_owned()),
        TileFailure::UnknownDuration => ApiError::NotFound("source duration unknown".to_owned()),
        TileFailure::Other(why) => {
            let mut out: String = "trickplay: ".to_owned();
            out.append(why.as_str());
            ApiError::Internal(out)
        },
    }
}

/// The tile, or the news that it was not made yet.
pub fn tile<T>(found: Option<T>) -> (r: Result<T, ApiError>)
    ensures
        match found {
            Some(t) => r == Ok::<T, ApiError>(t),
            None => r matches Err(e) && e.says(
                Refusal::NotFound,
                "trickplay not generated yet"@,
            ),
        },
{
    match found {
        Some(t) => Ok(t),
        None => Err(ApiError::NotFound("trickplay not generated yet".to_owned())),
    }
}

} // verus!
