use vstd::prelude::*;
use crate::raster::{Raster, RasterModel};
use crate::stitcher::{
    composite_model, grid_rows, lemma_composite_model_eq, models_of, stitch_grid,
};
use crate::tile::{check_tile, decoded_of, is_invalid_dimensions, is_invalid_payload, payload_valid};
use crate::encoder::{base64_of, encode_output, png_of, png_ok, MAX_PNG_LEN};
use vstd::arithmetic::div_mod::{lemma_div_basics_3, lemma_div_is_ordered};
use crate::TileError;

verus! {

/// Every retrieval succeeded.
pub open spec fn all_fetched(outcomes: Seq<Result<Vec<u8>, String>>) -> bool {
    forall|i: int| 0 <= i < outcomes.len() ==> (#[trigger] outcomes[i]) is Ok
}

/// The decoded tiles, in input order, of a batch whose payloads all decode.
pub open spec fn tile_models(outcomes: Seq<Result<Vec<u8>, String>>) -> Seq<RasterModel> {
    Seq::new(outcomes.len(), |i: int| decoded_of(outcomes[i]->Ok_0@)->Some_0)
}

/// Every payload was fetched, none matches the placeholder signature by
/// byte length, every one decodes, no decoded tile matches the placeholder
/// signature by dimensions, and every decoded tile is at least `tile_size`
/// pixels on each edge.
pub open spec fn all_tiles_valid(outcomes: Seq<Result<Vec<u8>, String>>, tile_size: int) -> bool {
    &&& all_fetched(outcomes)
    &&& forall|i: int|
        0 <= i < outcomes.len() ==> !is_invalid_payload((#[trigger] outcomes[i])->Ok_0@)
    &&& forall|i: int|
        0 <= i < outcomes.len() ==> decoded_of((#[trigger] outcomes[i])->Ok_0@) is Some
    &&& forall|i: int|
        0 <= i < outcomes.len() ==> !is_invalid_dimensions(#[trigger] tile_models(outcomes)[i])
    &&& forall|i: int|
        0 <= i < outcomes.len() ==> tile_size <= (#[trigger] tile_models(outcomes)[i]).width
            && tile_size <= tile_models(outcomes)[i].height
}

/// Run the whole computation of the pipeline on the retrieval outcomes:
/// validate and decode every payload, composite the tiles onto the grid,
/// and serialize the result as base64 PNG text.  Any single failing tile
/// aborts the whole batch; no partial composite is ever produced.  On a
/// fully valid, non-empty batch whose PNG stream stays within
/// `MAX_PNG_LEN`, the encoded composite is owed.
pub fn stitch_tiles(
    outcomes: &Vec<Result<Vec<u8>, String>>,
    tiles_per_row: u32,
    tile_size: u32,
) -> (r: Result<String, TileError>)
    requires
        tiles_per_row >= 1,
        tile_size >= 1,
        outcomes@.len() <= u32::MAX,
        tile_size * tiles_per_row <= u32::MAX,
        tile_size * grid_rows(outcomes@.len() as int, tiles_per_row as int) <= u32::MAX,
        4 * (tile_size * tiles_per_row) * (tile_size * grid_rows(
            outcomes@.len() as int,
            tiles_per_row as int,
        )) <= usize::MAX,
    ensures
        r matches Ok(s) ==> all_tiles_valid(outcomes@, tile_size as int) && s@ == base64_of(
            png_of(
                composite_model(tile_models(outcomes@), tiles_per_row as int, tile_size as int),
            ),
        ),
        r matches Err(e) ==> {
            &&& e is Transport ==> exists|i: int|
                0 <= i < outcomes@.len() && (#[trigger] outcomes@[i]) is Err
            &&& e is InvalidTile ==> exists|i: int|
                0 <= i < outcomes@.len() && (#[trigger] outcomes@[i]) is Ok && (is_invalid_payload(
                    outcomes@[i]->Ok_0@,
                ) || (decoded_of(outcomes@[i]->Ok_0@) is Some && is_invalid_dimensions(
                    decoded_of(outcomes@[i]->Ok_0@)->Some_0,
                )))
            &&& e is Decode ==> exists|i: int|
                0 <= i < outcomes@.len() && (#[trigger] outcomes@[i]) is Ok && !is_invalid_payload(
                    outcomes@[i]->Ok_0@,
                ) && decoded_of(outcomes@[i]->Ok_0@) is None
            &&& e is Stitch ==> exists|i: int|
                0 <= i < outcomes@.len() && (#[trigger] outcomes@[i]) is Ok && decoded_of(
                    outcomes@[i]->Ok_0@,
                ) is Some && (decoded_of(outcomes@[i]->Ok_0@)->Some_0.width < tile_size
                    || decoded_of(outcomes@[i]->Ok_0@)->Some_0.height < tile_size)
            &&& e is Encode ==> all_tiles_valid(outcomes@, tile_size as int)
        },
        all_tiles_valid(outcomes@, tile_size as int) ==> (r is Ok || (r matches Err(e)
            && e is Encode)),
        all_tiles_valid(outcomes@, tile_size as int) && png_ok(
            composite_model(tile_models(outcomes@), tiles_per_row as int, tile_size as int),
        ) && png_of(
            composite_model(tile_models(outcomes@), tiles_per_row as int, tile_size as int),
        ).len() <= MAX_PNG_LEN ==> r is Ok,
        all_tiles_valid(outcomes@, tile_size as int) && outcomes@.len() >= 1 && png_of(
            composite_model(tile_models(outcomes@), tiles_per_row as int, tile_size as int),
        ).len() <= MAX_PNG_LEN ==> r is Ok,
        ((exists|i: int| 0 <= i < outcomes@.len() && (#[trigger] outcomes@[i]) is Err) && (forall|
            i: int,
        |
            0 <= i < outcomes@.len() && (#[trigger] outcomes@[i]) is Ok ==> payload_valid(
                outcomes@[i]->Ok_0@,
            ))) ==> (r matches Err(e) && e is Transport),
        (exists|i: int| 0 <= i < outcomes@.len() && (#[trigger] outcomes@[i]) is Err) ==> r is Err,
        (exists|i: int|
            0 <= i < outcomes@.len() && (#[trigger] outcomes@[i]) is Ok && is_invalid_payload(
                outcomes@[i]->Ok_0@,
            )) ==> r is Err,
        (exists|i: int|
            0 <= i < outcomes@.len() && (#[trigger] outcomes@[i]) is Ok && decoded_of(
                outcomes@[i]->Ok_0@,
            ) is Some && is_invalid_dimensions(decoded_of(outcomes@[i]->Ok_0@)->Some_0)) ==> r
            is Err,
{
    let n = outcomes.len();
    let mut tiles: Vec<Raster> = Vec::new();
    let mut i: usize = 0;
    while i < n
        invariant
            n == outcomes@.len(),
            i <= n,
            tiles@.len() == i,
            forall|j: int| 0 <= j < i ==> (#[trigger] outcomes@[j]) is Ok,
            forall|j: int|
                0 <= j < i ==> !is_invalid_payload((#[trigger] outcomes@[j])->Ok_0@),
            forall|j: int|
                0 <= j < i ==> decoded_of((#[trigger] outcomes@[j])->Ok_0@) is Some,
            forall|j: int|
                0 <= j < i ==> (#[trigger] tiles@[j])@ == decoded_of(outcomes@[j]->Ok_0@)->Some_0,
            forall|j: int| 0 <= j < i ==> (#[trigger] tiles@[j]).wf(),
            forall|j: int| 0 <= j < i ==> !is_invalid_dimensions((#[trigger] tiles@[j])@),
        decreases n - i,
    {
        match &outcomes[i] {
            Err(m) => {
                proof {
                    assert(0 <= i < outcomes@.len() && outcomes@[i as int] is Err);
                }
                return Err(TileError::Transport(m.clone()));
            },
            Ok(body) => {
                match check_tile(body) {
                    Err(e) => {
                        proof {
                            let bts = outcomes@[i as int]->Ok_0@;
                            if is_invalid_payload(bts) {
                                assert(e is InvalidTile);
                            } else if decoded_of(bts) is None {
                                assert(e is Decode);
                            } else {
                                assert(is_invalid_dimensions(decoded_of(bts)->Some_0));
                                assert(e is InvalidTile);
                                assert(tile_models(outcomes@)[i as int] == decoded_of(
                                    bts,
                                )->Some_0);
                            }
                            assert(!payload_valid(bts));
                        }
                        return Err(e);
                    },
                    Ok(img) => {
                        tiles.push(img);
                    },
                }
            },
        }
        i = i + 1;
    }
    proof {
        assert(models_of(tiles@) =~= tile_models(outcomes@));
    }
    match stitch_grid(&tiles, tiles_per_row, tile_size) {
        Err(e) => {
            proof {
                let k = choose|k: int|
                    0 <= k < tiles@.len() && ((#[trigger] tiles@[k])@.width < tile_size
                        || tiles@[k]@.height < tile_size);
                assert(outcomes@[k] is Ok && decoded_of(outcomes@[k]->Ok_0@) is Some);
                assert(tile_models(outcomes@)[k] == tiles@[k]@);
            }
            Err(e)
        },
        Ok(composite) => {
            proof {
                lemma_composite_model_eq(
                    composite@,
                    tile_models(outcomes@),
                    tiles_per_row as int,
                    tile_size as int,
                );
                assert forall|k: int| 0 <= k < outcomes@.len() implies decoded_of(
                    (#[trigger] outcomes@[k])->Ok_0@,
                )->Some_0 == tile_models(outcomes@)[k] by {};
                // a non-empty batch gives the composite positive dimensions
                assert(outcomes@.len() >= 1 ==> composite@.width >= 1 && composite@.height
                    >= 1) by {
                    if outcomes@.len() >= 1 {
                        let tpr = tiles_per_row as int;
                        let ghost rows = grid_rows(outcomes@.len() as int, tpr);
                        lemma_div_is_ordered(tpr, outcomes@.len() + tpr - 1, tpr);
                        lemma_div_basics_3(tpr);
                        assert(rows >= 1);
                        assert((tile_size as int) * tpr >= 1 && (tile_size as int) * rows
                            >= 1) by (nonlinear_arith)
                            requires
                                tile_size >= 1,
                                tpr >= 1,
                                rows >= 1,
                        ;
                    }
                };
            }
            encode_output(&composite)
        },
    }
}

} // verus!
