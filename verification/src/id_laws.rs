//! What ids come out as.

use vstd::prelude::*;

use crate::otap_ids::{IdDecoder, OtapIds, OtapParentIds};

verus! {

/// Ids that were decoded before come out as they were decoded.
pub proof fn lemma_decoded_ids<D: IdDecoder>(
    decoder: &D,
    known: Vec<Option<u16>>,
    ids: Seq<Option<u16>>,
)
    ensures
        (OtapIds { plain: false, encoded: None, decoded: Some(known) }).are(decoder, ids) == (ids
            == known@),
        (OtapParentIds {
            ids: OtapIds { plain: false, encoded: None, decoded: Some(known) },
        }).are(decoder, ids) == (ids == known@),
        (OtapIds { plain: false, encoded: None, decoded: Some(known) }).count() == known@.len(),
{
}

/// Ids that came plain come out as they came; others come out as the decoder of their kind makes them.
pub proof fn lemma_encoded_ids<D: IdDecoder>(
    decoder: &D,
    plain: bool,
    came: Vec<Option<u16>>,
    ids: Seq<Option<u16>>,
)
    ensures
        (OtapIds { plain, encoded: Some(came), decoded: None }).are(decoder, ids) == (if plain {
            ids == came@
        } else {
            exists|made: Vec<Option<u16>>| #[trigger]
                call_ensures(D::remove_delta_encoding, (decoder, &came), made) && ids == made@
        }),
        (OtapParentIds { ids: OtapIds { plain, encoded: Some(came), decoded: None } }).are(
            decoder,
            ids,
        ) == (if plain {
            ids == came@
        } else {
            exists|made: Vec<Option<u16>>| #[trigger]
                call_ensures(D::materialize_parent_ids, (decoder, &came), made) && ids == made@
        }),
        (OtapIds { plain, encoded: Some(came), decoded: None }).count() == came@.len(),
{
    let own = OtapIds { plain, encoded: Some(came), decoded: None };
    let parents = OtapParentIds { ids: own };
    if !plain {
        if own.are(decoder, ids) {
            let made = choose|made: Vec<Option<u16>>| #[trigger]
                crate::otap_ids::delta_removed(decoder, came, made) && ids == made@;
            assert(call_ensures(D::remove_delta_encoding, (decoder, &came), made));
        }
        if exists|made: Vec<Option<u16>>| #[trigger]
            call_ensures(D::remove_delta_encoding, (decoder, &came), made) && ids == made@ {
            let made = choose|made: Vec<Option<u16>>| #[trigger]
                call_ensures(D::remove_delta_encoding, (decoder, &came), made) && ids == made@;
            assert(crate::otap_ids::delta_removed(decoder, came, made));
        }
        if parents.are(decoder, ids) {
            let made = choose|made: Vec<Option<u16>>| #[trigger]
                crate::otap_ids::materialized(decoder, came, made) && ids == made@;
            assert(call_ensures(D::materialize_parent_ids, (decoder, &came), made));
        }
        if exists|made: Vec<Option<u16>>| #[trigger]
            call_ensures(D::materialize_parent_ids, (decoder, &came), made) && ids == made@ {
            let made = choose|made: Vec<Option<u16>>| #[trigger]
                call_ensures(D::materialize_parent_ids, (decoder, &came), made) && ids == made@;
            assert(crate::otap_ids::materialized(decoder, came, made));
        }
    }
}

}
