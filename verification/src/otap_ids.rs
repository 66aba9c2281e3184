//! The ids that records are known by, and those that attributes belong to.

use vstd::prelude::*;

use crate::nullable_column::copy_ids;

verus! {

/// How ids come out of their encoding.
pub trait IdDecoder {
    /// The ids of records that each hold the difference to the one before.
    fn remove_delta_encoding(&self, ids: &Vec<Option<u16>>) -> Vec<Option<u16>>;

    /// The ids that attributes belong to, where those of like attributes hold the difference to the
    /// one before.
    fn materialize_parent_ids(&self, ids: &Vec<Option<u16>>) -> Vec<Option<u16>>;
}

/// Ids as they came, as they are once decoded, or both.
pub struct OtapIds {
    /// Whether they came as they are.
    pub plain: bool,
    pub encoded: Option<Vec<Option<u16>>>,
    pub decoded: Option<Vec<Option<u16>>>,
}

/// Whether `ids` may be what comes out of the encoding.
pub open spec fn delta_removed<D: IdDecoder>(
    decoder: &D,
    encoded: Vec<Option<u16>>,
    ids: Vec<Option<u16>>,
) -> bool {
    call_ensures(D::remove_delta_encoding, (decoder, &encoded), ids)
}

/// Whether `ids` may be what comes out of the encoding.
pub open spec fn materialized<D: IdDecoder>(
    decoder: &D,
    encoded: Vec<Option<u16>>,
    ids: Vec<Option<u16>>,
) -> bool {
    call_ensures(D::materialize_parent_ids, (decoder, &encoded), ids)
}

impl OtapIds {
    /// Whether there are ids in some form.
    pub open spec fn wf(&self) -> bool {
        self.encoded is Some || self.decoded is Some
    }

    /// The number of ids.
    pub open spec fn count(&self) -> nat {
        match self.decoded {
            Some(ids) => ids@.len(),
            None => match self.encoded {
                Some(ids) => ids@.len(),
                None => 0,
            },
        }
    }

    /// Whether `ids` may be the ids: those that came if they are plain, else those that have been
    /// decoded, or are now.
    pub open spec fn are<D: IdDecoder>(&self, decoder: &D, ids: Seq<Option<u16>>) -> bool {
        if self.plain && self.encoded is Some {
            ids == self.encoded->0@
        } else if self.decoded is Some {
            ids == self.decoded->0@
        } else {
            exists|made: Vec<Option<u16>>| #[trigger]
                delta_removed(decoder, self.encoded->0, made) && ids == made@
        }
    }

    /// Ids as they came, plain or not.
    pub fn new(encoded_ids: Vec<Option<u16>>, plain: bool) -> (r: Self)
        ensures
            r.wf(),
            r == (OtapIds { plain, encoded: Some(encoded_ids), decoded: None }),
    {
        OtapIds { plain, encoded: Some(encoded_ids), decoded: None }
    }

    /// Ids that have been decoded.
    pub fn from_decoded(decoded_ids: Vec<Option<u16>>) -> (r: Self)
        ensures
            r.wf(),
            r == (OtapIds { plain: false, encoded: None, decoded: Some(decoded_ids) }),
    {
        OtapIds { plain: false, encoded: None, decoded: Some(decoded_ids) }
    }

    pub fn is_empty(&self) -> (r: bool)
        ensures
            r == (self.count() == 0),
    {
        self.len() == 0
    }

    /// The number of ids.
    pub fn len(&self) -> (r: usize)
        ensures
            r == self.count(),
    {
        match &self.decoded {
            Some(ids) => ids.len(),
            None => match &self.encoded {
                Some(ids) => ids.len(),
                None => 0,
            },
        }
    }

    /// The ids.
    pub fn get_ids<D: IdDecoder>(&self, decoder: &D) -> (ids: Vec<Option<u16>>)
        requires
            self.wf(),
        ensures
            self.are(decoder, ids@),
    {
        match &self.encoded {
            Some(encoded) => {
                if self.plain {
                    return copy_ids(encoded);
                }
                match &self.decoded {
                    Some(decoded) => copy_ids(decoded),
                    None => {
                        let made = decoder.remove_delta_encoding(encoded);
                        assert(delta_removed(decoder, self.encoded->0, made));
                        made
                    },
                }
            },
            None => match &self.decoded {
                Some(decoded) => copy_ids(decoded),
                None => Vec::new(),
            },
        }
    }

    /// The decoded ids, unless those that came are plain already.
    pub fn into_parts<D: IdDecoder>(self, decoder: &D) -> (r: Option<Vec<Option<u16>>>)
        requires
            self.wf(),
        ensures
            r is None == self.plain,
            r matches Some(ids) ==> self.are(decoder, ids@),
    {
        if self.plain {
            None
        } else {
            Some(self.get_ids(decoder))
        }
    }
}

/// The ids that attributes belong to, as they came, as they are once decoded, or both.
pub struct OtapParentIds {
    pub ids: OtapIds,
}

impl OtapParentIds {
    /// Whether there are ids in some form.
    pub open spec fn wf(&self) -> bool {
        self.ids.wf()
    }

    /// Whether `ids` may be the ids: those that came if they are plain, else those that have been
    /// decoded, or are now.
    pub open spec fn are<D: IdDecoder>(&self, decoder: &D, ids: Seq<Option<u16>>) -> bool {
        if self.ids.plain && self.ids.encoded is Some {
            ids == self.ids.encoded->0@
        } else if self.ids.decoded is Some {
            ids == self.ids.decoded->0@
        } else {
            exists|made: Vec<Option<u16>>| #[trigger]
                materialized(decoder, self.ids.encoded->0, made) && ids == made@
        }
    }

    /// Ids as they came, plain or not.
    pub fn new(encoded_ids: Vec<Option<u16>>, plain: bool) -> (r: Self)
        ensures
            r.wf(),
            r.ids == (OtapIds { plain, encoded: Some(encoded_ids), decoded: None }),
    {
        OtapParentIds { ids: OtapIds::new(encoded_ids, plain) }
    }

    /// Ids that have been decoded.
    pub fn from_decoded(decoded_ids: Vec<Option<u16>>) -> (r: Self)
        ensures
            r.wf(),
            r.ids == (OtapIds { plain: false, encoded: None, decoded: Some(decoded_ids) }),
    {
        OtapParentIds { ids: OtapIds::from_decoded(decoded_ids) }
    }

    pub fn is_empty(&self) -> (r: bool)
        ensures
            r == (self.ids.count() == 0),
    {
        self.ids.is_empty()
    }

    /// The number of ids.
    pub fn len(&self) -> (r: usize)
        ensures
            r == self.ids.count(),
    {
        self.ids.len()
    }

    /// The ids.
    pub fn get_ids<D: IdDecoder>(&self, decoder: &D) -> (ids: Vec<Option<u16>>)
        requires
            self.wf(),
        ensures
            self.are(decoder, ids@),
    {
        match &self.ids.encoded {
            Some(encoded) => {
                if self.ids.plain {
                    return copy_ids(encoded);
                }
                match &self.ids.decoded {
                    Some(decoded) => copy_ids(decoded),
                    None => {
                        let made = decoder.materialize_parent_ids(encoded);
                        assert(materialized(decoder, self.ids.encoded->0, made));
                        made
                    },
                }
            },
            None => match &self.ids.decoded {
                Some(decoded) => copy_ids(decoded),
                None => Vec::new(),
            },
        }
    }

    /// The decoded ids, unless those that came are plain already.
    pub fn into_parts<D: IdDecoder>(self, decoder: &D) -> (r: Option<Vec<Option<u16>>>)
        requires
            self.wf(),
        ensures
            r is None == self.ids.plain,
            r matches Some(ids) ==> self.are(decoder, ids@),
    {
        if self.ids.plain {
            None
        } else {
            Some(self.get_ids(decoder))
        }
    }
}

} // verus!
