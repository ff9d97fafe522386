//! The catalogue entry of one downloadable model.

use vstd::prelude::*;

verus! {

/// One model of the catalogue: where it goes, where it comes from, and how
/// large it is expected to be (0 when unknown).
pub struct Model {
    pub category: String,
    pub filename: String,
    pub url: String,
    pub size_bytes: u64,
    pub sha256: Option<String>,
    pub group: String,
    pub notes: String,
}

impl Clone for Model {
    fn clone(&self) -> (r: Self)
        ensures
            r == *self,
    {
        let sha256 = match &self.sha256 {
            Some(h) => Some(h.clone()),
            None => None,
        };
        Model {
            category: self.category.clone(),
            filename: self.filename.clone(),
            url: self.url.clone(),
            size_bytes: self.size_bytes,
            sha256,
            group: self.group.clone(),
            notes: self.notes.clone(),
        }
    }
}

} // verus!
