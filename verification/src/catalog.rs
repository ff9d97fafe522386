//! Finding models of the catalogue by name.

use vstd::prelude::*;
use crate::model::Model;
use crate::text::{contains_text, has_substring, lowercase, to_lowercase};

verus! {

/// Whether `m` matches a user's query: its file name or its category,
/// lowercased, contains the lowercased query.
pub open spec fn matches_name(m: Model, query: Seq<char>) -> bool {
    has_substring(lowercase(m.filename@), lowercase(query)) || has_substring(
        lowercase(m.category@),
        lowercase(query),
    )
}

/// The matching models among the first `n`, with their positions, in
/// catalogue order.
pub open spec fn name_matches(models: Seq<Model>, query: Seq<char>, n: int) -> Seq<(usize, Model)>
    decreases n,
{
    if n <= 0 {
        Seq::empty()
    } else if matches_name(models[n - 1], query) {
        name_matches(models, query, n - 1).push(((n - 1) as usize, models[n - 1]))
    } else {
        name_matches(models, query, n - 1)
    }
}

/// The models whose file name or category contains `name`, ignoring case,
/// with their positions in the catalogue.
pub fn find_models(models: &Vec<Model>, name: &str) -> (r: Vec<(usize, Model)>)
    ensures
        r@ == name_matches(models@, name@, models@.len() as int),
{
    let q = to_lowercase(name);
    let mut r: Vec<(usize, Model)> = Vec::new();
    let mut i: usize = 0;
    while i < models.len()
        invariant
            i <= models.len(),
            q@ == lowercase(name@),
            r@ == name_matches(models@, name@, i as int),
        decreases models.len() - i,
    {
        let m = &models[i];
        let f = to_lowercase(m.filename.as_str());
        let c = to_lowercase(m.category.as_str());
        if contains_text(f.as_str(), q.as_str()) || contains_text(c.as_str(), q.as_str()) {
            r.push((i, m.clone()));
        }
        i = i + 1;
    }
    r
}

/// What a download by name found.
pub enum MatchPick {
    /// No model matches.
    NoMatch,
    /// Exactly this model matches, at this position.
    One { index: usize, model: Model },
    /// Several models match; the download is refused and they are listed.
    Several { matches: Vec<(usize, Model)> },
}

/// Decides a download by name from the models that matched (`find_models`):
/// none, exactly one (which is downloaded), or several (which are listed).
pub fn pick_match(matches: Vec<(usize, Model)>) -> (r: MatchPick)
    ensures
        matches@.len() == 0 ==> r is NoMatch,
        matches@.len() == 1 ==> (r matches MatchPick::One { index, model } && (index, model)
            == matches@[0]),
        matches@.len() > 1 ==> (r matches MatchPick::Several { matches: m } && m@ == matches@),
{
    let n = matches.len();
    if n == 0 {
        MatchPick::NoMatch
    } else if n == 1 {
        let mut m = matches;
        let (index, model) = m.remove(0);
        MatchPick::One { index, model }
    } else {
        MatchPick::Several { matches }
    }
}

} // verus!
