//! Updating an entity's fields from `key=value` texts.

use vstd::prelude::*;
use crate::cli::create::{keywords_ok, pairs_of, pairs_view, parse_field_pairs, parsed_pairs};
use crate::error::CortxError;
use crate::query::parser::{context_of_day, DateContext, DateContextV};
use crate::text::{str_equal, texts};
use crate::value::{local_today, Value};

verus! {

/// The arguments of `cortx update`.
#[derive(Debug)]
pub struct UpdateArgs {
    pub id: String,
    /// `key=value` pairs.
    pub updates: Vec<String>,
    /// Skip link-target existence validation (for bulk imports).
    pub no_validate_links: bool,
}

/// Whether one of the pairs sets the title.
pub open spec fn sets_title(pairs: Seq<(Seq<char>, Seq<char>)>) -> bool {
    exists|i: int| 0 <= i < pairs.len() && #[trigger] pairs[i].0 == "title"@
}

/// What reading the `key=value` texts of `cortx update` gives with the days
/// of `ctx`: `None` when a date keyword names a day that the context lacks;
/// otherwise the validation error for an update of the title, or the pairs
/// with their values read as command-line values.
pub open spec fn updates_outcome(
    r: Option<Result<Vec<(String, Value)>, CortxError>>,
    updates: Seq<String>,
    ctx: DateContextV,
) -> bool {
    let pairs = pairs_of(texts(updates));
    match r {
        None => !keywords_ok(pairs, ctx),
        Some(Err(e)) => keywords_ok(pairs, ctx) && sets_title(pairs) && (e matches CortxError::Validation(m)
            && m@ == "use 'cortx rename' to change an entity's title"@),
        Some(Ok(v)) => keywords_ok(pairs, ctx) && !sets_title(pairs) && pairs_view(v@) == parsed_pairs(
            pairs,
            ctx,
        ),
    }
}

/// The updates of `cortx update`: the `key=value` pairs, their values read
/// as command-line values with the days of `ctx`. The title cannot be set
/// this way (it is changed by renaming), which is a validation error.
/// `None` when a date keyword names a day that the context lacks.
pub fn parse_updates_with(updates: &Vec<String>, ctx: &DateContext) -> (r: Option<
    Result<Vec<(String, Value)>, CortxError>,
>)
    ensures
        updates_outcome(r, updates@, ctx@),
{
    let parsed = match parse_field_pairs(updates, ctx) {
        Some(p) => p,
        None => {
            return None;
        },
    };
    let ghost pairs = pairs_of(texts(updates@));
    let mut i: usize = 0;
    while i < parsed.len()
        invariant
            i <= parsed@.len(),
            pairs == pairs_of(texts(updates@)),
            keywords_ok(pairs, ctx@),
            pairs_view(parsed@) == parsed_pairs(pairs, ctx@),
            forall|k: int| 0 <= k < i ==> (#[trigger] pairs[k]).0 != "title"@,
        decreases parsed@.len() - i,
    {
        assert(pairs_view(parsed@).len() == parsed@.len());
        assert(parsed_pairs(pairs, ctx@).len() == pairs.len());
        assert(pairs_view(parsed@)[i as int] == (parsed@[i as int].0@, parsed@[i as int].1@));
        assert(parsed_pairs(pairs, ctx@)[i as int].0 == pairs[i as int].0);
        assert(parsed@[i as int].0@ == pairs[i as int].0);
        if str_equal(parsed[i].0.as_str(), "title") {
            return Some(
                Err(CortxError::Validation("use 'cortx rename' to change an entity's title".to_owned())),
            );
        }
        i += 1;
    }
    assert(!sets_title(pairs)) by {
        if sets_title(pairs) {
            let k = choose|k: int| 0 <= k < pairs.len() && #[trigger] pairs[k].0 == "title"@;
            assert(parsed_pairs(pairs, ctx@).len() == pairs.len());
            assert(pairs[k].0 != "title"@);
        }
    }
    Some(Ok(parsed))
}

/// The updates of `cortx update`, the date keywords read as the days around
/// today.
pub fn parse_updates(updates: &Vec<String>) -> (r: Option<Result<Vec<(String, Value)>, CortxError>>)
    ensures
        exists|ctx: DateContextV| context_of_day(ctx) && #[trigger] updates_outcome(r, updates@, ctx),
{
    let ctx = DateContext::of_day(local_today());
    assert(context_of_day(ctx@));
    let r = parse_updates_with(updates, &ctx);
    assert(updates_outcome(r, updates@, ctx@));
    r
}

} // verus!
