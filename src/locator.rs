//! Locating the player character with a battery of pose templates.

use vstd::prelude::*;

use crate::matcher::{find_patch, findable, patch_spec, Finder, MatchResult, Template};
use crate::pixels::PixelBuffer;

verus! {

/// The highest-scoring present candidate, the last one among equal scores;
/// `None` when no candidate is present.
pub open spec fn strongest_of(candidates: Seq<Option<MatchResult>>) -> Option<MatchResult>
    decreases candidates.len(),
{
    if candidates.len() == 0 {
        None
    } else {
        let rest = strongest_of(candidates.drop_last());
        match candidates.last() {
            None => rest,
            Some(m) => match rest {
                None => Some(m),
                Some(b) => if m.score >= b.score {
                    Some(m)
                } else {
                    Some(b)
                },
            },
        }
    }
}

/// Position of a match, if any.
pub open spec fn position_of(m: Option<MatchResult>) -> Option<(usize, usize)> {
    match m {
        Some(m) => Some((m.x, m.y)),
        None => None,
    }
}

/// The best placement of each template of the battery in `frame`.
pub open spec fn battery_results(finder: Finder, frame: PixelBuffer, battery: Seq<Template>) -> Seq<
    Option<MatchResult>,
> {
    battery.map_values(|t: Template| patch_spec(finder, frame, t))
}

/// Where `locate_king` finds the character.
pub open spec fn locate_spec(finder: Finder, frame: PixelBuffer, battery: Seq<Template>) -> Option<
    (usize, usize),
> {
    position_of(strongest_of(battery_results(finder, frame, battery)))
}

/// The strongest candidate is absent only when every candidate is.
pub proof fn lemma_strongest_present(candidates: Seq<Option<MatchResult>>)
    ensures
        strongest_of(candidates) is None <==> forall|i: int|
            0 <= i < candidates.len() ==> #[trigger] candidates[i] is None,
    decreases candidates.len(),
{
    if candidates.len() > 0 {
        let rest = candidates.drop_last();
        lemma_strongest_present(rest);
        if strongest_of(candidates) is None {
            assert forall|i: int| 0 <= i < candidates.len() implies #[trigger] candidates[i] is None by {
                if i < candidates.len() - 1 {
                    assert(rest[i] == candidates[i]);
                }
            }
        }
    }
}

/// Position of the highest-scoring present candidate (the last one among equal
/// scores); `None` when no candidate is present.
pub fn strongest(candidates: &Vec<Option<MatchResult>>) -> (r: Option<(usize, usize)>)
    ensures
        r == position_of(strongest_of(candidates@)),
        r is None <==> forall|i: int| 0 <= i < candidates@.len() ==> #[trigger] candidates@[i] is None,
{
    let mut best: Option<MatchResult> = None;
    let mut i: usize = 0;
    while i < candidates.len()
        invariant
            i <= candidates@.len(),
            best == strongest_of(candidates@.subrange(0, i as int)),
        decreases candidates@.len() - i,
    {
        let c = candidates[i];
        proof {
            let next = candidates@.subrange(0, i + 1);
            assert(next.drop_last() =~= candidates@.subrange(0, i as int));
            assert(next.last() == c);
        }
        best = match c {
            None => best,
            Some(m) => match best {
                None => Some(m),
                Some(b) => if m.score >= b.score {
                    Some(m)
                } else {
                    Some(b)
                },
            },
        };
        i = i + 1;
    }
    proof {
        assert(candidates@.subrange(0, i as int) =~= candidates@);
        lemma_strongest_present(candidates@);
    }
    match best {
        Some(m) => Some((m.x, m.y)),
        None => None,
    }
}

/// Searches every template of the battery in `frame` and returns the position
/// of the best-scoring hit over all of them, or `None` when none was found.
/// Where some template, or its mirror, matches exactly at a point the search
/// reaches, the character is found.
pub fn locate_king(finder: &Finder, frame: &PixelBuffer, battery: &Vec<Template>) -> (r: Option<
    (usize, usize),
>)
    requires
        finder.wf(),
        frame.wf(),
        forall|i: int| 0 <= i < battery@.len() ==> #[trigger] battery@[i].wf(),
    ensures
        r == locate_spec(*finder, *frame, battery@),
        battery@.len() == 0 ==> r is None,
        finder.positive_threshold() && (exists|k: int, x: int, y: int|
            0 <= k < battery@.len() && #[trigger] findable(*finder, *frame, battery@[k], x, y))
            ==> r is Some,
{
    let mut candidates: Vec<Option<MatchResult>> = Vec::new();
    let mut i: usize = 0;
    while i < battery.len()
        invariant
            finder.wf(),
            frame.wf(),
            forall|k: int| 0 <= k < battery@.len() ==> #[trigger] battery@[k].wf(),
            i <= battery@.len(),
            candidates@.len() == i,
            forall|k: int|
                0 <= k < i ==> #[trigger] candidates@[k] == patch_spec(*finder, *frame, battery@[k]),
            finder.positive_threshold() ==> forall|k: int, x: int, y: int|
                0 <= k < i && #[trigger] findable(*finder, *frame, battery@[k], x, y)
                    ==> candidates@[k] is Some,
        decreases battery@.len() - i,
    {
        let found = find_patch(finder, frame, &battery[i]);
        candidates.push(found);
        i = i + 1;
    }
    proof {
        assert(candidates@ =~= battery_results(*finder, *frame, battery@));
    }
    strongest(&candidates)
}

} // verus!
