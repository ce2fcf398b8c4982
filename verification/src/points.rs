//! The corner points of polylines and polygons: pairs of decimals, a comma between the two
//! of a pair and one space between pairs.

use vstd::prelude::*;
use vstd::string::StrSliceExecFns;
use crate::decimal::{is_decimal, Decimal};
use crate::error::{Failure, TiledError};
use crate::events::views;
use crate::text::chars_of;

verus! {

/// The first index in `from..end` at which `s` holds `mark`, or `end` if there is none.
pub open spec fn mark_at(s: Seq<char>, from: int, end: int, mark: char) -> int
    decreases end - from,
{
    if 0 <= from < end && from < s.len() && s[from] != mark {
        mark_at(s, from + 1, end, mark)
    } else {
        from
    }
}

/// The failure of a point that is not two values with a comma between them.
pub open spec fn not_a_pair() -> Failure {
    Failure::MalformedAttributes("one of a polyline's points does not have an x and y coordinate"@)
}

/// The failure of a point one of whose values is no decimal.
pub open spec fn not_numbers() -> Failure {
    Failure::MalformedAttributes("one of a polyline's points does not have numeric coordinates"@)
}

/// The point that `s` spells between `from` and `end`.
pub open spec fn point_in(s: Seq<char>, from: int, end: int) -> Result<(Seq<char>, Seq<char>), Failure> {
    let comma = mark_at(s, from, end, ',');
    let x = s.subrange(from, comma);
    let y = s.subrange(comma + 1, end);
    if comma >= end || mark_at(s, comma + 1, end, ',') < end {
        Err(not_a_pair())
    } else if is_decimal(x) && is_decimal(y) {
        Ok((x, y))
    } else {
        Err(not_numbers())
    }
}

/// The points that `s` spells from `from` on, behind those in `found`.
pub open spec fn points_from(s: Seq<char>, from: int, found: Seq<(Seq<char>, Seq<char>)>) -> Result<
    Seq<(Seq<char>, Seq<char>)>,
    Failure,
>
    decreases s.len() - from,
{
    let end = mark_at(s, from, s.len() as int, ' ');
    if from < 0 || from > s.len() {
        Err(not_a_pair())
    } else {
        match point_in(s, from, end) {
            Err(f) => Err(f),
            Ok(p) => if end >= s.len() {
                Ok(found.push(p))
            } else {
                proof {
                    lemma_mark_at(s, from, s.len() as int, ' ');
                }
                points_from(s, end + 1, found.push(p))
            },
        }
    }
}

/// The points that `s` spells. The first point that is amiss decides the failure.
pub open spec fn points_of(s: Seq<char>) -> Result<Seq<(Seq<char>, Seq<char>)>, Failure> {
    points_from(s, 0, Seq::empty())
}

/// A mark is found within the range that is searched.
pub proof fn lemma_mark_at(s: Seq<char>, from: int, end: int, mark: char)
    requires
        0 <= from <= end <= s.len(),
    ensures
        from <= mark_at(s, from, end, mark) <= end,
    decreases end - from,
{
    if from < end && s[from] != mark {
        lemma_mark_at(s, from + 1, end, mark);
    }
}

/// Finds `mark` in `from..end`.
fn find_mark(cs: &Vec<char>, from: usize, end: usize, mark: char) -> (at: usize)
    requires
        from <= end <= cs.len(),
    ensures
        from <= at <= end,
        at == mark_at(cs@, from as int, end as int, mark),
{
    let mut i: usize = from;
    while i < end && cs[i] != mark
        invariant
            from <= i <= end <= cs.len(),
            mark_at(cs@, from as int, end as int, mark) == mark_at(cs@, i as int, end as int, mark),
        decreases end - i,
    {
        i += 1;
    }
    i
}

/// What a list of points or an error stands for.
pub open spec fn points_view(r: Result<Vec<(Decimal, Decimal)>, TiledError>) -> Result<
    Seq<(Seq<char>, Seq<char>)>,
    Failure,
> {
    match r {
        Ok(points) => Ok(views(points@)),
        Err(e) => Err(e@),
    }
}

/// Reads the points that `text` spells.
pub fn parse_points(text: &str) -> (r: Result<Vec<(Decimal, Decimal)>, TiledError>)
    ensures
        points_view(r) == points_of(text@),
{
    let cs = chars_of(text);
    let mut points: Vec<(Decimal, Decimal)> = Vec::new();
    let mut from: usize = 0;
    assert(views(points@) =~= Seq::<(Seq<char>, Seq<char>)>::empty());
    loop
        invariant
            cs@ == text@,
            from <= cs.len(),
            points_of(text@) == points_from(text@, from as int, views(points@)),
        decreases cs.len() - from,
    {
        let end = find_mark(&cs, from, cs.len(), ' ');
        let comma = find_mark(&cs, from, end, ',');
        if comma >= end || find_mark(&cs, comma + 1, end, ',') < end {
            return Err(
                TiledError::malformed(
                    "one of a polyline's points does not have an x and y coordinate",
                ),
            );
        }
        let x = Decimal::parse(text.substring_char(from, comma));
        let y = Decimal::parse(text.substring_char(comma + 1, end));
        match (x, y) {
            (Some(x), Some(y)) => {
                let ghost before = views(points@);
                let ghost p = (x@, y@);
                points.push((x, y));
                assert(views(points@) =~= before.push(p));
            },
            _ => {
                return Err(
                    TiledError::malformed(
                        "one of a polyline's points does not have numeric coordinates",
                    ),
                );
            },
        }
        if end >= cs.len() {
            return Ok(points);
        }
        from = end + 1;
    }
}

} // verus!
