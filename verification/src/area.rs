//! The three areas of the interactive screen — the SQL template input, the
//! value input and the result pane — with their titles, the cycling order
//! used when focus moves, and the lookup of the area under a point on the
//! screen.

use vstd::prelude::*;

verus! {

/// One of the three areas of the screen.
#[derive(PartialEq, Eq, Structural, Clone, Copy, Hash, Debug)]
pub enum AreaEnum {
    Sql,
    Value,
    Result,
}

/// The title shown over an area.
pub open spec fn title_spec(area: AreaEnum) -> Seq<char> {
    match area {
        AreaEnum::Sql => "Sql with placeholders"@,
        AreaEnum::Value => "Value"@,
        AreaEnum::Result => "Result"@,
    }
}

/// The area that receives focus after this one, cycling forward.
pub open spec fn next_spec(area: AreaEnum) -> AreaEnum {
    match area {
        AreaEnum::Sql => AreaEnum::Value,
        AreaEnum::Value => AreaEnum::Result,
        AreaEnum::Result => AreaEnum::Sql,
    }
}

/// The area that receives focus before this one, cycling backward.
pub open spec fn prev_spec(area: AreaEnum) -> AreaEnum {
    match area {
        AreaEnum::Sql => AreaEnum::Result,
        AreaEnum::Value => AreaEnum::Sql,
        AreaEnum::Result => AreaEnum::Value,
    }
}

impl AreaEnum {
    /// The title shown over this area.
    pub fn title(&self) -> (r: &str)
        ensures
            r@ == title_spec(*self),
    {
        match self {
            AreaEnum::Sql => "Sql with placeholders",
            AreaEnum::Value => "Value",
            AreaEnum::Result => "Result",
        }
    }

    /// The area after this one in the focus cycle.
    pub fn next_area(&self) -> (r: AreaEnum)
        ensures
            r == next_spec(*self),
    {
        match self {
            AreaEnum::Sql => AreaEnum::Value,
            AreaEnum::Value => AreaEnum::Result,
            AreaEnum::Result => AreaEnum::Sql,
        }
    }

    /// The area before this one in the focus cycle.
    pub fn prev_area(&self) -> (r: AreaEnum)
        ensures
            r == prev_spec(*self),
    {
        match self {
            AreaEnum::Sql => AreaEnum::Result,
            AreaEnum::Value => AreaEnum::Sql,
            AreaEnum::Result => AreaEnum::Value,
        }
    }
}

/// A rectangular part of the screen: its top-left corner and its extent.
#[derive(PartialEq, Eq, Structural, Clone, Copy, Debug)]
pub struct Region {
    pub x: u16,
    pub y: u16,
    pub width: u16,
    pub height: u16,
}

/// Whether the point `(x, y)` lies inside `r`.
pub open spec fn region_contains(r: Region, x: u16, y: u16) -> bool {
    &&& r.x <= x < r.x + r.width
    &&& r.y <= y < r.y + r.height
}

impl Region {
    /// Whether this region covers the point `(x, y)`.
    pub fn contains(&self, x: u16, y: u16) -> (b: bool)
        ensures
            b == region_contains(*self, x, y),
    {
        x >= self.x && (x - self.x) < self.width && y >= self.y && (y - self.y) < self.height
    }
}

/// The area under the point `(x, y)`: the first recorded area whose region
/// covers the point, or nothing when no region does.
pub fn get_area_by_coordinate(areas: &Vec<(AreaEnum, Region)>, x: u16, y: u16) -> (r: Option<
    AreaEnum,
>)
    ensures
        r is Some <==> exists|i: int|
            0 <= i < areas@.len() && region_contains(#[trigger] areas@[i].1, x, y),
        r matches Some(a) ==> exists|i: int|
            0 <= i < areas@.len() && region_contains(#[trigger] areas@[i].1, x, y) && areas@[i].0
                == a && forall|j: int| 0 <= j < i ==> !region_contains(areas@[j].1, x, y),
{
    let n = areas.len();
    let mut i: usize = 0;
    while i < n
        invariant
            i <= n,
            n == areas@.len(),
            forall|j: int| 0 <= j < i ==> !region_contains(#[trigger] areas@[j].1, x, y),
        decreases n - i,
    {
        if areas[i].1.contains(x, y) {
            return Some(areas[i].0);
        }
        i += 1;
    }
    None
}

} // verus!
