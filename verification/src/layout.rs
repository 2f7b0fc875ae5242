//! Screen layout: a rect-based virtual coordinate space.
//!
//! Each screen is a rectangle (`origin_x`, `origin_y`, `width`,
//! `height`) in the global virtual space; the cursor is a single point,
//! and the active screen is whichever rectangle contains it.

use vstd::prelude::*;

use crate::arith::{
    clamp_i32, clamp_to, sat_i32, saturating_add_i32, u32_to_i32_or_max, u32_to_i32_saturating,
};
use crate::text::{copy_string, str_eq};

verus! {

/// Name of a screen; matches the `display_name` peers send in `Hello`.
pub type ScreenName = String;

/// A single screen's rectangle in the virtual coordinate space.
#[derive(Debug)]
pub struct ScreenEntry {
    /// Display name (must match the peer's `Hello.display_name`).
    pub name: ScreenName,
    /// X coordinate of the top-left corner in virtual space.
    pub origin_x: i32,
    /// Y coordinate of the top-left corner in virtual space.
    pub origin_y: i32,
    /// Width in pixels.
    pub width: u32,
    /// Height in pixels.
    pub height: u32,
}

/// Mathematical value of a [`ScreenEntry`].
#[verifier::ext_equal]
pub struct ScreenEntryView {
    pub name: Seq<char>,
    pub origin_x: i32,
    pub origin_y: i32,
    pub width: u32,
    pub height: u32,
}

impl View for ScreenEntry {
    type V = ScreenEntryView;

    open spec fn view(&self) -> ScreenEntryView {
        ScreenEntryView {
            name: self.name@,
            origin_x: self.origin_x,
            origin_y: self.origin_y,
            width: self.width,
            height: self.height,
        }
    }
}

/// Exclusive right edge of a screen (saturated).
pub open spec fn right_edge(e: ScreenEntryView) -> i32 {
    sat_i32(e.origin_x + u32_to_i32_or_max(e.width))
}

/// Exclusive bottom edge of a screen (saturated).
pub open spec fn bottom_edge(e: ScreenEntryView) -> i32 {
    sat_i32(e.origin_y + u32_to_i32_or_max(e.height))
}

/// Is `(vx, vy)` inside the half-open rectangle `[origin, origin + size)`?
pub open spec fn entry_contains(e: ScreenEntryView, vx: i32, vy: i32) -> bool {
    &&& vx >= e.origin_x
    &&& vx < right_edge(e)
    &&& vy >= e.origin_y
    &&& vy < bottom_edge(e)
}

/// Last column inside a screen (saturated).
pub open spec fn last_column(e: ScreenEntryView) -> i32 {
    sat_i32(e.origin_x + u32_to_i32_or_max(if e.width == 0 { 0 } else { (e.width - 1) as u32 }))
}

/// Last row inside a screen (saturated).
pub open spec fn last_row(e: ScreenEntryView) -> i32 {
    sat_i32(e.origin_y + u32_to_i32_or_max(if e.height == 0 { 0 } else { (e.height - 1) as u32 }))
}

/// The closest point to `(vx, vy)` inside the screen.
pub open spec fn entry_clamp(e: ScreenEntryView, vx: i32, vy: i32) -> (i32, i32) {
    (clamp_i32(vx, e.origin_x, last_column(e)), clamp_i32(vy, e.origin_y, last_row(e)))
}

impl ScreenEntry {
    /// Copy with the same value.
    pub fn duplicate(&self) -> (r: ScreenEntry)
        ensures
            r@ == self@,
    {
        ScreenEntry {
            name: copy_string(&self.name),
            origin_x: self.origin_x,
            origin_y: self.origin_y,
            width: self.width,
            height: self.height,
        }
    }

    /// Does `(vx, vy)` fall inside this screen's rectangle?
    ///
    /// The rectangle is half-open: `[origin, origin + size)`. A point
    /// exactly on the right/bottom edge belongs to the neighbouring
    /// screen if one exists, which keeps crossings from double-counting.
    pub fn contains(&self, vx: i32, vy: i32) -> (r: bool)
        ensures
            r == entry_contains(self@, vx, vy),
    {
        let max_x = saturating_add_i32(self.origin_x, u32_to_i32_saturating(self.width));
        let max_y = saturating_add_i32(self.origin_y, u32_to_i32_saturating(self.height));
        vx >= self.origin_x && vx < max_x && vy >= self.origin_y && vy < max_y
    }

    /// Clamp `(vx, vy)` to the closest point inside this screen.
    ///
    /// Used when a drag (held mouse button) tries to cross the edge.
    pub fn clamp(&self, vx: i32, vy: i32) -> (r: (i32, i32))
        ensures
            r == entry_clamp(self@, vx, vy),
    {
        let w1: u32 = if self.width == 0 { 0 } else { self.width - 1 };
        let h1: u32 = if self.height == 0 { 0 } else { self.height - 1 };
        let max_x = saturating_add_i32(self.origin_x, u32_to_i32_saturating(w1));
        let max_y = saturating_add_i32(self.origin_y, u32_to_i32_saturating(h1));
        (clamp_to(vx, self.origin_x, max_x), clamp_to(vy, self.origin_y, max_y))
    }
}

/// Errors parsing or validating a layout file.
#[derive(Debug)]
pub enum LayoutError {
    /// I/O error reading the layout file.
    Io {
        /// Path we tried to read.
        path: String,
        /// Description of the OS error.
        message: String,
    },
    /// TOML parse failure.
    Parse(String),
    /// `primary` names a screen that does not appear in the screen list.
    PrimaryNotInScreens {
        /// The primary name that is missing.
        primary: ScreenName,
    },
    /// A screen declared zero width or height.
    DegenerateScreen {
        /// The offending screen.
        name: ScreenName,
    },
    /// Two screens share the same name.
    DuplicateScreen {
        /// The duplicate name.
        name: ScreenName,
    },
}

/// Full layout: primary screen + all known screens.
#[derive(Debug)]
pub struct ScreenLayout {
    /// Name of the primary (server-side) screen.
    pub primary: ScreenName,
    /// All screens, including the primary.
    pub screens: Vec<ScreenEntry>,
}

/// Mathematical value of a [`ScreenLayout`].
#[verifier::ext_equal]
pub struct ScreenLayoutView {
    pub primary: Seq<char>,
    pub screens: Seq<ScreenEntryView>,
}

impl View for ScreenLayout {
    type V = ScreenLayoutView;

    open spec fn view(&self) -> ScreenLayoutView {
        ScreenLayoutView {
            primary: self.primary@,
            screens: self.screens@.map_values(|e: ScreenEntry| e@),
        }
    }
}

/// `i` is the first index of `s` whose screen contains `(vx, vy)`.
pub open spec fn first_at(s: Seq<ScreenEntryView>, vx: i32, vy: i32, i: int) -> bool {
    &&& 0 <= i < s.len()
    &&& entry_contains(s[i], vx, vy)
    &&& forall|j: int| 0 <= j < i ==> !entry_contains(#[trigger] s[j], vx, vy)
}

/// `i` is the first index of `s` whose screen is named `name`.
pub open spec fn first_named(s: Seq<ScreenEntryView>, name: Seq<char>, i: int) -> bool {
    &&& 0 <= i < s.len()
    &&& s[i].name == name
    &&& forall|j: int| 0 <= j < i ==> (#[trigger] s[j]).name != name
}

/// Some screen of `s` is named `name`.
pub open spec fn has_name(s: Seq<ScreenEntryView>, name: Seq<char>) -> bool {
    exists|i: int| 0 <= i < s.len() && (#[trigger] s[i]).name == name
}

/// The first screen named `name`, if any.
pub open spec fn named(l: ScreenLayoutView, name: Seq<char>) -> Option<ScreenEntryView> {
    if has_name(l.screens, name) {
        Some(l.screens[choose|i: int| first_named(l.screens, name, i)])
    } else {
        None
    }
}

/// The first screen containing `(vx, vy)`, if any.
pub open spec fn located(l: ScreenLayoutView, vx: i32, vy: i32) -> Option<ScreenEntryView> {
    if exists|i: int| first_at(l.screens, vx, vy, i) {
        Some(l.screens[choose|i: int| first_at(l.screens, vx, vy, i)])
    } else {
        None
    }
}

/// At most one index is the first of its name.
pub proof fn lemma_first_named_unique(s: Seq<ScreenEntryView>, name: Seq<char>, i: int, j: int)
    requires
        first_named(s, name, i),
        first_named(s, name, j),
    ensures
        i == j,
{
    if i < j {
        assert(s[i].name == name);
    } else if j < i {
        assert(s[j].name == name);
    }
}

/// At most one index is the first containing a point.
pub proof fn lemma_first_at_unique(s: Seq<ScreenEntryView>, vx: i32, vy: i32, i: int, j: int)
    requires
        first_at(s, vx, vy, i),
        first_at(s, vx, vy, j),
    ensures
        i == j,
{
    if i < j {
        assert(entry_contains(s[i], vx, vy));
    } else if j < i {
        assert(entry_contains(s[j], vx, vy));
    }
}

/// Has the screen zero width or height?
pub open spec fn degenerate(e: ScreenEntryView) -> bool {
    e.width == 0 || e.height == 0
}

/// `i` is the first degenerate screen of `s`.
pub open spec fn first_degenerate(s: Seq<ScreenEntryView>, i: int) -> bool {
    &&& 0 <= i < s.len()
    &&& degenerate(s[i])
    &&& forall|j: int| 0 <= j < i ==> !degenerate(#[trigger] s[j])
}

/// Does screen `i` share its name with a later screen?
pub open spec fn dup_later(s: Seq<ScreenEntryView>, i: int) -> bool {
    exists|j: int| i < j < s.len() && (#[trigger] s[j]).name == s[i].name
}

/// `i` is the first screen of `s` whose name occurs again later.
pub open spec fn first_dup(s: Seq<ScreenEntryView>, i: int) -> bool {
    &&& 0 <= i < s.len()
    &&& dup_later(s, i)
    &&& forall|j: int| 0 <= j < i ==> !dup_later(s, j)
}

/// All screen names are distinct.
pub open spec fn names_distinct(s: Seq<ScreenEntryView>) -> bool {
    forall|i: int, j: int| 0 <= i < j < s.len() ==> s[i].name != s[j].name
}

/// The layout invariants that `validate` checks.
pub open spec fn layout_valid(l: ScreenLayoutView) -> bool {
    &&& has_name(l.screens, l.primary)
    &&& forall|i: int| 0 <= i < l.screens.len() ==> !degenerate(#[trigger] l.screens[i])
    &&& names_distinct(l.screens)
}

/// What `validate` reports for a layout.
pub open spec fn validation_outcome(l: ScreenLayoutView, r: Result<(), LayoutError>) -> bool {
    match r {
        Ok(()) => layout_valid(l),
        Err(LayoutError::PrimaryNotInScreens { primary }) => {
            &&& !has_name(l.screens, l.primary)
            &&& primary@ == l.primary
        },
        Err(LayoutError::DegenerateScreen { name }) => {
            &&& has_name(l.screens, l.primary)
            &&& exists|i: int| first_degenerate(l.screens, i) && l.screens[i].name == name@
        },
        Err(LayoutError::DuplicateScreen { name }) => {
            &&& has_name(l.screens, l.primary)
            &&& forall|i: int| 0 <= i < l.screens.len() ==> !degenerate(#[trigger] l.screens[i])
            &&& exists|i: int| first_dup(l.screens, i) && l.screens[i].name == name@
        },
        _ => false,
    }
}

impl ScreenLayout {
    /// Build a degenerate layout containing only the primary, 1920x1080
    /// at the origin.
    pub fn single_primary(name: &str) -> (l: ScreenLayout)
        ensures
            l@.primary == name@,
            l@.screens.len() == 1,
            l@.screens[0] == (ScreenEntryView {
                name: name@,
                origin_x: 0,
                origin_y: 0,
                width: 1920,
                height: 1080,
            }),
    {
        let mut screens: Vec<ScreenEntry> = Vec::new();
        screens.push(
            ScreenEntry { name: name.to_owned(), origin_x: 0, origin_y: 0, width: 1920, height: 1080 },
        );
        let l = ScreenLayout { primary: name.to_owned(), screens };
        assert(l@.screens.len() == 1);
        l
    }

    /// Find the first screen whose rectangle contains `(vx, vy)`.
    pub fn screen_at(&self, vx: i32, vy: i32) -> (r: Option<&ScreenEntry>)
        ensures
            match r {
                Some(e) => located(self@, vx, vy) == Some(e@),
                None => located(self@, vx, vy) is None,
            },
            match r {
                Some(e) => exists|i: int| first_at(self@.screens, vx, vy, i) && e@ == self@.screens[i],
                None => forall|i: int|
                    0 <= i < self@.screens.len() ==> !entry_contains(
                        #[trigger] self@.screens[i],
                        vx,
                        vy,
                    ),
            },
    {
        let n = self.screens.len();
        let mut i: usize = 0;
        while i < n
            invariant
                n == self.screens.len(),
                i <= n,
                forall|j: int| 0 <= j < i ==> !entry_contains(#[trigger] self@.screens[j], vx, vy),
            decreases n - i,
        {
            if self.screens[i].contains(vx, vy) {
                assert(first_at(self@.screens, vx, vy, i as int));
                proof {
                    let k = choose|k: int| first_at(self@.screens, vx, vy, k);
                    lemma_first_at_unique(self@.screens, vx, vy, i as int, k);
                }
                return Some(&self.screens[i]);
            }
            i = i + 1;
        }
        assert forall|k: int| !first_at(self@.screens, vx, vy, k) by {
            if 0 <= k < self@.screens.len() {
                assert(!entry_contains(self@.screens[k], vx, vy));
            }
        }
        None
    }

    /// Index of the first screen named `name`.
    pub fn index_of(&self, name: &str) -> (r: Option<usize>)
        ensures
            match r {
                Some(i) => first_named(self@.screens, name@, i as int),
                None => !has_name(self@.screens, name@),
            },
    {
        let n = self.screens.len();
        let mut i: usize = 0;
        while i < n
            invariant
                n == self.screens.len(),
                i <= n,
                forall|j: int| 0 <= j < i ==> (#[trigger] self@.screens[j]).name != name@,
            decreases n - i,
        {
            if str_eq(self.screens[i].name.as_str(), name) {
                return Some(i);
            }
            i = i + 1;
        }
        None
    }

    /// Look up a screen by its display name (the first one of that name).
    pub fn screen_by_name(&self, name: &str) -> (r: Option<&ScreenEntry>)
        ensures
            match r {
                Some(e) => named(self@, name@) == Some(e@),
                None => named(self@, name@) is None,
            },
            match r {
                Some(e) => exists|i: int| first_named(self@.screens, name@, i) && e@ == self@.screens[i],
                None => !has_name(self@.screens, name@),
            },
    {
        match self.index_of(name) {
            Some(i) => {
                proof {
                    let k = choose|k: int| first_named(self@.screens, name@, k);
                    lemma_first_named_unique(self@.screens, name@, i as int, k);
                }
                Some(&self.screens[i])
            },
            None => None,
        }
    }

    /// Check the layout invariants: the primary is among the screens, no
    /// screen has zero width or height, no two screens share a name.
    /// The first violation in that order is reported.
    pub fn validate(&self) -> (r: Result<(), LayoutError>)
        ensures
            validation_outcome(self@, r),
    {
        let n = self.screens.len();
        let ghost s = self@.screens;
        if self.index_of(self.primary.as_str()).is_none() {
            return Err(LayoutError::PrimaryNotInScreens { primary: copy_string(&self.primary) });
        }
        assert(has_name(s, self@.primary));
        let mut i: usize = 0;
        while i < n
            invariant
                n == self.screens.len(),
                s == self@.screens,
                i <= n,
                has_name(s, self@.primary),
                forall|j: int| 0 <= j < i ==> !degenerate(#[trigger] s[j]),
            decreases n - i,
        {
            assert(s[i as int] == self.screens@[i as int]@);
            if self.screens[i].width == 0 || self.screens[i].height == 0 {
                assert(first_degenerate(s, i as int));
                return Err(LayoutError::DegenerateScreen { name: copy_string(&self.screens[i].name) });
            }
            i = i + 1;
        }
        let mut a: usize = 0;
        while a < n
            invariant
                n == self.screens.len(),
                s == self@.screens,
                a <= n,
                has_name(s, self@.primary),
                forall|j: int| 0 <= j < n ==> !degenerate(#[trigger] s[j]),
                forall|j: int| 0 <= j < a ==> !dup_later(s, j),
            decreases n - a,
        {
            let mut b: usize = a + 1;
            while b < n
                invariant
                    n == self.screens.len(),
                    s == self@.screens,
                    a < n,
                    a + 1 <= b <= n,
                    has_name(s, self@.primary),
                    forall|j: int| 0 <= j < n ==> !degenerate(#[trigger] s[j]),
                    forall|j: int| 0 <= j < a ==> !dup_later(s, j),
                    forall|k: int| a < k < b ==> (#[trigger] s[k]).name != s[a as int].name,
                decreases n - b,
            {
                assert(s[a as int] == self.screens@[a as int]@);
                assert(s[b as int] == self.screens@[b as int]@);
                if str_eq(self.screens[a].name.as_str(), self.screens[b].name.as_str()) {
                    assert(dup_later(s, a as int));
                    assert(first_dup(s, a as int));
                    return Err(LayoutError::DuplicateScreen { name: copy_string(&self.screens[a].name) });
                }
                b = b + 1;
            }
            assert(!dup_later(s, a as int));
            a = a + 1;
        }
        assert(names_distinct(s)) by {
            assert forall|x: int, y: int| 0 <= x < y < s.len() implies s[x].name != s[y].name by {
                assert(!dup_later(s, x));
            }
        }
        Ok(())
    }
}

/// The rectangles are half-open: a point on a screen's right or bottom
/// edge is not on that screen, so it belongs to the neighbour there.
pub proof fn lemma_far_edges_belong_to_neighbours(e: ScreenEntryView, vx: i32, vy: i32)
    ensures
        !entry_contains(e, right_edge(e), vy),
        !entry_contains(e, vx, bottom_edge(e)),
{
}

/// A point inside a screen is left where it is by clamping.
pub proof fn lemma_clamp_keeps_inside_points(e: ScreenEntryView, vx: i32, vy: i32)
    requires
        entry_contains(e, vx, vy),
    ensures
        entry_clamp(e, vx, vy) == (vx, vy),
{
}

/// Clamping lands inside the screen, for a screen with an area whose
/// size and far edges are representable as `i32`.
pub proof fn lemma_clamp_lands_inside(e: ScreenEntryView, vx: i32, vy: i32)
    requires
        0 < e.width <= i32::MAX,
        0 < e.height <= i32::MAX,
        e.origin_x + e.width <= i32::MAX,
        e.origin_y + e.height <= i32::MAX,
    ensures
        entry_contains(e, entry_clamp(e, vx, vy).0, entry_clamp(e, vx, vy).1),
{
    let w1 = (e.width - 1) as u32;
    let h1 = (e.height - 1) as u32;
    assert(u32_to_i32_or_max(w1) == e.width - 1);
    assert(u32_to_i32_or_max(h1) == e.height - 1);
    assert(u32_to_i32_or_max(e.width) == e.width);
    assert(u32_to_i32_or_max(e.height) == e.height);
    assert(last_column(e) == e.origin_x + e.width - 1);
    assert(last_row(e) == e.origin_y + e.height - 1);
    assert(right_edge(e) == e.origin_x + e.width);
    assert(bottom_edge(e) == e.origin_y + e.height);
}

/// What reading the layout file gave.
#[derive(Debug)]
pub enum LayoutSource {
    /// The file was read and its text parsed into this layout.
    Parsed(ScreenLayout),
    /// The file was read but its text is not a layout document (the
    /// parser's message).
    Unparsable(String),
    /// There is no file at the path (the OS message).
    Missing(String),
    /// Reading the file failed otherwise (the OS message).
    Unreadable(String),
}

/// How a parsed layout is accepted: as is when valid, else with the
/// validation error.
pub open spec fn accepted(l: ScreenLayoutView, r: Result<ScreenLayout, LayoutError>) -> bool {
    match r {
        Ok(x) => x@ == l && layout_valid(l),
        Err(e) => validation_outcome(l, Err(e)),
    }
}

/// The message when a store without a backing file is asked to reload.
pub open spec fn no_backing_file() -> Seq<char> {
    "LayoutStore has no backing file to reload from"@
}

fn accept(l: ScreenLayout) -> (r: Result<ScreenLayout, LayoutError>)
    ensures
        accepted(l@, r),
{
    match l.validate() {
        Ok(()) => Ok(l),
        Err(e) => Err(e),
    }
}

/// The layout a store starts with. A missing file is not an error: the
/// store starts with the lone-primary layout of `primary_fallback`. A
/// parsed layout must validate; an unparsable or unreadable file is an
/// error.
pub fn resolve_load(source: LayoutSource, path: &str, primary_fallback: &str) -> (r: Result<
    ScreenLayout,
    LayoutError,
>)
    ensures
        match source {
            LayoutSource::Parsed(l) => accepted(l@, r),
            LayoutSource::Unparsable(m) => r matches Err(LayoutError::Parse(pm)) && pm == m,
            LayoutSource::Missing(_) => r matches Ok(x) && x@.primary == primary_fallback@
                && x@.screens == seq![
                ScreenEntryView {
                    name: primary_fallback@,
                    origin_x: 0,
                    origin_y: 0,
                    width: 1920,
                    height: 1080,
                },
            ],
            LayoutSource::Unreadable(m) => r matches Err(LayoutError::Io { path: p, message })
                && p@ == path@ && message == m,
        },
{
    match source {
        LayoutSource::Parsed(l) => accept(l),
        LayoutSource::Unparsable(m) => Err(LayoutError::Parse(m)),
        LayoutSource::Missing(_) => {
            let l = ScreenLayout::single_primary(primary_fallback);
            assert(l@.screens =~= seq![
                ScreenEntryView {
                    name: primary_fallback@,
                    origin_x: 0,
                    origin_y: 0,
                    width: 1920,
                    height: 1080,
                },
            ]);
            Ok(l)
        },
        LayoutSource::Unreadable(m) => Err(LayoutError::Io { path: path.to_owned(), message: m }),
    }
}

/// The layout a reload swaps in. A store without a backing file (empty
/// path) cannot reload; otherwise the file must be there, parse, and
/// validate.
pub fn resolve_reload(source: LayoutSource, path: &str) -> (r: Result<ScreenLayout, LayoutError>)
    ensures
        path@.len() == 0 ==> (r matches Err(LayoutError::Io { path: p, message }) && p@ == path@
            && message@ == no_backing_file()),
        path@.len() > 0 ==> match source {
            LayoutSource::Parsed(l) => accepted(l@, r),
            LayoutSource::Unparsable(m) => r matches Err(LayoutError::Parse(pm)) && pm == m,
            LayoutSource::Missing(m) => r matches Err(LayoutError::Io { path: p, message }) && p@
                == path@ && message == m,
            LayoutSource::Unreadable(m) => r matches Err(LayoutError::Io { path: p, message }) && p@
                == path@ && message == m,
        },
{
    if path.unicode_len() == 0 {
        return Err(
            LayoutError::Io {
                path: path.to_owned(),
                message: "LayoutStore has no backing file to reload from".to_owned(),
            },
        );
    }
    match source {
        LayoutSource::Parsed(l) => accept(l),
        LayoutSource::Unparsable(m) => Err(LayoutError::Parse(m)),
        LayoutSource::Missing(m) => Err(LayoutError::Io { path: path.to_owned(), message: m }),
        LayoutSource::Unreadable(m) => Err(LayoutError::Io { path: path.to_owned(), message: m }),
    }
}

} // verus!
