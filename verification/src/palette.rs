//! The palette and its nearest-colour search.

use crate::color::{distance, lemma_distance_zero, squared_distance, Color, Pixel};
use vstd::prelude::*;

verus! {

/// Why a palette could not be built.
#[derive(Clone, Copy, Debug, PartialEq, Eq, Structural)]
pub enum PaletteError {
    /// The line with this zero-based index does not hold exactly three
    /// fields, or one of its fields is not an integer from 0 to 255.
    ParseRGBError { line: usize },
    /// There is not a single colour to build the palette from.
    NotEnoughDataError,
}

/// `i` is the position of the entry of `colors` that a search for `query`
/// settles on: no entry is closer to `query`, and every entry before it is
/// strictly farther away. Among entries at the same least distance the first
/// one wins.
pub open spec fn is_nearest(colors: Seq<Color>, query: Color, i: int) -> bool {
    &&& 0 <= i < colors.len()
    &&& forall|j: int|
        0 <= j < colors.len() ==> squared_distance(query, colors[i]) <= squared_distance(
            query,
            #[trigger] colors[j],
        )
    &&& forall|j: int|
        0 <= j < i ==> squared_distance(query, colors[i]) < squared_distance(
            query,
            #[trigger] colors[j],
        )
}

/// The position in `colors` of the entry nearest to `query`. It is
/// meaningful for a non-empty `colors` only; see `lemma_nearest_exists`.
pub open spec fn nearest_index(colors: Seq<Color>, query: Color) -> int {
    choose|i: int| is_nearest(colors, query, i)
}

/// The pixel that replaces `query`: the nearest entry of `colors`, with the
/// alpha channel of `query`.
pub open spec fn nearest_pixel(colors: Seq<Color>, query: Pixel) -> Pixel {
    Pixel { color: colors[nearest_index(colors, query.color)], alpha: query.alpha }
}

/// At most one position is the nearest one.
pub proof fn lemma_nearest_unique(colors: Seq<Color>, query: Color, i: int, j: int)
    requires
        is_nearest(colors, query, i),
        is_nearest(colors, query, j),
    ensures
        i == j,
{
    if i < j {
        assert(squared_distance(query, colors[j]) < squared_distance(query, colors[i]));
        assert(squared_distance(query, colors[i]) <= squared_distance(query, colors[j]));
    } else if j < i {
        assert(squared_distance(query, colors[i]) < squared_distance(query, colors[j]));
        assert(squared_distance(query, colors[j]) <= squared_distance(query, colors[i]));
    }
}

/// The nearest position within the first `n` entries of `colors`.
proof fn lemma_nearest_in_prefix(colors: Seq<Color>, query: Color, n: int) -> (i: int)
    requires
        1 <= n <= colors.len(),
    ensures
        is_nearest(colors.take(n), query, i),
    decreases n,
{
    if n == 1 {
        assert(is_nearest(colors.take(1), query, 0));
        0
    } else {
        let before = lemma_nearest_in_prefix(colors, query, n - 1);
        let shorter = colors.take(n - 1);
        let longer = colors.take(n);
        assert forall|j: int| 0 <= j < n - 1 implies #[trigger] longer[j] == shorter[j] by {}
        if squared_distance(query, colors[n - 1]) < squared_distance(query, shorter[before]) {
            assert(is_nearest(longer, query, n - 1));
            n - 1
        } else {
            assert(is_nearest(longer, query, before));
            before
        }
    }
}

/// A non-empty palette has a nearest entry for every query, and
/// `nearest_index` names it.
pub proof fn lemma_nearest_exists(colors: Seq<Color>, query: Color)
    requires
        colors.len() >= 1,
    ensures
        is_nearest(colors, query, nearest_index(colors, query)),
{
    let i = lemma_nearest_in_prefix(colors, query, colors.len() as int);
    assert(colors.take(colors.len() as int) =~= colors);
}

/// A position that meets `is_nearest` is the one `nearest_index` names.
pub proof fn lemma_nearest_index_is(colors: Seq<Color>, query: Color, i: int)
    requires
        is_nearest(colors, query, i),
    ensures
        nearest_index(colors, query) == i,
{
    lemma_nearest_unique(colors, query, i, nearest_index(colors, query));
}

/// The entry of `colors` nearest to `color`, carrying the alpha channel of
/// `color`. The scan is linear and keeps the first entry among equals.
pub fn closest_color(color: &Pixel, colors: &Vec<Color>) -> (out: Pixel)
    requires
        colors@.len() >= 1,
    ensures
        out == nearest_pixel(colors@, *color),
        is_nearest(colors@, color.color, nearest_index(colors@, color.color)),
{
    let mut best: usize = 0;
    let mut best_distance: u32 = distance(color, &colors[0]);
    let mut i: usize = 1;
    while i < colors.len()
        invariant
            1 <= i <= colors.len(),
            best < i,
            best_distance == squared_distance(color.color, colors@[best as int]),
            forall|j: int|
                0 <= j < i ==> best_distance <= squared_distance(
                    color.color,
                    #[trigger] colors@[j],
                ),
            forall|j: int|
                0 <= j < best ==> best_distance < squared_distance(
                    color.color,
                    #[trigger] colors@[j],
                ),
        decreases colors.len() - i,
    {
        let current_distance: u32 = distance(color, &colors[i]);
        if current_distance < best_distance {
            best = i;
            best_distance = current_distance;
        }
        i += 1;
    }
    proof {
        assert(is_nearest(colors@, color.color, best as int));
        lemma_nearest_index_is(colors@, color.color, best as int);
    }
    Pixel { color: colors[best], alpha: color.alpha }
}

/// An ordered, non-empty collection of reference colours.
///
/// A palette cannot be empty: `new` refuses an empty list, and nothing
/// changes a palette once it is built.
#[derive(Debug)]
pub struct Palette {
    colors: Vec<Color>,
}

impl Clone for Palette {
    fn clone(&self) -> (out: Self)
        ensures
            out@ == self@,
    {
        proof {
            use_type_invariant(self);
        }
        let colors = self.colors.clone();
        assert(colors@ =~= self.colors@);
        Palette { colors }
    }
}

impl View for Palette {
    type V = Seq<Color>;

    closed spec fn view(&self) -> Seq<Color> {
        self.colors@
    }
}

impl Palette {
    #[verifier::type_invariant]
    spec fn is_non_empty(&self) -> bool {
        self.colors@.len() >= 1
    }

    /// Builds a palette from `colors`, in their order. An empty list is
    /// refused.
    pub fn new(colors: Vec<Color>) -> (out: Result<Palette, PaletteError>)
        ensures
            colors@.len() >= 1 ==> (out matches Ok(palette) && palette@ == colors@),
            colors@.len() == 0 ==> out == Err::<Palette, PaletteError>(
                PaletteError::NotEnoughDataError,
            ),
    {
        if colors.len() == 0 {
            Err(PaletteError::NotEnoughDataError)
        } else {
            Ok(Palette { colors })
        }
    }

    /// The entries of the palette, in order.
    pub fn colors(&self) -> (out: &Vec<Color>)
        ensures
            out@ == self@,
            out@.len() >= 1,
    {
        proof {
            use_type_invariant(self);
        }
        &self.colors
    }

    /// The palette entry closest to `color` in RGB space, with the alpha
    /// channel of `color` reattached.
    pub fn closest_to(&self, color: &Pixel) -> (out: Pixel)
        ensures
            out == nearest_pixel(self@, *color),
            out.alpha == color.alpha,
            self@.len() >= 1,
            is_nearest(self@, color.color, nearest_index(self@, color.color)),
    {
        proof {
            use_type_invariant(self);
        }
        closest_color(color, &self.colors)
    }
}

/// The alpha channel of a query passes through the search unchanged,
/// whatever the palette holds.
pub proof fn lemma_alpha_passthrough(colors: Seq<Color>, query: Pixel)
    ensures
        nearest_pixel(colors, query).alpha == query.alpha,
{
}

/// The search answers with an entry of the palette.
pub proof fn lemma_nearest_is_entry(colors: Seq<Color>, query: Pixel)
    requires
        colors.len() >= 1,
    ensures
        colors.contains(nearest_pixel(colors, query).color),
{
    lemma_nearest_exists(colors, query.color);
}

/// A query whose colour is itself an entry of the palette keeps its colour.
pub proof fn lemma_exact_match(colors: Seq<Color>, query: Pixel)
    requires
        colors.contains(query.color),
    ensures
        nearest_pixel(colors, query).color == query.color,
        nearest_pixel(colors, query) == query,
{
    let k = choose|k: int| 0 <= k < colors.len() && colors[k] == query.color;
    lemma_nearest_exists(colors, query.color);
    let n = nearest_index(colors, query.color);
    assert(squared_distance(query.color, colors[n]) <= squared_distance(query.color, colors[k]));
    lemma_distance_zero(query.color, colors[k]);
    lemma_distance_zero(query.color, colors[n]);
}

/// Among entries at the same distance from the query the earlier one wins:
/// the search never settles on an entry that has an equally close or closer
/// entry before it.
pub proof fn lemma_first_of_equals_wins(colors: Seq<Color>, query: Color, i: int, j: int)
    requires
        0 <= i < j < colors.len(),
        squared_distance(query, colors[i]) <= squared_distance(query, colors[j]),
    ensures
        nearest_index(colors, query) != j,
{
    lemma_nearest_exists(colors, query);
    if nearest_index(colors, query) == j {
        assert(squared_distance(query, colors[j]) < squared_distance(query, colors[i]));
    }
}

/// In a palette of two entries the first is chosen whenever it is at least
/// as close as the second; in particular when both are equally far.
pub proof fn lemma_tie_goes_to_first(a: Color, b: Color, query: Pixel)
    requires
        squared_distance(query.color, a) <= squared_distance(query.color, b),
    ensures
        nearest_pixel(seq![a, b], query).color == a,
{
    let colors = seq![a, b];
    assert(colors[0] == a && colors[1] == b);
    assert(is_nearest(colors, query.color, 0));
    lemma_nearest_index_is(colors, query.color, 0);
}

/// In a palette of two entries the second is chosen only when it is
/// strictly closer than the first.
pub proof fn lemma_second_needs_strictly_closer(a: Color, b: Color, query: Pixel)
    requires
        squared_distance(query.color, b) < squared_distance(query.color, a),
    ensures
        nearest_pixel(seq![a, b], query).color == b,
{
    let colors = seq![a, b];
    assert(colors[0] == a && colors[1] == b);
    assert(is_nearest(colors, query.color, 1));
    lemma_nearest_index_is(colors, query.color, 1);
}

/// A palette that holds the same colour twice answers every query with
/// that colour.
pub proof fn lemma_duplicate_entries(a: Color, query: Pixel)
    ensures
        nearest_pixel(seq![a, a], query).color == a,
{
    lemma_tie_goes_to_first(a, a, query);
}

} // verus!
