use vstd::prelude::*;
use crate::components::{BoxColour, Position};
use crate::entities::{
    box_components, box_spot_components, create_box, create_box_spot, create_floor, create_player,
    create_wall, floor_components, player_components, wall_components,
};
use crate::world::{Components, World};

verus! {

/// The whitespace characters the level format ignores at the edges of the
/// text and of each row.
pub open spec fn is_ws(c: char) -> bool {
    c == ' ' || c == '\n' || c == '\t' || c == '\r'
}

/// `s` without its leading whitespace.
pub open spec fn trim_front(s: Seq<char>) -> Seq<char>
    decreases s.len(),
{
    if s.len() > 0 && is_ws(s[0]) {
        trim_front(s.drop_first())
    } else {
        s
    }
}

/// `s` without its trailing whitespace.
pub open spec fn trim_back(s: Seq<char>) -> Seq<char>
    decreases s.len(),
{
    if s.len() > 0 && is_ws(s[s.len() - 1]) {
        trim_back(s.drop_last())
    } else {
        s
    }
}

/// `s` without leading or trailing whitespace.
pub open spec fn trim(s: Seq<char>) -> Seq<char> {
    trim_back(trim_front(s))
}

/// `s` cut at every occurrence of `sep`: the pieces between separators, in
/// order, empty pieces kept.
pub open spec fn split_at(s: Seq<char>, sep: char) -> Seq<Seq<char>>
    decreases s.len(),
{
    if s.len() == 0 {
        seq![Seq::<char>::empty()]
    } else if s[0] == sep {
        seq![Seq::<char>::empty()] + split_at(s.drop_first(), sep)
    } else {
        let r = split_at(s.drop_first(), sep);
        seq![seq![s[0]] + r[0]] + r.drop_first()
    }
}

/// A split always yields at least one piece.
pub proof fn lemma_split_at_len(s: Seq<char>, sep: char)
    ensures
        split_at(s, sep).len() >= 1,
    decreases s.len(),
{
    if s.len() > 0 {
        lemma_split_at_len(s.drop_first(), sep);
    }
}

/// When the first separator stands at `k`, the first piece is everything
/// before it and the rest is the split of everything after it.
pub proof fn lemma_split_at_sep(s: Seq<char>, sep: char, k: int)
    requires
        0 <= k < s.len(),
        s[k] == sep,
        forall|j: int| 0 <= j < k ==> s[j] != sep,
    ensures
        split_at(s, sep) == seq![s.take(k)] + split_at(s.skip(k + 1), sep),
    decreases k,
{
    if k == 0 {
        assert(s.take(0) =~= Seq::<char>::empty());
        assert(s.skip(1) =~= s.drop_first());
    } else {
        let d = s.drop_first();
        assert(d[k - 1] == sep);
        assert(forall|j: int| 0 <= j < k - 1 ==> d[j] == s[j + 1] && #[trigger] d[j] != sep);
        lemma_split_at_sep(d, sep, k - 1);
        lemma_split_at_len(d.skip(k), sep);
        let r = split_at(d, sep);
        assert(r[0] == d.take(k - 1));
        assert(seq![s[0]] + d.take(k - 1) =~= s.take(k));
        assert(r.drop_first() =~= split_at(d.skip(k), sep));
        assert(d.skip(k) =~= s.skip(k + 1));
        assert(seq![seq![s[0]] + r[0]] + r.drop_first() =~= seq![s.take(k)] + split_at(
            s.skip(k + 1),
            sep,
        ));
    }
}

/// A separator-free text is a single piece.
pub proof fn lemma_split_at_none(s: Seq<char>, sep: char)
    requires
        forall|j: int| 0 <= j < s.len() ==> s[j] != sep,
    ensures
        split_at(s, sep) == seq![s],
    decreases s.len(),
{
    if s.len() == 0 {
        assert(s =~= Seq::<char>::empty());
    } else {
        let d = s.drop_first();
        lemma_split_at_none(d, sep);
        let r = split_at(d, sep);
        assert(r.drop_first() =~= Seq::<Seq<char>>::empty());
        assert(seq![s[0]] + d =~= s);
        assert(seq![seq![s[0]] + r[0]] + r.drop_first() =~= seq![s]);
    }
}

/// What one cell of the level grid stands for.
#[derive(Clone, Copy, PartialEq, Eq, Structural, Debug)]
pub enum CellKind {
    /// `N`: nothing, not even floor.
    Empty,
    /// `.`: floor only.
    Floor,
    /// `W`: a wall on floor.
    Wall,
    /// `P`: the player on floor.
    Player,
    /// `BB` or `RB`: a box of the given colour on floor.
    Box(BoxColour),
    /// `BS` or `RS`: a box spot of the given colour on floor.
    Spot(BoxColour),
}

/// Why a level description was rejected.
#[derive(Clone, Copy, PartialEq, Eq, Structural, Debug)]
pub enum MapError {
    /// A cell token is none of `N . W P BB RB BS RS`.
    UnrecognizedToken,
    /// More than 256 rows, or more than 256 cells in some row: a
    /// coordinate would not fit the grid's 8-bit coordinates.
    MapTooLarge,
}

/// The meaning of one cell token, or `None` if it is not recognized.
pub open spec fn token_of(t: Seq<char>) -> Option<CellKind> {
    if t.len() == 1 {
        if t[0] == '.' {
            Some(CellKind::Floor)
        } else if t[0] == 'W' {
            Some(CellKind::Wall)
        } else if t[0] == 'P' {
            Some(CellKind::Player)
        } else if t[0] == 'N' {
            Some(CellKind::Empty)
        } else {
            None
        }
    } else if t.len() == 2 {
        if t[0] == 'B' && t[1] == 'B' {
            Some(CellKind::Box(BoxColour::Blue))
        } else if t[0] == 'R' && t[1] == 'B' {
            Some(CellKind::Box(BoxColour::Red))
        } else if t[0] == 'B' && t[1] == 'S' {
            Some(CellKind::Spot(BoxColour::Blue))
        } else if t[0] == 'R' && t[1] == 'S' {
            Some(CellKind::Spot(BoxColour::Red))
        } else {
            None
        }
    } else {
        None
    }
}

/// The level text as a grid of cell tokens: the trimmed text cut into rows
/// at newlines, each row trimmed and cut into cells at single spaces.
pub open spec fn grid(s: Seq<char>) -> Seq<Seq<Seq<char>>> {
    split_at(trim(s), '\n').map_values(|r: Seq<char>| split_at(trim(r), ' '))
}

/// Every coordinate of the grid fits the 8-bit cell coordinates.
pub open spec fn grid_dims_ok(g: Seq<Seq<Seq<char>>>) -> bool {
    g.len() <= 256 && (forall|y: int| 0 <= y < g.len() ==> #[trigger] g[y].len() <= 256)
}

/// Every cell token of the grid is recognized.
pub open spec fn grid_tokens_ok(g: Seq<Seq<Seq<char>>>) -> bool {
    forall|y: int, x: int|
        0 <= y < g.len() && 0 <= x < g[y].len() ==> token_of(#[trigger] g[y][x]) is Some
}

/// The cells of row `y`, column index as x coordinate.
pub open spec fn row_items(cells: Seq<Seq<char>>, y: int) -> Seq<MapItem> {
    Seq::new(
        cells.len(),
        |x: int| MapItem { x: x as u8, y: y as u8, kind: token_of(cells[x])->0 },
    )
}

/// The cells of the first `y` rows, in row-major order.
pub open spec fn items_upto(g: Seq<Seq<Seq<char>>>, y: int) -> Seq<MapItem>
    decreases y,
{
    if y <= 0 {
        Seq::empty()
    } else {
        items_upto(g, y - 1) + row_items(g[y - 1], y - 1)
    }
}

/// Every cell of the grid with its coordinates, in row-major order.
pub open spec fn grid_items(g: Seq<Seq<Seq<char>>>) -> Seq<MapItem> {
    items_upto(g, g.len() as int)
}

/// One parsed cell: its grid coordinates and what stands on it.
#[derive(Clone, Copy, PartialEq, Eq, Structural, Debug)]
pub struct MapItem {
    pub x: u8,
    pub y: u8,
    pub kind: CellKind,
}

/// The first index at or after `lo` (up to `hi`) whose character is not
/// whitespace.
fn skip_ws_front(s: &str, lo: usize, hi: usize) -> (a: usize)
    requires
        lo <= hi <= s@.len(),
    ensures
        lo <= a <= hi,
        trim_front(s@.subrange(lo as int, hi as int)) == s@.subrange(a as int, hi as int),
{
    let mut a = lo;
    while a < hi
        invariant
            lo <= a <= hi <= s@.len(),
            trim_front(s@.subrange(lo as int, hi as int)) == trim_front(
                s@.subrange(a as int, hi as int),
            ),
        decreases hi - a,
    {
        let c = s.get_char(a);
        if !(c == ' ' || c == '\n' || c == '\t' || c == '\r') {
            proof {
                assert(trim_front(s@.subrange(a as int, hi as int)) == s@.subrange(
                    a as int,
                    hi as int,
                ));
            }
            return a;
        }
        proof {
            assert(s@.subrange(a as int, hi as int).drop_first() =~= s@.subrange(
                a + 1,
                hi as int,
            ));
        }
        a = a + 1;
    }
    proof {
        assert(s@.subrange(hi as int, hi as int) =~= Seq::<char>::empty());
    }
    hi
}

/// The first index at or before `hi` (down to `lo`) behind which every
/// character is whitespace.
fn skip_ws_back(s: &str, lo: usize, hi: usize) -> (b: usize)
    requires
        lo <= hi <= s@.len(),
    ensures
        lo <= b <= hi,
        trim_back(s@.subrange(lo as int, hi as int)) == s@.subrange(lo as int, b as int),
{
    let mut b = hi;
    while b > lo
        invariant
            lo <= b <= hi <= s@.len(),
            trim_back(s@.subrange(lo as int, hi as int)) == trim_back(
                s@.subrange(lo as int, b as int),
            ),
        decreases b - lo,
    {
        let c = s.get_char(b - 1);
        if !(c == ' ' || c == '\n' || c == '\t' || c == '\r') {
            proof {
                assert(trim_back(s@.subrange(lo as int, b as int)) == s@.subrange(
                    lo as int,
                    b as int,
                ));
            }
            return b;
        }
        proof {
            assert(s@.subrange(lo as int, b as int).drop_last() =~= s@.subrange(
                lo as int,
                b - 1,
            ));
        }
        b = b - 1;
    }
    proof {
        assert(s@.subrange(lo as int, lo as int) =~= Seq::<char>::empty());
    }
    lo
}

/// The spans of the pieces of `s[lo..hi]` cut at `sep`, in order.
fn split_span(s: &str, lo: usize, hi: usize, sep: char) -> (r: Vec<(usize, usize)>)
    requires
        lo <= hi <= s@.len(),
    ensures
        r@.len() == split_at(s@.subrange(lo as int, hi as int), sep).len(),
        forall|t: int|
            0 <= t < r@.len() ==> lo <= #[trigger] r@[t].0 <= r@[t].1 <= hi && s@.subrange(
                r@[t].0 as int,
                r@[t].1 as int,
            ) == split_at(s@.subrange(lo as int, hi as int), sep)[t],
{
    let ghost whole = s@.subrange(lo as int, hi as int);
    let ghost target = split_at(whole, sep);
    let mut r: Vec<(usize, usize)> = Vec::new();
    let mut start = lo;
    let mut i = lo;
    while i < hi
        invariant
            lo <= start <= i <= hi <= s@.len(),
            whole == s@.subrange(lo as int, hi as int),
            target == split_at(whole, sep),
            forall|j: int| start <= j < i ==> s@[j] != sep,
            target == r@.map_values(
                |sp: (usize, usize)| s@.subrange(sp.0 as int, sp.1 as int),
            ) + split_at(s@.subrange(start as int, hi as int), sep),
            forall|t: int| 0 <= t < r@.len() ==> lo <= #[trigger] r@[t].0 <= r@[t].1 <= hi,
        decreases hi - i,
    {
        let c = s.get_char(i);
        if c == sep {
            let ghost piece = s@.subrange(start as int, hi as int);
            proof {
                assert(piece[i - start] == sep);
                assert(forall|j: int|
                    0 <= j < i - start ==> #[trigger] piece[j] == s@[start + j] && piece[j] != sep);
                lemma_split_at_sep(piece, sep, i - start);
                assert(piece.take(i - start) =~= s@.subrange(start as int, i as int));
                assert(piece.skip(i - start + 1) =~= s@.subrange(i + 1, hi as int));
            }
            let ghost prev = r@;
            r.push((start, i));
            proof {
                assert(r@.map_values(|sp: (usize, usize)| s@.subrange(sp.0 as int, sp.1 as int))
                    =~= prev.map_values(|sp: (usize, usize)| s@.subrange(sp.0 as int, sp.1 as int))
                    + seq![s@.subrange(start as int, i as int)]);
                assert(prev.map_values(
                    |sp: (usize, usize)| s@.subrange(sp.0 as int, sp.1 as int),
                ) + (seq![s@.subrange(start as int, i as int)] + split_at(
                    s@.subrange(i + 1, hi as int),
                    sep,
                )) =~= r@.map_values(|sp: (usize, usize)| s@.subrange(sp.0 as int, sp.1 as int))
                    + split_at(s@.subrange(i + 1, hi as int), sep));
            }
            start = i + 1;
        }
        i = i + 1;
    }
    let ghost piece = s@.subrange(start as int, hi as int);
    proof {
        assert(forall|j: int|
            0 <= j < piece.len() ==> #[trigger] piece[j] == s@[start + j] && piece[j] != sep);
        lemma_split_at_none(piece, sep);
    }
    let ghost prev = r@;
    r.push((start, hi));
    proof {
        assert(r@.map_values(|sp: (usize, usize)| s@.subrange(sp.0 as int, sp.1 as int))
            =~= prev.map_values(|sp: (usize, usize)| s@.subrange(sp.0 as int, sp.1 as int)) + seq![
            piece,
        ]);
        assert(target =~= r@.map_values(
            |sp: (usize, usize)| s@.subrange(sp.0 as int, sp.1 as int),
        ));
        assert forall|t: int|
            0 <= t < r@.len() implies s@.subrange(
            #[trigger] r@[t].0 as int,
            r@[t].1 as int,
        ) == target[t] by {
            assert(target[t] == r@.map_values(
                |sp: (usize, usize)| s@.subrange(sp.0 as int, sp.1 as int),
            )[t]);
        }
    }
    r
}

/// The meaning of the cell token in `s[lo..hi]`.
fn classify(s: &str, lo: usize, hi: usize) -> (r: Option<CellKind>)
    requires
        lo <= hi <= s@.len(),
    ensures
        r == token_of(s@.subrange(lo as int, hi as int)),
{
    let ghost t = s@.subrange(lo as int, hi as int);
    if hi - lo == 1 {
        let c = s.get_char(lo);
        proof {
            assert(t[0] == c);
        }
        if c == '.' {
            Some(CellKind::Floor)
        } else if c == 'W' {
            Some(CellKind::Wall)
        } else if c == 'P' {
            Some(CellKind::Player)
        } else if c == 'N' {
            Some(CellKind::Empty)
        } else {
            None
        }
    } else if hi - lo == 2 {
        let c0 = s.get_char(lo);
        let c1 = s.get_char(lo + 1);
        proof {
            assert(t[0] == c0 && t[1] == c1);
        }
        if c0 == 'B' && c1 == 'B' {
            Some(CellKind::Box(BoxColour::Blue))
        } else if c0 == 'R' && c1 == 'B' {
            Some(CellKind::Box(BoxColour::Red))
        } else if c0 == 'B' && c1 == 'S' {
            Some(CellKind::Spot(BoxColour::Blue))
        } else if c0 == 'R' && c1 == 'S' {
            Some(CellKind::Spot(BoxColour::Red))
        } else {
            None
        }
    } else {
        None
    }
}

/// Read the level text into its cells: the grid coordinates and meaning of
/// every cell, in row-major order; `MapTooLarge` when a coordinate would
/// not fit `u8`, else `UnrecognizedToken` when some cell token is not
/// recognized.
pub fn parse_map(s: &str) -> (r: Result<Vec<MapItem>, MapError>)
    ensures
        r == Result::<Vec<MapItem>, MapError>::Err(MapError::MapTooLarge) <==> !grid_dims_ok(
            grid(s@),
        ),
        r == Result::<Vec<MapItem>, MapError>::Err(MapError::UnrecognizedToken) <==> grid_dims_ok(
            grid(s@),
        ) && !grid_tokens_ok(grid(s@)),
        r matches Ok(v) ==> v@ == grid_items(grid(s@)),
        r is Ok <==> grid_dims_ok(grid(s@)) && grid_tokens_ok(grid(s@)),
{
    let ghost g = grid(s@);
    let len = s.unicode_len();
    let a = skip_ws_front(s, 0, len);
    let b = skip_ws_back(s, a, len);
    proof {
        assert(s@.subrange(0, len as int) =~= s@);
        assert(s@.subrange(a as int, b as int) == trim(s@));
    }
    let rows = split_span(s, a, b, '\n');
    proof {
        assert(g.len() == rows@.len());
        assert forall|y: int| 0 <= y < rows@.len() implies g[y] == split_at(
            trim(s@.subrange(#[trigger] rows@[y].0 as int, rows@[y].1 as int)),
            ' ',
        ) by {
            assert(s@.subrange(rows@[y].0 as int, rows@[y].1 as int) == split_at(trim(s@), '\n')[y]);
        }
    }
    if rows.len() > 256 {
        proof {
            assert(!grid_dims_ok(g));
        }
        return Err(MapError::MapTooLarge);
    }
    let mut cells: Vec<Vec<(usize, usize)>> = Vec::new();
    let mut y: usize = 0;
    while y < rows.len()
        invariant
            g == grid(s@),
            0 <= y <= rows@.len(),
            rows@.len() == g.len() <= 256,
            forall|t: int| 0 <= t < rows@.len() ==> #[trigger] rows@[t].0 <= rows@[t].1 <= s@.len(),
            forall|t: int|
                0 <= t < rows@.len() ==> g[t] == split_at(
                    trim(s@.subrange(#[trigger] rows@[t].0 as int, rows@[t].1 as int)),
                    ' ',
                ),
            cells@.len() == y,
            forall|t: int|
                0 <= t < y ==> #[trigger] cells@[t]@.len() == g[t].len() && g[t].len() <= 256,
            forall|t: int, u: int|
                0 <= t < y && 0 <= u < cells@[t]@.len() ==> (#[trigger] cells@[t]@[u]).0
                    <= cells@[t]@[u].1 <= s@.len() && s@.subrange(
                    cells@[t]@[u].0 as int,
                    cells@[t]@[u].1 as int,
                ) == g[t][u],
        decreases rows@.len() - y,
    {
        let (rlo, rhi) = rows[y];
        let ra = skip_ws_front(s, rlo, rhi);
        let rb = skip_ws_back(s, ra, rhi);
        proof {
            assert(s@.subrange(ra as int, rb as int) == trim(
                s@.subrange(rlo as int, rhi as int),
            ));
        }
        let cs = split_span(s, ra, rb, ' ');
        proof {
            assert(rows@[y as int].0 == rlo && rows@[y as int].1 == rhi);
            assert(g[y as int] == split_at(trim(s@.subrange(rlo as int, rhi as int)), ' '));
            assert(cs@.len() == g[y as int].len());
        }
        if cs.len() > 256 {
            proof {
                assert(!grid_dims_ok(g));
            }
            return Err(MapError::MapTooLarge);
        }
        cells.push(cs);
        y = y + 1;
    }
    let mut items: Vec<MapItem> = Vec::new();
    let mut yy: usize = 0;
    while yy < cells.len()
        invariant
            g == grid(s@),
            0 <= yy <= cells@.len(),
            cells@.len() == g.len() <= 256,
            forall|t: int|
                0 <= t < g.len() ==> #[trigger] cells@[t]@.len() == g[t].len() && g[t].len()
                    <= 256,
            forall|t: int, u: int|
                0 <= t < g.len() && 0 <= u < cells@[t]@.len() ==> (#[trigger] cells@[t]@[u]).0
                    <= cells@[t]@[u].1 <= s@.len() && s@.subrange(
                    cells@[t]@[u].0 as int,
                    cells@[t]@[u].1 as int,
                ) == g[t][u],
            forall|t: int, u: int|
                0 <= t < yy && 0 <= u < g[t].len() ==> token_of(#[trigger] g[t][u]) is Some,
            items@ == items_upto(g, yy as int),
        decreases cells@.len() - yy,
    {
        let row = &cells[yy];
        let mut x: usize = 0;
        while x < row.len()
            invariant
                g == grid(s@),
                0 <= x <= row@.len(),
                row@ == cells@[yy as int]@,
                0 <= yy < cells@.len(),
                cells@.len() == g.len() <= 256,
                forall|t: int|
                    0 <= t < g.len() ==> #[trigger] cells@[t]@.len() == g[t].len() && g[t].len()
                        <= 256,
                forall|t: int, u: int|
                    0 <= t < g.len() && 0 <= u < cells@[t]@.len() ==> (#[trigger] cells@[t]@[u]).0
                        <= cells@[t]@[u].1 <= s@.len() && s@.subrange(
                        cells@[t]@[u].0 as int,
                        cells@[t]@[u].1 as int,
                    ) == g[t][u],
                forall|u: int| 0 <= u < x ==> token_of(#[trigger] g[yy as int][u]) is Some,
                items@ == items_upto(g, yy as int) + row_items(g[yy as int], yy as int).take(
                    x as int,
                ),
            decreases row@.len() - x,
        {
            let (clo, chi) = row[x];
            match classify(s, clo, chi) {
                None => {
                    proof {
                        assert(0 <= yy < g.len() && 0 <= x < g[yy as int].len() && !(token_of(
                            g[yy as int][x as int],
                        ) is Some));
                        assert(!grid_tokens_ok(g));
                        assert forall|t: int| 0 <= t < g.len() implies #[trigger] g[t].len()
                            <= 256 by {
                            assert(cells@[t]@.len() == g[t].len() && g[t].len() <= 256);
                        }
                        assert(grid_dims_ok(g));
                    }
                    return Err(MapError::UnrecognizedToken);
                },
                Some(kind) => {
                    items.push(MapItem { x: x as u8, y: yy as u8, kind });
                    proof {
                        assert(row_items(g[yy as int], yy as int)[x as int] == MapItem {
                            x: x as u8,
                            y: yy as u8,
                            kind,
                        });
                        assert(row_items(g[yy as int], yy as int).take(x as int + 1)
                            =~= row_items(g[yy as int], yy as int).take(x as int).push(
                            row_items(g[yy as int], yy as int)[x as int],
                        ));
                        assert(items@ =~= items_upto(g, yy as int) + row_items(
                            g[yy as int],
                            yy as int,
                        ).take(x as int + 1));
                    }
                },
            }
            x = x + 1;
        }
        proof {
            assert(row_items(g[yy as int], yy as int).take(row@.len() as int) =~= row_items(
                g[yy as int],
                yy as int,
            ));
            assert(items_upto(g, yy as int + 1) == items_upto(g, yy as int) + row_items(
                g[yy as int],
                yy as int,
            ));
        }
        yy = yy + 1;
    }
    proof {
        assert(items@ == grid_items(g));
        assert forall|t: int| 0 <= t < g.len() implies #[trigger] g[t].len() <= 256 by {
            assert(cells@[t]@.len() == g[t].len() && g[t].len() <= 256);
        }
        assert(grid_dims_ok(g));
        assert(grid_tokens_ok(g));
    }
    Ok(items)
}

/// The position a parsed cell names, before a factory assigns its layer.
pub open spec fn item_pos(item: MapItem) -> Position {
    Position { x: item.x, y: item.y, z: 0 }
}

/// The entities one parsed cell gives rise to: floor under everything but
/// an empty cell, and the cell's wall, player, box or spot on top of it.
pub open spec fn cell_spawns(item: MapItem) -> Seq<Components> {
    match item.kind {
        CellKind::Empty => Seq::empty(),
        CellKind::Floor => seq![floor_components(item_pos(item))],
        CellKind::Wall => seq![
            floor_components(item_pos(item)),
            wall_components(item_pos(item)),
        ],
        CellKind::Player => seq![
            floor_components(item_pos(item)),
            player_components(item_pos(item)),
        ],
        CellKind::Box(colour) => seq![
            floor_components(item_pos(item)),
            box_components(item_pos(item), colour),
        ],
        CellKind::Spot(colour) => seq![
            floor_components(item_pos(item)),
            box_spot_components(item_pos(item), colour),
        ],
    }
}

/// The store after the entities of every parsed cell are created, in
/// row-major order.
pub open spec fn spawn_all(w: Seq<Components>, items: Seq<MapItem>) -> Seq<Components>
    decreases items.len(),
{
    if items.len() == 0 {
        w
    } else {
        spawn_all(w, items.drop_last()) + cell_spawns(items.last())
    }
}

/// Load a level description into the store: parse the text grid and create
/// the entities of every cell. A rejected text (see `parse_map`) leaves
/// the store untouched.
pub fn load_map(world: &mut World, map_string: &str) -> (r: Result<(), MapError>)
    ensures
        r == Result::<(), MapError>::Err(MapError::MapTooLarge) <==> !grid_dims_ok(
            grid(map_string@),
        ),
        r == Result::<(), MapError>::Err(MapError::UnrecognizedToken) <==> grid_dims_ok(
            grid(map_string@),
        ) && !grid_tokens_ok(grid(map_string@)),
        r is Ok <==> grid_dims_ok(grid(map_string@)) && grid_tokens_ok(grid(map_string@)),
        r is Ok ==> final(world)@ == spawn_all(old(world)@, grid_items(grid(map_string@))),
        r is Err ==> final(world)@ == old(world)@,
{
    let items = match parse_map(map_string) {
        Ok(v) => v,
        Err(e) => {
            return Err(e);
        },
    };
    let ghost w0 = world@;
    let ghost its = items@;
    let mut i: usize = 0;
    while i < items.len()
        invariant
            0 <= i <= its.len(),
            items@ == its,
            world@ == spawn_all(w0, its.take(i as int)),
        decreases its.len() - i,
    {
        let it = items[i];
        let position = Position { x: it.x, y: it.y, z: 0 };
        let ghost before = world@;
        match it.kind {
            CellKind::Empty => {},
            CellKind::Floor => {
                create_floor(world, position);
            },
            CellKind::Wall => {
                create_floor(world, position);
                create_wall(world, position);
            },
            CellKind::Player => {
                create_floor(world, position);
                create_player(world, position);
            },
            CellKind::Box(colour) => {
                create_floor(world, position);
                create_box(world, position, colour);
            },
            CellKind::Spot(colour) => {
                create_floor(world, position);
                create_box_spot(world, position, colour);
            },
        }
        proof {
            assert(world@ =~= before + cell_spawns(its[i as int]));
            assert(its.take(i as int + 1).drop_last() =~= its.take(i as int));
            assert(its.take(i as int + 1).last() == its[i as int]);
            assert(spawn_all(w0, its.take(i as int + 1)) == spawn_all(w0, its.take(i as int))
                + cell_spawns(its[i as int]));
        }
        i = i + 1;
    }
    proof {
        assert(its.take(its.len() as int) =~= its);
    }
    Ok(())
}

/// The built-in level description: an 8 by 9 grid of walls around floor,
/// one player, one box and one spot of each colour.
pub open spec fn level_map() -> Seq<char> {
    "
    N N W W W W W W
    W W W . . . . W
    W . . . BB . . W
    W . . RB . . . W
    W . P . . . . W
    W . . . . RS . W
    W . . BS . . . W
    W . . . . . . W
    W W W W W W W W
    "@
}

/// Load the built-in level into the store.
pub fn initialize_level(world: &mut World) -> (r: Result<(), MapError>)
    ensures
        r is Ok <==> grid_dims_ok(grid(level_map())) && grid_tokens_ok(grid(level_map())),
        r is Ok ==> final(world)@ == spawn_all(old(world)@, grid_items(grid(level_map()))),
        r is Err ==> final(world)@ == old(world)@,
{
    let m = "
    N N W W W W W W
    W W W . . . . W
    W . . . BB . . W
    W . . RB . . . W
    W . P . . . . W
    W . . . . RS . W
    W . . BS . . . W
    W . . . . . . W
    W W W W W W W W
    ";
    proof {
        assert(m@ == level_map());
    }
    load_map(world, m)
}

} // verus!
