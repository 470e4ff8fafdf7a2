//! Tables of items: which columns stand where, and what is shown where not all of them fit.
use crate::cli::width;
use crate::cli::width::{measure, minus, pad, plus, spaces_of, truncate_text, wrap_text_slices};
use crate::text;
use vstd::prelude::*;

verus! {

/// A type of tag that is a column, with the rank that it has by itself.
#[derive(Debug)]
pub struct KeyColumn {
    pub name: String,
    pub rank: i64,
}

#[verifier::ext_equal]
pub struct KeyModel {
    pub name: Seq<char>,
    pub rank: i64,
}

impl View for KeyColumn {
    type V = KeyModel;

    open spec fn view(&self) -> KeyModel {
        KeyModel { name: self.name@, rank: self.rank }
    }
}

pub open spec fn key_models(v: Seq<KeyColumn>) -> Seq<KeyModel> {
    v.map_values(|k: KeyColumn| k@)
}

/// An item in a table: its id and what is shown for its tags.
#[derive(Debug)]
pub struct ShownItem {
    pub id: String,
    pub cells: Vec<(String, String)>,
}

#[verifier::ext_equal]
pub struct ShownModel {
    pub id: Seq<char>,
    pub cells: Seq<(Seq<char>, Seq<char>)>,
}

impl View for ShownItem {
    type V = ShownModel;

    open spec fn view(&self) -> ShownModel {
        ShownModel {
            id: self.id@,
            cells: self.cells@.map_values(|c: (String, String)| (c.0@, c.1@)),
        }
    }
}

pub open spec fn shown_models(v: Seq<ShownItem>) -> Seq<ShownModel> {
    v.map_values(|s: ShownItem| s@)
}

/// Items that have the same columns.
#[derive(Debug)]
pub struct TypeGroup {
    pub keys: Vec<KeyColumn>,
    pub items: Vec<ShownItem>,
}

#[verifier::ext_equal]
pub struct GroupModel {
    pub keys: Seq<KeyModel>,
    pub items: Seq<ShownModel>,
}

impl View for TypeGroup {
    type V = GroupModel;

    open spec fn view(&self) -> GroupModel {
        GroupModel { keys: key_models(self.keys@), items: shown_models(self.items@) }
    }
}

// ---------------------------------------------------------------------------
// The order of columns
// ---------------------------------------------------------------------------

/// The rank that users gave to a type, if they gave one.
pub open spec fn given_rank(ranks: Seq<(Seq<char>, i64)>, name: Seq<char>) -> Option<i64>
    decreases ranks.len(),
{
    if ranks.len() == 0 {
        None
    } else if ranks[0].0 == name {
        Some(ranks[0].1)
    } else {
        given_rank(ranks.skip(1), name)
    }
}

/// The rank that a column is ordered by: the one that was given, but a given zero counts for
/// nothing.
pub open spec fn rank_of(ranks: Seq<(Seq<char>, i64)>, k: KeyModel) -> i64 {
    match given_rank(ranks, k.name) {
        Some(r) if r != 0 => r,
        _ => k.rank,
    }
}

/// Whether a column must stand before another: it has the higher rank, or the same rank and
/// the smaller name.
pub open spec fn stands_before(ranks: Seq<(Seq<char>, i64)>, a: KeyModel, b: KeyModel) -> bool {
    let ra = rank_of(ranks, a);
    let rb = rank_of(ranks, b);
    ra > rb || (ra == rb && a.name != b.name && text::text_le(a.name, b.name))
}

/// The columns with one more, behind all that it need not stand before.
pub open spec fn with_key(ranks: Seq<(Seq<char>, i64)>, s: Seq<KeyModel>, k: KeyModel) -> Seq<
    KeyModel,
>
    decreases s.len(),
{
    if s.len() == 0 || !stands_before(ranks, k, s.last()) {
        s.push(k)
    } else {
        with_key(ranks, s.drop_last(), k).push(s.last())
    }
}

/// The columns in their order.
pub open spec fn ordered_keys(ranks: Seq<(Seq<char>, i64)>, keys: Seq<KeyModel>) -> Seq<KeyModel>
    decreases keys.len(),
{
    if keys.len() == 0 {
        Seq::empty()
    } else {
        with_key(ranks, ordered_keys(ranks, keys.drop_last()), keys.last())
    }
}

pub open spec fn in_order(ranks: Seq<(Seq<char>, i64)>, s: Seq<KeyModel>) -> bool {
    forall|i: int, j: int|
        0 <= i < j < s.len() ==> !stands_before(ranks, #[trigger] s[j], #[trigger] s[i])
}

proof fn lemma_before_transitive(
    ranks: Seq<(Seq<char>, i64)>,
    a: KeyModel,
    b: KeyModel,
    c: KeyModel,
)
    ensures
        !stands_before(ranks, b, a) && !stands_before(ranks, c, b) ==> !stands_before(ranks, c, a),
        stands_before(ranks, a, b) ==> !stands_before(ranks, b, a),
{
    text::law_text_order(a.name, b.name, c.name);
    text::law_text_order(b.name, a.name, c.name);
    text::law_text_order(a.name, c.name, b.name);
    text::law_text_order(c.name, b.name, a.name);
    text::law_text_order(b.name, c.name, a.name);
    text::law_text_order(c.name, a.name, b.name);
}

proof fn lemma_with_key(ranks: Seq<(Seq<char>, i64)>, s: Seq<KeyModel>, k: KeyModel)
    requires
        in_order(ranks, s),
    ensures
        in_order(ranks, with_key(ranks, s, k)),
        with_key(ranks, s, k).to_multiset() == s.to_multiset().insert(k),
        with_key(ranks, s, k).len() == s.len() + 1,
    decreases s.len(),
{
    broadcast use vstd::seq_lib::group_to_multiset_ensures;

    let r = with_key(ranks, s, k);
    if s.len() == 0 || !stands_before(ranks, k, s.last()) {
        assert forall|i: int, j: int| 0 <= i < j < r.len() implies !stands_before(
            ranks,
            #[trigger] r[j],
            #[trigger] r[i],
        ) by {
            if j == s.len() && i < s.len() - 1 {
                lemma_before_transitive(ranks, s[i], s.last(), k);
            }
        }
    } else {
        let front = s.drop_last();
        let inner = with_key(ranks, front, k);
        lemma_with_key(ranks, front, k);
        assert(s =~= front.push(s.last()));
        assert forall|i: int, j: int| 0 <= i < j < r.len() implies !stands_before(
            ranks,
            #[trigger] r[j],
            #[trigger] r[i],
        ) by {
            if j == r.len() - 1 {
                assert(inner.to_multiset().count(inner[i]) > 0) by {
                    assert(inner.contains(inner[i]));
                }
                lemma_before_transitive(ranks, k, s.last(), k);
                if inner[i] != k {
                    assert(front.to_multiset().count(inner[i]) > 0);
                    assert(front.contains(inner[i]));
                    let x = choose|x: int| 0 <= x < front.len() && front[x] == inner[i];
                    assert(s[x] == inner[i]);
                    assert(!stands_before(ranks, s[s.len() - 1], s[x]));
                }
            }
        }
    }
}

/// The columns of a table are those of its items, by falling rank, and by name within a rank.
pub proof fn law_columns_are_ordered(ranks: Seq<(Seq<char>, i64)>, keys: Seq<KeyModel>)
    ensures
        in_order(ranks, ordered_keys(ranks, keys)),
        ordered_keys(ranks, keys).to_multiset() == keys.to_multiset(),
        ordered_keys(ranks, keys).len() == keys.len(),
    decreases keys.len(),
{
    broadcast use vstd::seq_lib::group_to_multiset_ensures;

    if keys.len() > 0 {
        law_columns_are_ordered(ranks, keys.drop_last());
        lemma_with_key(ranks, ordered_keys(ranks, keys.drop_last()), keys.last());
        assert(keys =~= keys.drop_last().push(keys.last()));
    } else {
        assert(keys =~= Seq::empty());
    }
}

pub open spec fn rank_models(v: Seq<(String, i64)>) -> Seq<(Seq<char>, i64)> {
    v.map_values(|r: (String, i64)| (r.0@, r.1))
}

fn rank_of_key(ranks: &Vec<(String, i64)>, k: &KeyColumn) -> (r: i64)
    ensures
        r == rank_of(rank_models(ranks@), k@),
{
    let ghost rs = rank_models(ranks@);
    let mut i: usize = 0;
    proof {
        assert(rs.skip(0) =~= rs);
    }
    while i < ranks.len()
        invariant
            i <= ranks@.len(),
            rs == rank_models(ranks@),
            given_rank(rs, k.name@) == given_rank(rs.skip(i as int), k.name@),
        decreases ranks.len() - i,
    {
        proof {
            assert(rs.skip(i as int)[0] == (ranks@[i as int].0@, ranks@[i as int].1));
            assert(rs.skip(i as int).skip(1) =~= rs.skip(i + 1));
        }
        if text::str_eq(ranks[i].0.as_str(), k.name.as_str()) {
            if ranks[i].1 != 0 {
                return ranks[i].1;
            }
            return k.rank;
        }
        i += 1;
    }
    k.rank
}

fn comes_before(ranks: &Vec<(String, i64)>, a: &KeyColumn, b: &KeyColumn) -> (r: bool)
    ensures
        r == stands_before(rank_models(ranks@), a@, b@),
{
    let ra = rank_of_key(ranks, a);
    let rb = rank_of_key(ranks, b);
    if ra != rb {
        return ra > rb;
    }
    !text::str_eq(a.name.as_str(), b.name.as_str()) && text::text_not_after(
        a.name.as_str(),
        b.name.as_str(),
    )
}

proof fn lemma_insert_key(
    ranks: Seq<(Seq<char>, i64)>,
    s: Seq<KeyModel>,
    k: KeyModel,
    pos: int,
)
    requires
        0 <= pos <= s.len(),
        forall|j: int| pos <= j < s.len() ==> stands_before(ranks, k, #[trigger] s[j]),
        pos > 0 ==> !stands_before(ranks, k, s[pos - 1]),
    ensures
        with_key(ranks, s, k) == s.insert(pos, k),
    decreases s.len(),
{
    if pos == s.len() {
        assert(s.insert(pos, k) =~= s.push(k));
    } else {
        lemma_insert_key(ranks, s.drop_last(), k, pos);
        assert(s.insert(pos, k) =~= s.drop_last().insert(pos, k).push(s.last()));
    }
}

fn copy_key(k: &KeyColumn) -> (r: KeyColumn)
    ensures
        r@ == k@,
{
    KeyColumn { name: k.name.clone(), rank: k.rank }
}

fn order_keys(ranks: &Vec<(String, i64)>, keys: &Vec<KeyColumn>) -> (r: Vec<KeyColumn>)
    ensures
        key_models(r@) == ordered_keys(rank_models(ranks@), key_models(keys@)),
{
    let ghost rs = rank_models(ranks@);
    let ghost ms = key_models(keys@);
    let mut out: Vec<KeyColumn> = Vec::new();
    let mut i: usize = 0;
    proof {
        assert(key_models(out@) =~= ordered_keys(rs, ms.take(0)));
    }
    while i < keys.len()
        invariant
            i <= keys@.len(),
            rs == rank_models(ranks@),
            ms == key_models(keys@),
            key_models(out@) == ordered_keys(rs, ms.take(i as int)),
        decreases keys.len() - i,
    {
        let mut pos: usize = out.len();
        while pos > 0 && comes_before(ranks, &keys[i], &out[pos - 1])
            invariant
                pos <= out@.len(),
                i < keys@.len(),
                rs == rank_models(ranks@),
                forall|j: int|
                    pos <= j < out@.len() ==> stands_before(
                        rs,
                        keys@[i as int]@,
                        #[trigger] key_models(out@)[j],
                    ),
            ensures
                pos <= out@.len(),
                forall|j: int|
                    pos <= j < out@.len() ==> stands_before(
                        rs,
                        keys@[i as int]@,
                        #[trigger] key_models(out@)[j],
                    ),
                pos > 0 ==> !stands_before(rs, keys@[i as int]@, key_models(out@)[pos - 1]),
            decreases pos,
        {
            pos -= 1;
        }
        let k = copy_key(&keys[i]);
        proof {
            lemma_insert_key(rs, key_models(out@), k@, pos as int);
            assert(ms.take(i + 1).drop_last() =~= ms.take(i as int));
            assert(ms.take(i + 1).last() == k@);
        }
        let ghost before = out@;
        out.insert(pos, k);
        proof {
            assert(key_models(out@) =~= key_models(before).insert(pos as int, k@));
        }
        i += 1;
    }
    proof {
        assert(ms.take(ms.len() as int) =~= ms);
    }
    out
}

// ---------------------------------------------------------------------------
// Cells and widths
// ---------------------------------------------------------------------------

/// What a row shows in a column: nothing where it has no tag of the type.
pub open spec fn cell_in(cells: Seq<(Seq<char>, Seq<char>)>, key: Seq<char>) -> Seq<char>
    decreases cells.len(),
{
    if cells.len() == 0 {
        Seq::empty()
    } else if cells[0].0 == key {
        cells[0].1
    } else {
        cell_in(cells.skip(1), key)
    }
}

/// What a row shows in all columns.
pub open spec fn row_values(keys: Seq<KeyModel>, row: ShownModel) -> Seq<Seq<char>> {
    keys.map_values(|k: KeyModel| cell_in(row.cells, k.name))
}

fn cell_of(item: &ShownItem, key: &str) -> (r: String)
    ensures
        r@ == cell_in(item@.cells, key@),
{
    let ghost cs = item@.cells;
    let mut i: usize = 0;
    proof {
        assert(cs.skip(0) =~= cs);
    }
    while i < item.cells.len()
        invariant
            i <= item.cells@.len(),
            cs == item@.cells,
            cell_in(cs, key@) == cell_in(cs.skip(i as int), key@),
        decreases item.cells.len() - i,
    {
        proof {
            assert(cs.skip(i as int)[0] == (item.cells@[i as int].0@, item.cells@[i as int].1@));
            assert(cs.skip(i as int).skip(1) =~= cs.skip(i + 1));
        }
        if text::str_eq(item.cells[i].0.as_str(), key) {
            return item.cells[i].1.clone();
        }
        i += 1;
    }
    proof {
        assert(cs.skip(cs.len() as int) =~= Seq::empty());
    }
    String::new()
}

fn values_of(keys: &Vec<KeyColumn>, item: &ShownItem) -> (r: Vec<String>)
    ensures
        text::texts(r@) == row_values(key_models(keys@), item@),
{
    let mut out: Vec<String> = Vec::new();
    let mut i: usize = 0;
    while i < keys.len()
        invariant
            i <= keys@.len(),
            out@.len() == i,
            forall|k: int|
                0 <= k < i ==> (#[trigger] out@[k])@ == cell_in(item@.cells, keys@[k].name@),
        decreases keys.len() - i,
    {
        out.push(cell_of(item, keys[i].name.as_str()));
        i += 1;
    }
    proof {
        assert(text::texts(out@) =~= row_values(key_models(keys@), item@));
    }
    out
}

pub open spec fn larger(a: usize, b: usize) -> usize {
    if a < b {
        b
    } else {
        a
    }
}

/// The width of a column: that of its widest text, of its name at least.
pub open spec fn column_width(key: Seq<char>, rows: Seq<ShownModel>) -> usize
    decreases rows.len(),
{
    if rows.len() == 0 {
        width::text_width(key)
    } else {
        larger(
            column_width(key, rows.drop_last()),
            width::text_width(cell_in(rows.last().cells, key)),
        )
    }
}

/// The width of the ids: that of the widest one, of their heading at least.
pub open spec fn id_width(rows: Seq<ShownModel>) -> usize
    decreases rows.len(),
{
    if rows.len() == 0 {
        7
    } else {
        larger(id_width(rows.drop_last()), width::text_width(rows.last().id))
    }
}

/// No text of a column is wider than the column.
pub proof fn law_columns_hold_their_texts(key: Seq<char>, rows: Seq<ShownModel>, i: int)
    requires
        0 <= i < rows.len(),
    ensures
        width::text_width(cell_in(rows[i].cells, key)) <= column_width(key, rows),
        width::text_width(rows[i].id) <= id_width(rows),
        width::text_width(key) <= column_width(key, rows),
        7 <= id_width(rows),
    decreases rows.len(),
{
    if i < rows.len() - 1 {
        law_columns_hold_their_texts(key, rows.drop_last(), i);
    } else if rows.len() > 1 {
        law_columns_hold_their_texts(key, rows.drop_last(), 0);
    } else {
        reveal_with_fuel(column_width, 2);
        reveal_with_fuel(id_width, 2);
    }
}

fn column_width_of(key: &str, items: &Vec<ShownItem>) -> (r: usize)
    ensures
        r == column_width(key@, shown_models(items@)),
{
    let ghost ms = shown_models(items@);
    let mut w = measure(key);
    let mut i: usize = 0;
    while i < items.len()
        invariant
            i <= items@.len(),
            ms == shown_models(items@),
            w == column_width(key@, ms.take(i as int)),
        decreases items.len() - i,
    {
        let c = cell_of(&items[i], key);
        let cw = measure(c.as_str());
        proof {
            assert(ms.take(i + 1).drop_last() =~= ms.take(i as int));
            assert(ms.take(i + 1).last() == items@[i as int]@);
        }
        if w < cw {
            w = cw;
        }
        i += 1;
    }
    proof {
        assert(ms.take(ms.len() as int) =~= ms);
    }
    w
}

fn id_width_of(items: &Vec<ShownItem>) -> (r: usize)
    ensures
        r == id_width(shown_models(items@)),
{
    let ghost ms = shown_models(items@);
    let mut w: usize = 7;
    let mut i: usize = 0;
    while i < items.len()
        invariant
            i <= items@.len(),
            ms == shown_models(items@),
            w == id_width(ms.take(i as int)),
        decreases items.len() - i,
    {
        let cw = measure(items[i].id.as_str());
        proof {
            assert(ms.take(i + 1).drop_last() =~= ms.take(i as int));
            assert(ms.take(i + 1).last() == items@[i as int]@);
        }
        if w < cw {
            w = cw;
        }
        i += 1;
    }
    proof {
        assert(ms.take(ms.len() as int) =~= ms);
    }
    w
}

// ---------------------------------------------------------------------------
// Lines
// ---------------------------------------------------------------------------

/// How the lines of a table are laid out: the columns of the terminal, whether they count,
/// the first column to show, and the widths of the ids and the columns.
pub struct Layout {
    pub width: usize,
    pub wide: bool,
    pub col_offset: usize,
    pub id_width: usize,
    pub widths: Vec<usize>,
}

#[verifier::ext_equal]
pub struct LayoutModel {
    pub width: usize,
    pub wide: bool,
    pub col_offset: usize,
    pub id_width: usize,
    pub widths: Seq<usize>,
}

impl View for Layout {
    type V = LayoutModel;

    open spec fn view(&self) -> LayoutModel {
        LayoutModel {
            width: self.width,
            wide: self.wide,
            col_offset: self.col_offset,
            id_width: self.id_width,
            widths: self.widths@,
        }
    }
}

/// A text as it stands in the heading or in a row.
pub open spec fn styled(header: bool, s: Seq<char>) -> Seq<char> {
    if header {
        "\x1b[1m"@ + s + "\x1b[0m"@
    } else {
        s
    }
}

fn style(header: bool, s: &str) -> (r: String)
    ensures
        r@ == styled(header, s@),
{
    if header {
        text::cat3("\x1b[1m", s, "\x1b[0m")
    } else {
        s.to_string()
    }
}

/// The lines of a text that does not fit, each below the other.
pub open spec fn wrapped_lines(header: bool, s: Seq<char>, width: usize, indent: usize) -> Seq<
    Seq<char>,
> {
    let lines = width::wrapped(s, width, width);
    Seq::new(
        lines.len(),
        |i: int|
            if i == 0 {
                styled(header, lines[i])
            } else {
                width::spaces(indent as nat) + styled(header, lines[i])
            },
    )
}

fn wrap_lines(header: bool, s: &str, width: usize, indent: usize) -> (r: String)
    ensures
        r@ == text::joined(wrapped_lines(header, s@, width, indent), "\n"@),
{
    let lines = wrap_text_slices(s, width, width);
    let ghost ms = width::wrapped(s@, width, width);
    let ghost want = wrapped_lines(header, s@, width, indent);
    let mut out: Vec<String> = Vec::new();
    let mut i: usize = 0;
    while i < lines.len()
        invariant
            i <= lines@.len(),
            text::texts(lines@) == ms,
            ms == width::wrapped(s@, width, width),
            want == wrapped_lines(header, s@, width, indent),
            out@.len() == i,
            forall|k: int| 0 <= k < i ==> (#[trigger] out@[k])@ == want[k],
        decreases lines.len() - i,
    {
        proof {
            assert(ms[i as int] == lines@[i as int]@);
        }
        let line = style(header, lines[i].as_str());
        if i == 0 {
            out.push(line);
        } else {
            let mut padded = spaces_of(indent);
            padded.append(line.as_str());
            out.push(padded);
        }
        i += 1;
    }
    proof {
        assert(ms.len() == lines@.len());
        assert(text::texts(out@) =~= want);
    }
    text::join(&out, "\n")
}

/// What a line shows from the column `i` on, where `w` columns of the terminal are taken, and
/// the first column that it leaves to the next page.
pub open spec fn columns_from(
    l: LayoutModel,
    header: bool,
    values: Seq<Seq<char>>,
    i: int,
    w: usize,
) -> (Seq<char>, Option<usize>)
    decreases values.len() - i,
{
    if i < 0 || i >= values.len() {
        (Seq::empty(), None)
    } else {
        let target = l.widths[i];
        let available = width::less(l.width, width::sat(w, 2));
        if !l.wide && i == l.col_offset && target > available {
            (
                "  "@ + text::joined(
                    wrapped_lines(header, values[i], available, width::sat(w, 2)),
                    "\n"@,
                ),
                if i + 1 < values.len() {
                    Some((i + 1) as usize)
                } else {
                    None
                },
            )
        } else if !l.wide && width::sat(width::sat(w, 2), target) > l.width {
            (
                if width::sat(w, 5) <= l.width {
                    "  ..."@
                } else {
                    Seq::empty()
                },
                Some(
                    if i == l.col_offset {
                        (i + 1) as usize
                    } else {
                        i as usize
                    },
                ),
            )
        } else {
            let out = width::padded(values[i], target);
            let rest = columns_from(
                l,
                header,
                values,
                i + 1,
                width::sat(width::sat(w, 2), width::text_width(out)),
            );
            ("  "@ + styled(header, out) + rest.0, rest.1)
        }
    }
}

/// A line: the id, dots where columns were left out before, and the columns. A terminal
/// without columns shows nothing.
pub open spec fn line_of(l: LayoutModel, header: bool, id: Seq<char>, values: Seq<Seq<char>>) -> (
    Seq<char>,
    Option<usize>,
) {
    if l.width == 0 {
        (Seq::empty(), None)
    } else {
        let shown = if l.id_width <= l.width {
            width::padded(id, l.id_width)
        } else {
            width::truncated(id, l.width)
        };
        let w = width::text_width(shown);
        let dots = l.col_offset > 0 && width::sat(w, 5) <= l.width;
        let cols = columns_from(
            l,
            header,
            values,
            l.col_offset as int,
            if dots {
                width::sat(w, 5)
            } else {
                w
            },
        );
        (
            styled(header, shown) + (if dots {
                "  ..."@
            } else {
                Seq::empty()
            }) + cols.0 + "\n"@,
            cols.1,
        )
    }
}

proof fn lemma_next_column(
    l: LayoutModel,
    header: bool,
    values: Seq<Seq<char>>,
    i: int,
    w: usize,
)
    requires
        l.col_offset <= i,
        values.len() <= usize::MAX,
    ensures
        columns_from(l, header, values, i, w).1 matches Some(n) ==> l.col_offset < n
            <= values.len(),
        l.wide ==> columns_from(l, header, values, i, w).1 is None,
    decreases values.len() - i,
{
    if i < values.len() {
        let target = l.widths[i];
        let out = width::padded(values[i], target);
        lemma_next_column(
            l,
            header,
            values,
            i + 1,
            width::sat(width::sat(w, 2), width::text_width(out)),
        );
    }
}

/// Going on to the next columns makes progress, and a table that ignores the width of the
/// terminal has no next columns.
pub proof fn law_next_columns_are_further_on(
    l: LayoutModel,
    header: bool,
    id: Seq<char>,
    values: Seq<Seq<char>>,
)
    requires
        values.len() <= usize::MAX,
    ensures
        line_of(l, header, id, values).1 matches Some(n) ==> l.col_offset < n <= values.len(),
        l.wide ==> line_of(l, header, id, values).1 is None,
{
    if l.width != 0 {
        let shown = if l.id_width <= l.width {
            width::padded(id, l.id_width)
        } else {
            width::truncated(id, l.width)
        };
        let w = width::text_width(shown);
        lemma_next_column(l, header, values, l.col_offset as int, w);
        lemma_next_column(l, header, values, l.col_offset as int, width::sat(w, 5));
    }
}

fn print_columns(l: &Layout, header: bool, values: &Vec<String>, start: usize, out: &mut String) -> (r:
    Option<usize>)
    requires
        l.widths@.len() == values@.len(),
    ensures
        ({
            let want = columns_from(
                l@,
                header,
                text::texts(values@),
                l.col_offset as int,
                start,
            );
            final(out)@ == old(out)@ + want.0 && r == want.1
        }),
{
    let ghost vs = text::texts(values@);
    let ghost want = columns_from(l@, header, vs, l.col_offset as int, start);
    let ghost before = out@;
    let mut w = start;
    let mut i = l.col_offset;
    proof {
        assert(out@ + want.0 =~= before + want.0);
    }
    while i < values.len()
        invariant
            l.widths@.len() == values@.len(),
            vs == text::texts(values@),
            l.col_offset <= i,
            before == old(out)@,
            want == columns_from(l@, header, vs, l.col_offset as int, start),
            out@ + columns_from(l@, header, vs, i as int, w).0 == before + want.0,
            columns_from(l@, header, vs, i as int, w).1 == want.1,
        decreases values.len() - i,
    {
        let target = l.widths[i];
        let taken = plus(w, 2);
        let available = minus(l.width, taken);
        proof {
            assert(vs[i as int] == values@[i as int]@);
        }
        if !l.wide && i == l.col_offset && target > available {
            let lines = wrap_lines(header, values[i].as_str(), available, taken);
            let ghost now = out@;
            out.append("  ");
            out.append(lines.as_str());
            proof {
                assert(out@ =~= now + columns_from(l@, header, vs, i as int, w).0);
            }
            if i + 1 < values.len() {
                return Some(i + 1);
            }
            return None;
        }
        if !l.wide && plus(taken, target) > l.width {
            let ghost now = out@;
            if plus(w, 5) <= l.width {
                out.append("  ...");
            }
            proof {
                assert(out@ =~= now + columns_from(l@, header, vs, i as int, w).0);
            }
            if i == l.col_offset {
                return Some(i + 1);
            }
            return Some(i);
        }
        let cell = pad(values[i].as_str(), target);
        let shown = style(header, cell.as_str());
        let ghost now = out@;
        out.append("  ");
        out.append(shown.as_str());
        let next = plus(taken, measure(cell.as_str()));
        proof {
            assert(out@ + columns_from(l@, header, vs, i + 1, next).0 =~= now + columns_from(
                l@,
                header,
                vs,
                i as int,
                w,
            ).0);
        }
        w = next;
        i += 1;
    }
    proof {
        assert(out@ =~= out@ + columns_from(l@, header, vs, i as int, w).0);
    }
    None
}

fn print_line(l: &Layout, header: bool, id: &str, values: &Vec<String>, out: &mut String) -> (r:
    Option<usize>)
    requires
        l.widths@.len() == values@.len(),
    ensures
        ({
            let want = line_of(l@, header, id@, text::texts(values@));
            final(out)@ == old(out)@ + want.0 && r == want.1
        }),
{
    let ghost before = out@;
    let ghost want = line_of(l@, header, id@, text::texts(values@));
    if l.width == 0 {
        proof {
            assert(out@ =~= before + want.0);
        }
        return None;
    }
    let shown = if l.id_width <= l.width {
        pad(id, l.id_width)
    } else {
        truncate_text(id, l.width)
    };
    let styled_id = style(header, shown.as_str());
    out.append(styled_id.as_str());
    let mut w = measure(shown.as_str());
    if l.col_offset > 0 && plus(w, 5) <= l.width {
        out.append("  ...");
        w = plus(w, 5);
    }
    let next = print_columns(l, header, values, w, out);
    out.append("\n");
    proof {
        assert(out@ =~= before + want.0);
    }
    next
}

/// The lines of some rows, and the last first column that one of them leaves to the next
/// page.
pub open spec fn rows_of(l: LayoutModel, keys: Seq<KeyModel>, rows: Seq<ShownModel>) -> (
    Seq<char>,
    Option<usize>,
)
    decreases rows.len(),
{
    if rows.len() == 0 {
        line_of(l, true, "item_id"@, keys.map_values(|k: KeyModel| k.name))
    } else {
        let before = rows_of(l, keys, rows.drop_last());
        let line = line_of(l, false, rows.last().id, row_values(keys, rows.last()));
        (
            before.0 + line.0,
            if line.1 is Some {
                line.1
            } else {
                before.1
            },
        )
    }
}

/// What is said of the columns that a page does not show.
#[derive(Clone, Copy, Debug, PartialEq, Eq, Structural)]
pub struct ColumnPagingInfo {
    pub has_next: bool,
    pub next_col_offset: usize,
    pub has_prev: bool,
}

impl Default for ColumnPagingInfo {
    fn default() -> (r: Self)
        ensures
            r == (ColumnPagingInfo { has_next: false, next_col_offset: 0, has_prev: false }),
    {
        ColumnPagingInfo { has_next: false, next_col_offset: 0, has_prev: false }
    }
}

/// How the lines of a group are laid out, for its columns in their order.
pub open spec fn layout_of(
    width: usize,
    wide: bool,
    col_offset: usize,
    keys: Seq<KeyModel>,
    rows: Seq<ShownModel>,
) -> LayoutModel {
    LayoutModel {
        width,
        wide,
        col_offset,
        id_width: id_width(rows),
        widths: keys.map_values(|k: KeyModel| column_width(k.name, rows)),
    }
}

/// A group as a table: a heading, a line for each item and an empty line.
pub open spec fn group_of(
    ranks: Seq<(Seq<char>, i64)>,
    g: GroupModel,
    width: usize,
    wide: bool,
    col_offset: usize,
) -> (Seq<char>, Option<usize>) {
    let keys = ordered_keys(ranks, g.keys);
    let lines = rows_of(layout_of(width, wide, col_offset, keys, g.items), keys, g.items);
    (lines.0 + "\n"@, lines.1)
}

/// What is said of further columns after one more group: the first group that has some says
/// where they begin.
pub open spec fn with_group(info: ColumnPagingInfo, next: Option<usize>) -> ColumnPagingInfo {
    match next {
        None => info,
        Some(n) => ColumnPagingInfo {
            has_next: true,
            next_col_offset: if info.next_col_offset == 0 {
                n
            } else {
                info.next_col_offset
            },
            ..info
        },
    }
}

/// Some groups as tables, one below the other.
pub open spec fn groups_of(
    ranks: Seq<(Seq<char>, i64)>,
    gs: Seq<GroupModel>,
    width: usize,
    wide: bool,
    col_offset: usize,
) -> (Seq<char>, ColumnPagingInfo)
    decreases gs.len(),
{
    if gs.len() == 0 {
        (
            Seq::empty(),
            ColumnPagingInfo { has_next: false, next_col_offset: 0, has_prev: col_offset > 0 },
        )
    } else {
        let before = groups_of(ranks, gs.drop_last(), width, wide, col_offset);
        let g = group_of(ranks, gs.last(), width, wide, col_offset);
        (before.0 + g.0, with_group(before.1, g.1))
    }
}

proof fn lemma_rows_next(l: LayoutModel, keys: Seq<KeyModel>, rows: Seq<ShownModel>)
    requires
        keys.len() <= usize::MAX,
    ensures
        rows_of(l, keys, rows).1 matches Some(n) ==> l.col_offset < n <= keys.len(),
        l.wide ==> rows_of(l, keys, rows).1 is None,
    decreases rows.len(),
{
    if rows.len() == 0 {
        law_next_columns_are_further_on(
            l,
            true,
            "item_id"@,
            keys.map_values(|k: KeyModel| k.name),
        );
    } else {
        lemma_rows_next(l, keys, rows.drop_last());
        law_next_columns_are_further_on(l, false, rows.last().id, row_values(keys, rows.last()));
    }
}

/// Where tables say that there are further columns, those begin behind the first column that
/// is shown now; tables that ignore the width of the terminal show all columns.
pub proof fn law_paging_makes_progress(
    ranks: Seq<(Seq<char>, i64)>,
    gs: Seq<GroupModel>,
    width: usize,
    wide: bool,
    col_offset: usize,
)
    requires
        forall|i: int| 0 <= i < gs.len() ==> (#[trigger] gs[i]).keys.len() <= usize::MAX,
    ensures
        ({
            let info = groups_of(ranks, gs, width, wide, col_offset).1;
            &&& info.has_prev == (col_offset > 0)
            &&& info.has_next ==> info.next_col_offset > col_offset
            &&& !info.has_next ==> info.next_col_offset == 0
            &&& wide ==> !info.has_next
        }),
    decreases gs.len(),
{
    if gs.len() > 0 {
        assert forall|i: int| 0 <= i < gs.drop_last().len() implies (#[trigger] gs.drop_last()[i])
            .keys.len() <= usize::MAX by {
            assert(gs.drop_last()[i] == gs[i]);
        }
        law_paging_makes_progress(ranks, gs.drop_last(), width, wide, col_offset);
        let g = gs.last();
        assert(g == gs[gs.len() - 1]);
        let keys = ordered_keys(ranks, g.keys);
        law_columns_are_ordered(ranks, g.keys);
        lemma_rows_next(layout_of(width, wide, col_offset, keys, g.items), keys, g.items);
    }
}

fn layout_for(
    width: usize,
    wide: bool,
    col_offset: usize,
    keys: &Vec<KeyColumn>,
    items: &Vec<ShownItem>,
) -> (r: Layout)
    ensures
        r@ == layout_of(width, wide, col_offset, key_models(keys@), shown_models(items@)),
{
    let ghost rows = shown_models(items@);
    let mut widths: Vec<usize> = Vec::new();
    let mut i: usize = 0;
    while i < keys.len()
        invariant
            i <= keys@.len(),
            rows == shown_models(items@),
            widths@.len() == i,
            forall|k: int|
                0 <= k < i ==> #[trigger] widths@[k] == column_width(keys@[k].name@, rows),
        decreases keys.len() - i,
    {
        widths.push(column_width_of(keys[i].name.as_str(), items));
        i += 1;
    }
    let l = Layout { width, wide, col_offset, id_width: id_width_of(items), widths };
    proof {
        assert(l@ =~= layout_of(width, wide, col_offset, key_models(keys@), rows));
    }
    l
}

fn names_of(keys: &Vec<KeyColumn>) -> (r: Vec<String>)
    ensures
        text::texts(r@) == key_models(keys@).map_values(|k: KeyModel| k.name),
{
    let mut out: Vec<String> = Vec::new();
    let mut i: usize = 0;
    while i < keys.len()
        invariant
            i <= keys@.len(),
            out@.len() == i,
            forall|k: int| 0 <= k < i ==> (#[trigger] out@[k])@ == keys@[k].name@,
        decreases keys.len() - i,
    {
        out.push(keys[i].name.clone());
        i += 1;
    }
    proof {
        assert(text::texts(out@) =~= key_models(keys@).map_values(|k: KeyModel| k.name));
    }
    out
}

fn print_group(
    ranks: &Vec<(String, i64)>,
    g: &TypeGroup,
    width: usize,
    wide: bool,
    col_offset: usize,
    out: &mut String,
) -> (r: Option<usize>)
    ensures
        ({
            let want = group_of(rank_models(ranks@), g@, width, wide, col_offset);
            final(out)@ == old(out)@ + want.0 && r == want.1
        }),
{
    let keys = order_keys(ranks, &g.keys);
    let ghost ks = key_models(keys@);
    let ghost rows = shown_models(g.items@);
    let ghost before = out@;
    let l = layout_for(width, wide, col_offset, &keys, &g.items);
    let names = names_of(&keys);
    proof {
        assert(names@.len() == text::texts(names@).len());
        assert(ks.len() == keys@.len());
    }
    let mut next = print_line(&l, true, "item_id", &names, out);
    let mut i: usize = 0;
    proof {
        assert(rows.take(0) =~= Seq::empty());
    }
    while i < g.items.len()
        invariant
            i <= g.items@.len(),
            ks == key_models(keys@),
            rows == shown_models(g.items@),
            l@ == layout_of(width, wide, col_offset, ks, rows),
            out@ == before + rows_of(l@, ks, rows.take(i as int)).0,
            next == rows_of(l@, ks, rows.take(i as int)).1,
        decreases g.items.len() - i,
    {
        let values = values_of(&keys, &g.items[i]);
        proof {
            assert(values@.len() == text::texts(values@).len());
            assert(rows.take(i + 1).drop_last() =~= rows.take(i as int));
            assert(rows.take(i + 1).last() == g.items@[i as int]@);
        }
        let n = print_line(&l, false, g.items[i].id.as_str(), &values, out);
        if n.is_some() {
            next = n;
        }
        proof {
            assert(out@ =~= before + rows_of(l@, ks, rows.take(i + 1)).0);
        }
        i += 1;
    }
    out.append("\n");
    proof {
        assert(rows.take(rows.len() as int) =~= rows);
        assert(out@ =~= before + group_of(
            rank_models(ranks@),
            g@,
            width,
            wide,
            col_offset,
        ).0);
    }
    next
}

pub open spec fn group_models(v: Seq<TypeGroup>) -> Seq<GroupModel> {
    v.map_values(|g: TypeGroup| g@)
}

/// Shows some groups as tables, one below the other.
pub fn print_groups(
    ranks: &Vec<(String, i64)>,
    groups: &Vec<TypeGroup>,
    width: usize,
    wide: bool,
    col_offset: usize,
    out: &mut String,
) -> (r: ColumnPagingInfo)
    ensures
        ({
            let want = groups_of(
                rank_models(ranks@),
                group_models(groups@),
                width,
                wide,
                col_offset,
            );
            final(out)@ == old(out)@ + want.0 && r == want.1
        }),
{
    let ghost rs = rank_models(ranks@);
    let ghost gs = group_models(groups@);
    let ghost before = out@;
    let mut info = ColumnPagingInfo {
        has_next: false,
        next_col_offset: 0,
        has_prev: col_offset > 0,
    };
    let mut i: usize = 0;
    proof {
        assert(out@ =~= before + groups_of(rs, gs.take(0), width, wide, col_offset).0);
    }
    while i < groups.len()
        invariant
            i <= groups@.len(),
            rs == rank_models(ranks@),
            gs == group_models(groups@),
            out@ == before + groups_of(rs, gs.take(i as int), width, wide, col_offset).0,
            info == groups_of(rs, gs.take(i as int), width, wide, col_offset).1,
        decreases groups.len() - i,
    {
        let next = print_group(ranks, &groups[i], width, wide, col_offset, out);
        proof {
            assert(gs.take(i + 1).drop_last() =~= gs.take(i as int));
            assert(gs.take(i + 1).last() == groups@[i as int]@);
            assert(out@ =~= before + groups_of(rs, gs.take(i + 1), width, wide, col_offset).0);
        }
        if let Some(n) = next {
            info.has_next = true;
            if info.next_col_offset == 0 {
                info.next_col_offset = n;
            }
        }
        i += 1;
    }
    proof {
        assert(gs.take(gs.len() as int) =~= gs);
    }
    info
}

/// What a row shows in a column is what its first cell of that type says; a row without such a
/// cell shows nothing.
pub proof fn law_first_cell_is_shown(cells: Seq<(Seq<char>, Seq<char>)>, key: Seq<char>, k: int)
    requires
        0 <= k < cells.len(),
        forall|i: int| 0 <= i < k ==> (#[trigger] cells[i]).0 != key,
    ensures
        cells[k].0 == key ==> cell_in(cells, key) == cells[k].1,
        k == cells.len() - 1 && cells[k].0 != key ==> cell_in(cells, key).len() == 0,
    decreases cells.len(),
{
    let rest = cells.skip(1);
    if k > 0 {
        assert(cells[0].0 != key);
        assert forall|i: int| 0 <= i < k - 1 implies (#[trigger] rest[i]).0 != key by {
            assert(rest[i] == cells[i + 1]);
        }
        law_first_cell_is_shown(rest, key, k - 1);
        assert(rest[k - 1] == cells[k]);
    } else if cells.len() == 1 {
        assert(rest.len() == 0);
        assert(cell_in(rest, key) =~= Seq::<char>::empty());
    }
}

/// A column has the rank that users gave to its type, and its own where they gave none or zero.
pub proof fn law_given_ranks_count(ranks: Seq<(Seq<char>, i64)>, key: KeyModel, k: int)
    requires
        0 <= k < ranks.len(),
        forall|i: int| 0 <= i < k ==> (#[trigger] ranks[i]).0 != key.name,
    ensures
        ranks[k].0 == key.name && ranks[k].1 != 0 ==> rank_of(ranks, key) == ranks[k].1,
        ranks[k].0 == key.name && ranks[k].1 == 0 ==> rank_of(ranks, key) == key.rank,
        k == ranks.len() - 1 && ranks[k].0 != key.name ==> rank_of(ranks, key) == key.rank,
    decreases ranks.len(),
{
    let rest = ranks.skip(1);
    if k > 0 {
        assert(ranks[0].0 != key.name);
        assert forall|i: int| 0 <= i < k - 1 implies (#[trigger] rest[i]).0 != key.name by {
            assert(rest[i] == ranks[i + 1]);
        }
        law_given_ranks_count(rest, key, k - 1);
        assert(rest[k - 1] == ranks[k]);
    } else if ranks.len() == 1 {
        assert(rest.len() == 0);
        assert(given_rank(rest, key.name) is None);
    }
}

/// Whether a text stands in a line at a place.
pub open spec fn stands_at(line: Seq<char>, at: int, s: Seq<char>) -> bool {
    0 <= at && at + s.len() <= line.len() && line.subrange(at, at + s.len()) == s
}

/// A line of a table shows every column from the first one that is asked for up to the one that
/// the next page starts with, or to the last, with its text in full, where there is room for the
/// first one; and a line starts with the id, where there is room for it. The result is where the
/// text of the column `k` stands.
pub proof fn law_lines_show_their_columns(
    l: LayoutModel,
    id: Seq<char>,
    values: Seq<Seq<char>>,
    k: int,
) -> (at: int)
    requires
        l.width > 0,
        l.widths.len() == values.len(),
        values.len() <= usize::MAX,
        l.col_offset <= k < values.len(),
        l.wide || (width::sat(first_taken(l, id), 2) <= l.width && l.widths[l.col_offset as int]
            <= width::less(l.width, width::sat(first_taken(l, id), 2))),
        match line_of(l, false, id, values).1 {
            Some(n) => k < n,
            None => true,
        },
    ensures
        stands_at(line_of(l, false, id, values).0, at, values[k]),
        l.id_width <= l.width ==> stands_at(line_of(l, false, id, values).0, 0, id),
{
    let shown = if l.id_width <= l.width {
        width::padded(id, l.id_width)
    } else {
        width::truncated(id, l.width)
    };
    let w = width::text_width(shown);
    let dots = l.col_offset > 0 && width::sat(w, 5) <= l.width;
    let head = shown + (if dots {
        "  ..."@
    } else {
        Seq::empty()
    });
    let cols = columns_from(l, false, values, l.col_offset as int, first_taken(l, id));
    let line = line_of(l, false, id, values).0;
    assert(line =~= head + cols.0 + "\n"@);
    if l.id_width <= l.width {
        assert(line.subrange(0, id.len() as int) =~= id);
    }
    let at = lemma_columns_show(l, values, l.col_offset as int, first_taken(l, id), k);
    assert(cols.0.subrange(at, at + values[k].len()) == values[k]);
    assert(line.subrange(head.len() + at, head.len() + at + values[k].len()) =~= cols.0.subrange(
        at,
        at + values[k].len(),
    ));
    head.len() + at
}

/// The columns of the terminal that a line takes before its first column.
pub open spec fn first_taken(l: LayoutModel, id: Seq<char>) -> usize {
    let shown = if l.id_width <= l.width {
        width::padded(id, l.id_width)
    } else {
        width::truncated(id, l.width)
    };
    let w = width::text_width(shown);
    if l.col_offset > 0 && width::sat(w, 5) <= l.width {
        width::sat(w, 5)
    } else {
        w
    }
}

proof fn lemma_columns_show(
    l: LayoutModel,
    values: Seq<Seq<char>>,
    i: int,
    w: usize,
    k: int,
) -> (at: int)
    requires
        l.widths.len() == values.len(),
        values.len() <= usize::MAX,
        l.col_offset <= i <= k < values.len(),
        l.wide || i > l.col_offset || (width::sat(w, 2) <= l.width && l.widths[i] <= width::less(
            l.width,
            width::sat(w, 2),
        )),
        match columns_from(l, false, values, i, w).1 {
            Some(n) => k < n,
            None => true,
        },
    ensures
        stands_at(columns_from(l, false, values, i, w).0, at, values[k]),
    decreases values.len() - i,
{
    reveal_strlit("  ");
    let target = l.widths[i];
    let here = columns_from(l, false, values, i, w).0;
    let out = width::padded(values[i], target);
    let next = width::sat(width::sat(w, 2), width::text_width(out));
    let rest = columns_from(l, false, values, i + 1, next);
    assert(here == "  "@ + out + rest.0);
    if k == i {
        assert(here.subrange(2, 2int + values[k].len()) =~= values[k]);
        2
    } else {
        let at = lemma_columns_show(l, values, i + 1, next, k);
        assert(here.subrange(2 + out.len() + at, 2 + out.len() + at + values[k].len())
            =~= rest.0.subrange(at, at + values[k].len()));
        2 + out.len() + at
    }
}

} // verus!
