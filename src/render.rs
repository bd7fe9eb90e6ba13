use vstd::prelude::*;
use vstd::string::*;

verus! {

/// The decimal digit for `d`, for `d < 10`.
pub open spec fn digit_char(d: nat) -> char {
    seq!['0', '1', '2', '3', '4', '5', '6', '7', '8', '9'][d as int]
}

/// The decimal representation of `n`, without leading zeros.
pub open spec fn decimal(n: nat) -> Seq<char>
    decreases n,
{
    if n < 10 {
        seq![digit_char(n)]
    } else {
        decimal(n / 10).push(digit_char(n % 10))
    }
}

/// `n` blanks.
pub open spec fn spaces(n: nat) -> Seq<char> {
    Seq::new(n, |_k: int| ' ')
}

/// The length of the longest of the first `n` texts of `row`.
pub open spec fn row_width(row: Seq<Seq<char>>, n: nat) -> nat
    decreases n,
{
    if n == 0 {
        0
    } else {
        let w = row_width(row, (n - 1) as nat);
        if row[n - 1].len() > w {
            row[n - 1].len()
        } else {
            w
        }
    }
}

/// The length of the longest text in the first `n` rows of `cells`.
pub open spec fn grid_width(cells: Seq<Seq<Seq<char>>>, n: nat) -> nat
    decreases n,
{
    if n == 0 {
        0
    } else {
        let w = grid_width(cells, (n - 1) as nat);
        let r = row_width(cells[n - 1], cells[n - 1].len());
        if r > w {
            r
        } else {
            w
        }
    }
}

/// The width every cell is padded to: that of the longest text in the grid.
pub open spec fn cell_width(cells: Seq<Seq<Seq<char>>>) -> nat {
    grid_width(cells, cells.len())
}

/// Blanks written before column `j`'s label in the header. Each label starts
/// above its column's `|` separator, cells being `w` wide, unless the previous
/// label reaches that point; then it follows after one blank.
pub open spec fn label_gap(j: nat, w: nat) -> nat {
    if j == 0 {
        w
    } else if decimal((j - 1) as nat).len() <= w {
        (w + 1 - decimal((j - 1) as nat).len()) as nat
    } else {
        1
    }
}

/// The labels of the first `n` columns, each after its gap.
pub open spec fn header_labels(n: nat, w: nat) -> Seq<char>
    decreases n,
{
    if n == 0 {
        Seq::empty()
    } else {
        header_labels((n - 1) as nat, w) + spaces(label_gap((n - 1) as nat, w)) + decimal(
            (n - 1) as nat,
        )
    }
}

/// The header line: blanks over the row label and its `│`, then the column labels.
pub open spec fn header_line(ncols: nat, w: nat) -> Seq<char> {
    spaces(2) + header_labels(ncols, w) + seq!['\n']
}

/// One cell: right-aligned to width `w`, followed by a `|` separator.
pub open spec fn padded(text: Seq<char>, w: nat) -> Seq<char> {
    spaces((w - text.len()) as nat) + text + seq!['|']
}

/// The first `n` cells of a row, padded to width `w`.
pub open spec fn row_cells(row: Seq<Seq<char>>, w: nat, n: nat) -> Seq<char>
    decreases n,
{
    if n == 0 {
        Seq::empty()
    } else {
        row_cells(row, w, (n - 1) as nat) + padded(row[n - 1], w)
    }
}

/// Data line `i`: its index, a `│`, then its cells.
pub open spec fn row_line(i: nat, row: Seq<Seq<char>>, w: nat) -> Seq<char> {
    decimal(i) + seq!['│'] + row_cells(row, w, row.len()) + seq!['\n']
}

/// The first `n` data lines.
pub open spec fn body_lines(cells: Seq<Seq<Seq<char>>>, w: nat, n: nat) -> Seq<char>
    decreases n,
{
    if n == 0 {
        Seq::empty()
    } else {
        body_lines(cells, w, (n - 1) as nat) + row_line((n - 1) as nat, cells[n - 1], w)
    }
}

/// The whole rendering of a grid of cell texts: the header, then one line per row.
pub open spec fn layout(cells: Seq<Seq<Seq<char>>>) -> Seq<char> {
    let w = cell_width(cells);
    header_line(cells[0].len(), w) + body_lines(cells, w, cells.len())
}

/// The texts of a grid of strings.
pub open spec fn texts(cells: Seq<Vec<String>>) -> Seq<Seq<Seq<char>>> {
    cells.map_values(|row: Vec<String>| row@.map_values(|s: String| s@))
}

/// True when every row of `cells` has `ncols` entries.
pub open spec fn has_cols(cells: Seq<Seq<Seq<char>>>, ncols: nat) -> bool {
    forall|i: int| 0 <= i < cells.len() ==> (#[trigger] cells[i]).len() == ncols
}

fn digit_text(d: usize) -> (r: &'static str)
    requires
        d < 10,
    ensures
        r@ == seq![digit_char(d as nat)],
{
    proof {
        reveal_strlit("0");
        reveal_strlit("1");
        reveal_strlit("2");
        reveal_strlit("3");
        reveal_strlit("4");
        reveal_strlit("5");
        reveal_strlit("6");
        reveal_strlit("7");
        reveal_strlit("8");
        reveal_strlit("9");
    }
    let r = match d {
        0 => "0",
        1 => "1",
        2 => "2",
        3 => "3",
        4 => "4",
        5 => "5",
        6 => "6",
        7 => "7",
        8 => "8",
        _ => "9",
    };
    assert(r@ =~= seq![digit_char(d as nat)]);
    r
}

/// Appends the decimal representation of `n`.
fn push_decimal(out: &mut String, n: usize)
    ensures
        final(out)@ == old(out)@ + decimal(n as nat),
    decreases n,
{
    if n >= 10 {
        push_decimal(out, n / 10);
    }
    out.append(digit_text(n % 10));
    assert(final(out)@ =~= old(out)@ + decimal(n as nat));
}

/// The number of digits in the decimal representation of `n`.
fn decimal_len(n: usize) -> (r: usize)
    ensures
        r == decimal(n as nat).len(),
        1 <= r <= n as int + 1,
    decreases n,
{
    if n < 10 {
        1
    } else {
        decimal_len(n / 10) + 1
    }
}

/// Appends `n` blanks.
fn push_spaces(out: &mut String, n: usize)
    ensures
        final(out)@ == old(out)@ + spaces(n as nat),
{
    let mut k: usize = 0;
    while k < n
        invariant
            k <= n,
            out@ == old(out)@ + spaces(k as nat),
        decreases n - k,
    {
        proof {
            reveal_strlit(" ");
        }
        out.append(" ");
        k += 1;
        assert(out@ =~= old(out)@ + spaces(k as nat));
    }
}

proof fn lemma_row_width_bound(row: Seq<Seq<char>>, n: nat, j: int)
    requires
        0 <= j < n,
        n <= row.len(),
    ensures
        row[j].len() <= row_width(row, n),
    decreases n,
{
    if j < n - 1 {
        lemma_row_width_bound(row, (n - 1) as nat, j);
    }
}

/// No cell text is longer than the grid's cell width.
proof fn lemma_grid_width_bound(cells: Seq<Seq<Seq<char>>>, n: nat, i: int, j: int)
    requires
        0 <= i < n,
        n <= cells.len(),
        0 <= j < cells[i].len(),
    ensures
        cells[i][j].len() <= grid_width(cells, n),
    decreases n,
{
    if i < n - 1 {
        lemma_grid_width_bound(cells, (n - 1) as nat, i, j);
    } else {
        lemma_row_width_bound(cells[i], cells[i].len(), j);
    }
}

/// Renders a grid of cell texts: a header line with column indices, then one
/// line per row holding the row index, a `│`, and each cell right-aligned to
/// the width of the longest text in the whole grid and followed by a `|`.
pub fn render_grid(cells: &Vec<Vec<String>>) -> (r: String)
    requires
        cells@.len() >= 1,
        has_cols(texts(cells@), cells@[0]@.len()),
    ensures
        r@ == layout(texts(cells@)),
{
    let ghost t = texts(cells@);
    let nrows = cells.len();
    let ncols = cells[0].len();
    assert(t[0].len() == ncols);

    let mut w: usize = 0;
    let mut i: usize = 0;
    while i < nrows
        invariant
            i <= nrows,
            nrows == cells@.len(),
            t == texts(cells@),
            has_cols(t, ncols as nat),
            w == grid_width(t, i as nat),
        decreases nrows - i,
    {
        let row = &cells[i];
        assert(t[i as int] == row@.map_values(|s: String| s@));
        assert(t[i as int].len() == ncols);
        let mut rw: usize = 0;
        let mut j: usize = 0;
        while j < ncols
            invariant
                j <= ncols,
                row@.len() == ncols,
                t[i as int] == row@.map_values(|s: String| s@),
                rw == row_width(t[i as int], j as nat),
            decreases ncols - j,
        {
            let len = row[j].as_str().unicode_len();
            assert(t[i as int][j as int] == row@[j as int]@);
            if len > rw {
                rw = len;
            }
            j += 1;
        }
        if rw > w {
            w = rw;
        }
        i += 1;
    }
    assert(w == cell_width(t));

    let mut out = String::new();
    push_spaces(&mut out, 2);
    let mut j: usize = 0;
    while j < ncols
        invariant
            j <= ncols,
            out@ == spaces(2) + header_labels(j as nat, w as nat),
        decreases ncols - j,
    {
        let gap: usize = if j == 0 {
            w
        } else {
            let d = decimal_len(j - 1);
            if d <= w {
                w - d + 1
            } else {
                1
            }
        };
        assert(gap == label_gap(j as nat, w as nat));
        push_spaces(&mut out, gap);
        push_decimal(&mut out, j);
        j += 1;
        assert(out@ =~= spaces(2) + header_labels(j as nat, w as nat));
    }
    proof {
        reveal_strlit("\n");
    }
    out.append("\n");
    assert(out@ =~= header_line(ncols as nat, w as nat));

    let ghost head = out@;
    let mut i: usize = 0;
    while i < nrows
        invariant
            i <= nrows,
            nrows == cells@.len(),
            t == texts(cells@),
            has_cols(t, ncols as nat),
            w == cell_width(t),
            out@ == head + body_lines(t, w as nat, i as nat),
        decreases nrows - i,
    {
        let row = &cells[i];
        assert(t[i as int] == row@.map_values(|s: String| s@));
        assert(t[i as int].len() == ncols);
        let ghost before = out@;
        push_decimal(&mut out, i);
        proof {
            reveal_strlit("│");
        }
        out.append("│");
        let mut j: usize = 0;
        while j < ncols
            invariant
                j <= ncols,
                i < nrows,
                nrows == t.len(),
                row@.len() == ncols,
                t[i as int] == row@.map_values(|s: String| s@),
                t[i as int].len() == ncols,
                w == cell_width(t),
                out@ == before + decimal(i as nat) + seq!['│'] + row_cells(t[i as int], w as nat, j as nat),
            decreases ncols - j,
        {
            let cell = row[j].as_str();
            let len = cell.unicode_len();
            assert(t[i as int][j as int] == cell@);
            proof {
                lemma_grid_width_bound(t, t.len(), i as int, j as int);
                reveal_strlit("|");
            }
            push_spaces(&mut out, w - len);
            out.append(cell);
            out.append("|");
            j += 1;
            assert(out@ =~= before + decimal(i as nat) + seq!['│'] + row_cells(t[i as int], w as nat, j as nat));
        }
        proof {
            reveal_strlit("\n");
        }
        out.append("\n");
        i += 1;
        assert(out@ =~= head + body_lines(t, w as nat, i as nat));
    }
    out
}

} // verus!
