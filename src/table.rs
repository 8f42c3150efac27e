use vstd::prelude::*;
use vstd::string::*;

verus! {

/// A table cell: its text, and what is printed for it (the text, possibly
/// with terminal styling around it).
pub type CellView = (Seq<char>, Seq<char>);

/// `n` spaces.
pub open spec fn spaces(n: nat) -> Seq<char> {
    Seq::new(n, |i: int| ' ')
}

/// `n` dashes.
pub open spec fn dashes(n: nat) -> Seq<char> {
    Seq::new(n, |i: int| '-')
}

/// The width of column `j`: the length of its longest text.
pub open spec fn column_width(rows: Seq<Seq<CellView>>, j: int) -> nat
    decreases rows.len(),
{
    if rows.len() == 0 {
        0
    } else {
        let w = column_width(rows.drop_last(), j);
        let l = rows.last()[j].0.len();
        if l > w {
            l
        } else {
            w
        }
    }
}

/// The widths of the first `n` columns.
pub open spec fn column_widths(rows: Seq<Seq<CellView>>, n: nat) -> Seq<nat> {
    Seq::new(n, |j: int| column_width(rows, j))
}

/// One line: each cell printed and padded with spaces to its column's width
/// (measured on the text, not on what is printed), cells separated by ` | `.
pub open spec fn line(cells: Seq<CellView>, widths: Seq<nat>) -> Seq<char>
    decreases cells.len(),
{
    if cells.len() == 0 {
        seq![]
    } else {
        let j = cells.len() - 1;
        let sep = if j > 0 {
            " | "@
        } else {
            seq![]
        };
        line(cells.drop_last(), widths) + sep + cells[j].1 + spaces(
            (widths[j] - cells[j].0.len()) as nat,
        )
    }
}

/// The lines of the rows, each ended by a newline.
pub open spec fn lines(rows: Seq<Seq<CellView>>, widths: Seq<nat>) -> Seq<char>
    decreases rows.len(),
{
    if rows.len() == 0 {
        seq![]
    } else {
        lines(rows.drop_last(), widths) + line(rows.last(), widths) + "\n"@
    }
}

/// The table: the header line, a line of dashes as long as it, then the rows;
/// each column as wide as its longest text, header included.
pub open spec fn layout(header: Seq<CellView>, body: Seq<Seq<CellView>>) -> Seq<char> {
    let widths = column_widths(seq![header] + body, header.len());
    let head = line(header, widths);
    head + "\n"@ + dashes(head.len()) + "\n"@ + lines(body, widths)
}

/// The cells of a row, as characters.
pub open spec fn cells_view(row: Seq<(String, String)>) -> Seq<CellView> {
    row.map_values(|c: (String, String)| (c.0@, c.1@))
}

/// The rows, as characters.
pub open spec fn rows_view(rows: Seq<Vec<(String, String)>>) -> Seq<Seq<CellView>> {
    rows.map_values(|r: Vec<(String, String)>| cells_view(r@))
}

proof fn lemma_column_width_bound(rows: Seq<Seq<CellView>>, j: int, r: int)
    requires
        0 <= r < rows.len(),
    ensures
        rows[r][j].0.len() <= column_width(rows, j),
    decreases rows.len(),
{
    if r < rows.len() - 1 {
        assert(rows.drop_last()[r] == rows[r]);
        lemma_column_width_bound(rows.drop_last(), j, r);
    }
}

/// Appends `n` copies of the one-character string `unit`.
fn push_repeated(out: &mut String, unit: &str, n: usize)
    requires
        unit@.len() == 1,
    ensures
        final(out)@ == old(out)@ + Seq::new(n as nat, |i: int| unit@[0]),
{
    let mut i: usize = 0;
    while i < n
        invariant
            unit@.len() == 1,
            i <= n,
            out@ == old(out)@ + Seq::new(i as nat, |k: int| unit@[0]),
        decreases n - i,
    {
        let ghost before = out@;
        out.append(unit);
        proof {
            assert(out@ =~= old(out)@ + Seq::new((i + 1) as nat, |k: int| unit@[0])) by {
                assert(before + unit@ =~= old(out)@ + Seq::new((i + 1) as nat, |k: int| unit@[0]));
            }
        }
        i = i + 1;
    }
}

/// Prints one line of cells padded to `widths`.
fn render_line(cells: &Vec<(String, String)>, widths: &Vec<usize>) -> (r: String)
    requires
        cells@.len() <= widths@.len(),
        forall|j: int|
            0 <= j < cells@.len() ==> #[trigger] cells@[j].0@.len() <= widths@[j],
    ensures
        r@ == line(cells_view(cells@), widths@.map_values(|w: usize| w as nat)),
{
    let ghost cv = cells_view(cells@);
    let ghost wv = widths@.map_values(|w: usize| w as nat);
    let mut out = String::new();
    let mut j: usize = 0;
    proof {
        reveal_strlit(" ");
    }
    while j < cells.len()
        invariant
            cells@.len() <= widths@.len(),
            forall|k: int| 0 <= k < cells@.len() ==> #[trigger] cells@[k].0@.len() <= widths@[k],
            cv == cells_view(cells@),
            wv == widths@.map_values(|w: usize| w as nat),
            j <= cells@.len(),
            out@ == line(cv.take(j as int), wv),
            " "@ == seq![' '],
        decreases cells@.len() - j,
    {
        proof {
            assert(cv.take(j + 1).drop_last() =~= cv.take(j as int));
        }
        if j > 0 {
            out.append(" | ");
        } else {
            proof {
                assert(out@ =~= line(cv.take(j as int), wv) + seq![]);
            }
        }
        let cell = &cells[j];
        out.append(cell.1.as_str());
        let len = cell.0.as_str().unicode_len();
        let ghost before = out@;
        push_repeated(&mut out, " ", widths[j] - len);
        proof {
            assert(Seq::new((widths@[j as int] - len) as nat, |k: int| " "@[0]) =~= spaces(
                (wv[j as int] - cv[j as int].0.len()) as nat,
            ));
            assert(cv.take(j + 1)[j as int] == cv[j as int]);
        }
        j = j + 1;
    }
    proof {
        assert(cv.take(j as int) =~= cv);
    }
    out
}

/// Lays out a table: `header`, a line of dashes, then `body`; every column as
/// wide as its longest text.
pub fn render_table(header: &Vec<(String, String)>, body: &Vec<Vec<(String, String)>>) -> (r:
    String)
    requires
        forall|i: int| 0 <= i < body@.len() ==> #[trigger] body@[i]@.len() == header@.len(),
    ensures
        r@ == layout(cells_view(header@), rows_view(body@)),
{
    let ghost all = seq![cells_view(header@)] + rows_view(body@);
    let n = header.len();
    let mut widths: Vec<usize> = Vec::new();
    let mut j: usize = 0;
    while j < n
        invariant
            n == header@.len(),
            j <= n,
            all == seq![cells_view(header@)] + rows_view(body@),
            forall|i: int| 0 <= i < body@.len() ==> #[trigger] body@[i]@.len() == header@.len(),
            widths@.map_values(|w: usize| w as nat) == column_widths(all, n as nat).take(j as int),
        decreases n - j,
    {
        let mut w = header[j].0.as_str().unicode_len();
        let mut r: usize = 0;
        proof {
            assert(all.take(1).drop_last() =~= Seq::<Seq<CellView>>::empty());
            assert(all.take(1).last() == cells_view(header@));
            assert(cells_view(header@)[j as int].0 == header@[j as int].0@);
            assert(column_width(all.take(1).drop_last(), j as int) == 0);
            assert(w == column_width(all.take(1), j as int));
        }
        while r < body.len()
            invariant
                n == header@.len(),
                j < n,
                r <= body@.len(),
                all == seq![cells_view(header@)] + rows_view(body@),
                forall|i: int| 0 <= i < body@.len() ==> #[trigger] body@[i]@.len() == header@.len(),
                w == column_width(all.take(r + 1), j as int),
            decreases body@.len() - r,
        {
            proof {
                assert(all.take(r + 2).drop_last() =~= all.take(r + 1));
                assert(all.take(r + 2).last() == rows_view(body@)[r as int]);
            }
            let l = body[r][j].0.as_str().unicode_len();
            if l > w {
                w = l;
            }
            r = r + 1;
        }
        proof {
            assert(all.take(r + 1) =~= all);
        }
        let ghost before = widths@.map_values(|w: usize| w as nat);
        widths.push(w);
        proof {
            assert(widths@.map_values(|w: usize| w as nat) =~= before.push(w as nat));
            assert(column_widths(all, n as nat).take(j + 1) =~= column_widths(all, n as nat).take(j as int).push(
                column_width(all, j as int),
            ));
        }
        j = j + 1;
    }
    let ghost wv = column_widths(all, n as nat);
    proof {
        assert(widths@.map_values(|w: usize| w as nat) =~= wv);
        assert forall|k: int| 0 <= k < header@.len() implies #[trigger] header@[k].0@.len()
            <= widths@[k] by {
            lemma_column_width_bound(all, k, 0);
            assert(widths@.map_values(|w: usize| w as nat)[k] == widths@[k] as nat);
        }
    }
    let mut out = render_line(header, &widths);
    let head_len = out.as_str().unicode_len();
    out.append("\n");
    proof {
        reveal_strlit("-");
    }
    push_repeated(&mut out, "-", head_len);
    out.append("\n");
    proof {
        assert(Seq::new(head_len as nat, |k: int| "-"@[0]) =~= dashes(head_len as nat));
    }
    let ghost top = out@;
    let mut i: usize = 0;
    while i < body.len()
        invariant
            n == header@.len(),
            i <= body@.len(),
            all == seq![cells_view(header@)] + rows_view(body@),
            forall|k: int| 0 <= k < body@.len() ==> #[trigger] body@[k]@.len() == header@.len(),
            widths@.len() == n,
            widths@.map_values(|w: usize| w as nat) == wv,
            wv == column_widths(all, n as nat),
            out@ == top + lines(rows_view(body@).take(i as int), wv),
        decreases body@.len() - i,
    {
        proof {
            assert(rows_view(body@).take(i + 1).drop_last() =~= rows_view(body@).take(i as int));
            assert forall|k: int| 0 <= k < body@[i as int]@.len() implies #[trigger] body@[i as int]@[k].0@.len()
                <= widths@[k] by {
                lemma_column_width_bound(all, k, i + 1);
                assert(all[i + 1] == rows_view(body@)[i as int]);
                assert(widths@.map_values(|w: usize| w as nat)[k] == widths@[k] as nat);
            }
        }
        let l = render_line(&body[i], &widths);
        out.append(l.as_str());
        out.append("\n");
        proof {
            assert(rows_view(body@).take(i + 1).last() == cells_view(body@[i as int]@));
        }
        i = i + 1;
    }
    proof {
        assert(rows_view(body@).take(i as int) =~= rows_view(body@));
    }
    out
}

} // verus!
