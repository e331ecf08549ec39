use vstd::prelude::*;
use crate::csv::{text_rows, texts};
use crate::frame::DataFrame;

verus! {

/// The pieces of `s` written one after another.
pub open spec fn joined(s: Seq<Seq<char>>) -> Seq<char>
    decreases s.len(),
{
    if s.len() == 0 {
        Seq::empty()
    } else {
        joined(s.drop_last()) + s.last()
    }
}

/// `text` between the opening and closing tags `open` and `close`.
pub open spec fn tagged(open: Seq<char>, text: Seq<char>, close: Seq<char>) -> Seq<char> {
    open + text + close
}

/// The header cells of a markup table.
pub open spec fn head_cells(titles: Seq<Seq<char>>) -> Seq<char> {
    joined(titles.map_values(|t: Seq<char>| tagged("<th>"@, t, "</th>"@)))
}

/// One markup table row of data cells.
pub open spec fn body_row(cells: Seq<Seq<char>>) -> Seq<char> {
    tagged("<tr>"@, joined(cells.map_values(|c: Seq<char>| tagged("<td>"@, c, "</td>"@))), "</tr>"@)
}

/// A markup table with the given header cells and rows of cell texts.
pub open spec fn html_table(titles: Seq<Seq<char>>, rows: Seq<Seq<Seq<char>>>) -> Seq<char> {
    "<table><thead><tr>"@ + head_cells(titles) + "</tr></thead><tbody>"@ + joined(
        rows.map_values(|r: Seq<Seq<char>>| body_row(r)),
    ) + "</tbody></table>"@
}

/// Appends to `out` each of `items` between the tags `open` and `close`.
fn push_tagged(out: &mut String, items: &Vec<String>, open: &str, close: &str)
    ensures
        final(out)@ == old(out)@ + joined(
            texts(items@).map_values(|t: Seq<char>| tagged(open@, t, close@)),
        ),
{
    let ghost parts = texts(items@).map_values(|t: Seq<char>| tagged(open@, t, close@));
    let ghost start = out@;
    let mut k: usize = 0;
    assert(parts.take(0) =~= Seq::<Seq<char>>::empty());
    assert(start + joined(parts.take(0)) =~= start);
    while k < items.len()
        invariant
            k <= items@.len(),
            parts == texts(items@).map_values(|t: Seq<char>| tagged(open@, t, close@)),
            out@ == start + joined(parts.take(k as int)),
        decreases items@.len() - k,
    {
        out.append(open);
        out.append(items[k].as_str());
        out.append(close);
        assert(parts.take(k + 1).drop_last() =~= parts.take(k as int));
        assert(out@ =~= start + joined(parts.take(k + 1)));
        k = k + 1;
    }
    assert(parts.take(k as int) =~= parts);
}

/// The table as markup: a header row of the column names, then one row
/// per data row, each cell holding its text.
pub fn dataframe_to_html_table(df: &DataFrame<String>) -> (r: String)
    ensures
        r@ == html_table(df.titles(), text_rows(df.rows())),
{
    let n = df.get_num_columns();
    let mut titles: Vec<String> = Vec::new();
    let mut h: usize = 0;
    while h < n
        invariant
            h <= n,
            n == df.titles().len(),
            texts(titles@) == df.titles().take(h as int),
        decreases n - h,
    {
        let ghost before = titles@;
        let t = df.get_title(h).clone();
        titles.push(t);
        assert(texts(titles@) =~= texts(before).push(t@));
        assert(texts(titles@) =~= df.titles().take(h + 1));
        h = h + 1;
    }
    assert(df.titles().take(h as int) =~= df.titles());
    let mut out = String::from_str("<table><thead><tr>");
    push_tagged(&mut out, &titles, "<th>", "</th>");
    out.append("</tr></thead><tbody>");
    let ghost start = out@;
    let ghost rows = text_rows(df.rows()).map_values(|r: Seq<Seq<char>>| body_row(r));
    let count = df.num_rows();
    let mut i: usize = 0;
    assert(rows.take(0) =~= Seq::<Seq<char>>::empty());
    assert(start + joined(rows.take(0)) =~= start);
    while i < count
        invariant
            i <= count,
            count == df.rows().len(),
            rows == text_rows(df.rows()).map_values(|r: Seq<Seq<char>>| body_row(r)),
            out@ == start + joined(rows.take(i as int)),
        decreases count - i,
    {
        let row = df.get_row(i);
        out.append("<tr>");
        push_tagged(&mut out, row, "<td>", "</td>");
        out.append("</tr>");
        assert(rows.take(i + 1).drop_last() =~= rows.take(i as int));
        assert(out@ =~= start + joined(rows.take(i + 1)));
        i = i + 1;
    }
    assert(rows.take(i as int) =~= rows);
    out.append("</tbody></table>");
    out
}

} // verus!
