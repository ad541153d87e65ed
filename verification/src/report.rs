//! The histogram as CSV: a column for each user, a line for each hour.

use vstd::prelude::*;
use crate::histogram::Histogram;
use crate::histogram::RowModel;
use crate::histogram::UserHours;
use crate::histogram::HOURS;
use crate::number::decimal_text;
use crate::number::push_decimal;

verus! {

/// The names of the users of `rows`, a comma behind each.
pub open spec fn user_cells(rows: Seq<RowModel>) -> Seq<char>
    decreases rows.len(),
{
    if rows.len() == 0 {
        Seq::empty()
    } else {
        user_cells(rows.drop_last()) + rows.last().user + seq![',']
    }
}

/// The counts of `rows` in the hour `hour`, a comma behind each.
pub open spec fn count_cells(rows: Seq<RowModel>, hour: int) -> Seq<char>
    decreases rows.len(),
{
    if rows.len() == 0 {
        Seq::empty()
    } else {
        count_cells(rows.drop_last(), hour) + decimal_text(rows.last().hours[hour] as nat) + seq![
            ',',
        ]
    }
}

/// The first line: `Time`, then the users.
pub open spec fn header_line(rows: Seq<RowModel>) -> Seq<char> {
    seq!['T', 'i', 'm', 'e', ','] + user_cells(rows) + seq!['\n']
}

/// The line of the hour `hour`: the hour, then the counts.
pub open spec fn hour_line(rows: Seq<RowModel>, hour: int) -> Seq<char> {
    decimal_text(hour as nat) + seq![','] + count_cells(rows, hour) + seq!['\n']
}

/// The lines of the first `n` hours of the day.
pub open spec fn hour_lines(rows: Seq<RowModel>, n: int) -> Seq<char>
    decreases n,
{
    if n <= 0 {
        Seq::empty()
    } else {
        hour_lines(rows, n - 1) + hour_line(rows, n - 1)
    }
}

/// The report: the first line, then a line for each hour of the day.
pub open spec fn csv_text(rows: Seq<RowModel>) -> Seq<char> {
    header_line(rows) + hour_lines(rows, HOURS as int)
}

/// Appends the first line of the report to `out`.
fn push_header(out: &mut String, rows: &Vec<UserHours>)
    ensures
        final(out)@ == old(out)@ + header_line(rows@.map_values(|row: UserHours| row@)),
{
    let ghost models = rows@.map_values(|row: UserHours| row@);
    out.push('T');
    out.push('i');
    out.push('m');
    out.push('e');
    out.push(',');
    let ghost start = out@;
    assert(start =~= old(out)@ + seq!['T', 'i', 'm', 'e', ',']);
    let mut r: usize = 0;
    assert(models.take(0) =~= Seq::<RowModel>::empty());
    while r < rows.len()
        invariant
            r <= rows@.len(),
            models == rows@.map_values(|row: UserHours| row@),
            out@ == start + user_cells(models.take(r as int)),
        decreases rows@.len() - r,
    {
        proof {
            let next = models.take(r as int + 1);
            assert(next.drop_last() =~= models.take(r as int));
            assert(next.last() == rows@[r as int]@);
        }
        out.append(rows[r].user.as_str());
        out.push(',');
        assert(out@ =~= start + user_cells(models.take(r as int + 1)));
        r = r + 1;
    }
    assert(models.take(r as int) =~= models);
    out.push('\n');
    assert(out@ =~= old(out)@ + header_line(models));
}

/// Appends the line of the hour `hour` to `out`.
fn push_hour(out: &mut String, rows: &Vec<UserHours>, hour: usize)
    requires
        hour < HOURS,
    ensures
        final(out)@ == old(out)@ + hour_line(rows@.map_values(|row: UserHours| row@), hour as int),
{
    let ghost models = rows@.map_values(|row: UserHours| row@);
    push_decimal(out, hour);
    out.push(',');
    let ghost start = out@;
    assert(start =~= old(out)@ + (decimal_text(hour as nat) + seq![',']));
    let mut r: usize = 0;
    assert(models.take(0) =~= Seq::<RowModel>::empty());
    while r < rows.len()
        invariant
            r <= rows@.len(),
            hour < HOURS,
            models == rows@.map_values(|row: UserHours| row@),
            out@ == start + count_cells(models.take(r as int), hour as int),
        decreases rows@.len() - r,
    {
        proof {
            let next = models.take(r as int + 1);
            assert(next.drop_last() =~= models.take(r as int));
            assert(next.last() == rows@[r as int]@);
        }
        push_decimal(out, rows[r].hours[hour]);
        out.push(',');
        assert(out@ =~= start + count_cells(models.take(r as int + 1), hour as int));
        r = r + 1;
    }
    assert(models.take(r as int) =~= models);
    out.push('\n');
    assert(out@ =~= old(out)@ + hour_line(models, hour as int));
}

/// Lays the histogram out as CSV, the users in the order of its rows.
pub fn render_csv(table: &Histogram) -> (csv: String)
    ensures
        csv@ == csv_text(table@),
{
    let mut csv = String::new();
    push_header(&mut csv, &table.rows);
    let ghost start = csv@;
    assert(start =~= header_line(table@));
    let mut hour: usize = 0;
    while hour < HOURS
        invariant
            hour <= HOURS,
            csv@ == start + hour_lines(table@, hour as int),
        decreases HOURS - hour,
    {
        push_hour(&mut csv, &table.rows, hour);
        assert(csv@ =~= start + hour_lines(table@, hour as int + 1));
        hour = hour + 1;
    }
    csv
}

} // verus!
