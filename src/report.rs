//! The report: rows sorted by total size, averages, threshold filter and the
//! rendered lines.

use vstd::prelude::*;
use crate::table::{AggregationTable, FileStats, keys_unique, rows_map, has_key, stats_view, lemma_rows_map_insert};

verus! {

/// Least number of files a key must exceed to be reported.
pub const MIN_COUNT: u64 = 1;

/// Total size in bytes a key must exceed to be reported: one GiB.
pub const TOTAL_SIZE: u64 = 1073741824;

/// Totals never grow along the sequence.
pub open spec fn sorted_desc(s: Seq<(String, FileStats)>) -> bool {
    forall|i: int, j: int| 0 <= i < j < s.len() ==> s[i].1.fsize >= s[j].1.fsize
}

/// The rows of the table, largest total first; rows with equal totals keep
/// the order in which their keys first came into the table.
pub fn sort_results(table: AggregationTable) -> (r: Vec<(String, FileStats)>)
    requires
        table.wf(),
    ensures
        sorted_desc(r@),
        keys_unique(r@),
        rows_map(r@) == table@,
{
    let mut rest = table.into_rows();
    let ghost all = rest@;
    let mut out: Vec<(String, FileStats)> = Vec::new();
    assert(rows_map(out@) =~= rows_map(all.subrange(0, 0)));
    while rest.len() > 0
        invariant
            keys_unique(all),
            rest@ == all.subrange(all.len() - rest@.len(), all.len() as int),
            keys_unique(out@),
            sorted_desc(out@),
            rows_map(out@) == rows_map(all.subrange(0, all.len() - rest@.len())),
            out@.len() == all.len() - rest@.len(),
        decreases rest@.len(),
    {
        let ghost done = all.subrange(0, all.len() - rest@.len());
        let ghost d: int = done.len() as int;
        let x = rest.remove(0);
        proof {
            assert(x == all[d]);
            assert(keys_unique(done));
            assert(!has_key(done, x.0@)) by {
                if has_key(done, x.0@) {
                    let a = choose|a: int| 0 <= a < done.len() && done[a].0@ == x.0@;
                    assert(all[a].0@ == all[d].0@);
                }
            }
            assert(all.subrange(0, d + 1) =~= done.insert(d, x));
            lemma_rows_map_insert(done, d, x);
            assert(!rows_map(out@).contains_key(x.0@));
            assert(!has_key(out@, x.0@)) by {
                if has_key(out@, x.0@) {
                    assert(rows_map(out@).contains_key(x.0@));
                }
            }
            assert(rest@ =~= all.subrange(all.len() - rest@.len(), all.len() as int));
        }
        let mut j: usize = 0;
        while j < out.len() && out[j].1.fsize >= x.1.fsize
            invariant
                j <= out@.len(),
                forall|a: int| 0 <= a < j ==> out@[a].1.fsize >= x.1.fsize,
            decreases out@.len() - j,
        {
            j += 1;
        }
        let ghost before = out@;
        out.insert(j, x);
        proof {
            lemma_rows_map_insert(before, j as int, x);
            assert forall|a: int, b: int| 0 <= a < b < out@.len() implies out@[a].1.fsize
                >= out@[b].1.fsize by {
                if b < j {
                } else if b == j {
                } else if a < j {
                    assert(out@[b] == before[b - 1]);
                } else if a == j {
                    assert(out@[b] == before[b - 1]);
                } else {
                    assert(out@[a] == before[a - 1] && out@[b] == before[b - 1]);
                }
            }
        }
    }
    assert(all.subrange(0, all.len() as int) =~= all);
    out
}

/// Mean size of the files of one entry, truncated; zero where it counts no
/// file.
pub open spec fn avg_spec(fstat: FileStats) -> u64 {
    if fstat.fcount > 0 {
        (fstat.fsize / fstat.fcount) as u64
    } else {
        0
    }
}

/// The mean size of the files of one entry.
pub fn calc_avg_filesize(fstat: &FileStats) -> (r: u64)
    ensures
        r == avg_spec(*fstat),
{
    if fstat.fcount > 0 {
        fstat.fsize / fstat.fcount
    } else {
        0
    }
}

/// An entry is reported when it counts strictly more than `min_count` files
/// and strictly more than `min_size` bytes.
pub open spec fn passes_spec(fstat: FileStats, min_count: u64, min_size: u64) -> bool {
    fstat.fcount > min_count && fstat.fsize > min_size
}

/// Whether an entry passes both thresholds.
pub fn passes_thresholds(fstat: &FileStats, min_count: u64, min_size: u64) -> (r: bool)
    ensures
        r == passes_spec(*fstat, min_count, min_size),
{
    fstat.fcount > min_count && fstat.fsize > min_size
}

/// The decimal digit of `d`.
pub open spec fn digit_char(d: nat) -> char {
    if d == 0 {
        '0'
    } else if d == 1 {
        '1'
    } else if d == 2 {
        '2'
    } else if d == 3 {
        '3'
    } else if d == 4 {
        '4'
    } else if d == 5 {
        '5'
    } else if d == 6 {
        '6'
    } else if d == 7 {
        '7'
    } else if d == 8 {
        '8'
    } else {
        '9'
    }
}

/// `n` written in decimal, without leading zeros.
pub open spec fn decimal(n: nat) -> Seq<char>
    decreases n,
{
    if n < 10 {
        seq![digit_char(n)]
    } else {
        decimal(n / 10).push(digit_char(n % 10))
    }
}

/// Appends `n` in decimal to `s`.
fn push_decimal(s: &mut String, n: u64)
    ensures
        final(s)@ == old(s)@ + decimal(n as nat),
    decreases n,
{
    if n >= 10 {
        push_decimal(s, n / 10);
    }
    let digits = "0123456789";
    proof {
        reveal_strlit("0123456789");
    }
    let d = (n % 10) as usize;
    let one = digits.substring_char(d, d + 1);
    assert(one@ =~= seq![digit_char((n % 10) as nat)]);
    s.append(one);
    if n >= 10 {
        assert(s@ =~= old(s)@ + decimal(n as nat));
    } else {
        assert(s@ =~= old(s)@ + decimal(n as nat));
    }
}

/// `n` in decimal.
pub fn decimal_string(n: u64) -> (r: String)
    ensures
        r@ == decimal(n as nat),
{
    let mut s = String::new();
    push_decimal(&mut s, n);
    assert(s@ =~= decimal(n as nat));
    s
}

/// A byte count as text: bytes under 1024, else whole KB, MB or GB,
/// truncated.
pub open spec fn human_size(n: u64) -> Seq<char> {
    if n < 1024 {
        decimal(n as nat) + " B"@
    } else if n < 1048576 {
        decimal((n / 1024) as nat) + " KB"@
    } else if n < 1073741824 {
        decimal((n / 1048576) as nat) + " MB"@
    } else {
        decimal((n / 1073741824) as nat) + " GB"@
    }
}

/// A byte count as text (`2048` gives `2 KB`, `1500` gives `1 KB`).
pub fn get_human_readable_size(total_size: u64) -> (r: String)
    ensures
        r@ == human_size(total_size),
{
    let (n, unit) = if total_size < 1024 {
        (total_size, " B")
    } else if total_size < 1048576 {
        (total_size / 1024, " KB")
    } else if total_size < 1073741824 {
        (total_size / 1048576, " MB")
    } else {
        (total_size / 1073741824, " GB")
    };
    let mut s = decimal_string(n);
    s.append(unit);
    s
}

/// The line that reports one entry.
pub open spec fn row_text(ext: Seq<char>, fstat: FileStats, avg: u64) -> Seq<char> {
    "Extension: "@ + ext + ", Count: "@ + decimal(fstat.fcount as nat) + ", Total Size: "@
        + human_size(fstat.fsize) + ", Average Size: "@ + human_size(avg)
}

/// The line that reports one entry, with its average size given.
pub fn format_row(ext: &str, fstat: &FileStats, avg: u64) -> (r: String)
    ensures
        r@ == row_text(ext@, *fstat, avg),
{
    let mut s = String::from_str("Extension: ");
    s.append(ext);
    s.append(", Count: ");
    let count = decimal_string(fstat.fcount);
    s.append(count.as_str());
    s.append(", Total Size: ");
    let total = get_human_readable_size(fstat.fsize);
    s.append(total.as_str());
    s.append(", Average Size: ");
    let average = get_human_readable_size(avg);
    s.append(average.as_str());
    s
}

/// The line for one entry where it passes the thresholds, else nothing.
pub fn print_results(
    fstat: FileStats,
    avg_size: u64,
    ext: String,
    min_count: u64,
    min_size: u64,
) -> (r: Option<String>)
    ensures
        r is Some <==> passes_spec(fstat, min_count, min_size),
        r matches Some(line) ==> line@ == row_text(ext@, fstat, avg_size),
{
    if passes_thresholds(&fstat, min_count, min_size) {
        Some(format_row(ext.as_str(), &fstat, avg_size))
    } else {
        None
    }
}

/// The report lines of a sequence of rows, in its order: one line for each
/// row that passes the thresholds, with its average.
pub open spec fn report_spec(s: Seq<(String, FileStats)>, min_count: u64, min_size: u64) -> Seq<
    Seq<char>,
>
    decreases s.len(),
{
    if s.len() == 0 {
        Seq::empty()
    } else {
        let prev = report_spec(s.drop_last(), min_count, min_size);
        let x = s.last();
        if passes_spec(x.1, min_count, min_size) {
            prev.push(row_text(x.0@, x.1, avg_spec(x.1)))
        } else {
            prev
        }
    }
}

/// The text of each line of `v`.
pub open spec fn texts(v: Seq<String>) -> Seq<Seq<char>> {
    v.map_values(|s: String| s@)
}

/// The report lines of `rows`, in their order.
pub fn report_lines(rows: &Vec<(String, FileStats)>, min_count: u64, min_size: u64) -> (r: Vec<
    String,
>)
    ensures
        texts(r@) == report_spec(rows@, min_count, min_size),
{
    let mut out: Vec<String> = Vec::new();
    let mut i: usize = 0;
    assert(rows@.subrange(0, 0) =~= Seq::<(String, FileStats)>::empty());
    assert(texts(out@) =~= report_spec(rows@.subrange(0, 0), min_count, min_size));
    while i < rows.len()
        invariant
            i <= rows@.len(),
            texts(out@) == report_spec(rows@.subrange(0, i as int), min_count, min_size),
        decreases rows@.len() - i,
    {
        let fstat = rows[i].1;
        let avg = calc_avg_filesize(&fstat);
        let ghost before = out@;
        if passes_thresholds(&fstat, min_count, min_size) {
            let line = format_row(rows[i].0.as_str(), &fstat, avg);
            out.push(line);
            assert(texts(out@) =~= texts(before).push(out@.last()@));
        }
        assert(rows@.subrange(0, i + 1).drop_last() =~= rows@.subrange(0, i as int));
        i += 1;
    }
    assert(rows@.subrange(0, rows@.len() as int) =~= rows@);
    out
}

/// The whole report of a finished table: its rows sorted largest total
/// first, then one line for each row that passes the thresholds.
pub fn build_report(table: AggregationTable, min_count: u64, min_size: u64) -> (r: Vec<String>)
    requires
        table.wf(),
    ensures
        exists|s: Seq<(String, FileStats)>|
            #![trigger report_spec(s, min_count, min_size)]
            sorted_desc(s) && keys_unique(s) && rows_map(s) == table@ && texts(r@) == report_spec(
                s,
                min_count,
                min_size,
            ),
{
    let rows = sort_results(table);
    let r = report_lines(&rows, min_count, min_size);
    assert(texts(r@) == report_spec(rows@, min_count, min_size));
    r
}

} // verus!
