//! The info report: the header names, then the column and row counts.

use vstd::prelude::*;
use vstd::string::*;
use csv::StringRecord;
use crate::record::record_fields;
use crate::text::views;

verus! {

/// The decimal digits of `n`, most significant first, without leading zeros.
pub open spec fn decimal(n: nat) -> Seq<char>
    decreases n,
{
    let digit = seq!['0', '1', '2', '3', '4', '5', '6', '7', '8', '9'][(n % 10) as int];
    if n < 10 {
        seq![digit]
    } else {
        decimal(n / 10).push(digit)
    }
}

/// Relies on `ToString` for `usize` (through `Display`): the number in decimal.
#[verifier::external_body]
fn decimal_string(n: usize) -> (r: String)
    ensures
        r@ == decimal(n as nat),
{
    n.to_string()
}

/// The lines of the info report on a file with header `header` and `n_rows`
/// data rows: each header name, then the column count, then the row count.
pub open spec fn info_lines(names: Seq<Seq<char>>, n_rows: nat) -> Seq<Seq<char>> {
    names + seq![
        "Number of columns: "@ + decimal(names.len()),
        "Number of rows: "@ + decimal(n_rows),
    ]
}

/// The info report on a file whose header record is `header` and which holds
/// `n_rows` data rows.
pub fn info_report(header: &StringRecord, n_rows: usize) -> (r: Vec<String>)
    ensures
        views(r@) == info_lines(record_fields(*header), n_rows as nat),
{
    let n = header.len();
    let mut lines: Vec<String> = Vec::new();
    let mut i: usize = 0;
    while i < n
        invariant
            n == record_fields(*header).len(),
            i <= n,
            views(lines@) == record_fields(*header).take(i as int),
        decreases n - i,
    {
        let field = header.get(i).unwrap();
        let ghost prev = lines@;
        lines.push(String::from_str(field));
        proof {
            assert(views(lines@) =~= views(prev).push(record_fields(*header)[i as int]));
            assert(record_fields(*header).take(i + 1) =~= record_fields(*header).take(
                i as int,
            ).push(record_fields(*header)[i as int]));
        }
        i = i + 1;
    }
    let cols = String::from_str("Number of columns: ").concat(decimal_string(n).as_str());
    let rows = String::from_str("Number of rows: ").concat(decimal_string(n_rows).as_str());
    let ghost before = lines@;
    lines.push(cols);
    lines.push(rows);
    proof {
        assert(record_fields(*header).take(n as int) =~= record_fields(*header));
        assert(views(lines@) =~= views(before).push(cols@).push(rows@));
        assert(views(lines@) =~= info_lines(record_fields(*header), n_rows as nat));
    }
    lines
}

/// The info report on an `N`-column file with `M` data rows has exactly
/// `N + 2` lines: the `N` header names in order, then `Number of columns: N`,
/// then `Number of rows: M`.
pub proof fn lemma_info_shape(names: Seq<Seq<char>>, n_rows: nat)
    ensures
        info_lines(names, n_rows).len() == names.len() + 2,
        forall|i: int| 0 <= i < names.len() ==> #[trigger] info_lines(names, n_rows)[i] == names[i],
        info_lines(names, n_rows)[names.len() as int] == "Number of columns: "@ + decimal(
            names.len(),
        ),
        info_lines(names, n_rows)[names.len() as int + 1] == "Number of rows: "@ + decimal(n_rows),
{
}

} // verus!
