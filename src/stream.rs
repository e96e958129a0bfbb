//! The row stream evaluator: a state machine that takes one record at a time
//! and decides whether to skip it (offset), reject it (filters) or emit it,
//! until the limit of emitted rows is reached.

use vstd::prelude::*;
use csv::StringRecord;
use crate::record::record_fields;
use crate::filter::{Predicate, set_accepts, compile_clause, lemma_failing_clause};
use crate::query::{Query, row_line_spec, compile_query, lemma_unknown_projection};
use crate::schema::lemma_lookup_valid;
use crate::text::{split_spec, before_first};

verus! {

/// Rows still to skip before filtering begins, and rows still to emit.
pub struct StreamState {
    pub to_skip: nat,
    pub to_emit: nat,
}

/// What one step did with a row.
pub enum StepKind {
    Skip,
    Reject,
    Emit,
}

/// One step on `row`: offset rows are skipped unfiltered; after that a row is
/// emitted when every predicate accepts it and rejected otherwise.
pub open spec fn next_state(s: StreamState, ps: Seq<Predicate>, row: Seq<Seq<char>>) -> (
    StreamState,
    StepKind,
) {
    if s.to_skip > 0 {
        (StreamState { to_skip: (s.to_skip - 1) as nat, to_emit: s.to_emit }, StepKind::Skip)
    } else if set_accepts(ps, row) {
        (StreamState { to_skip: 0, to_emit: (s.to_emit - 1) as nat }, StepKind::Emit)
    } else {
        (s, StepKind::Reject)
    }
}

/// The rows that a stream in state `s` emits from `rows`, in order. Once
/// nothing is left to emit, no further row is read.
pub open spec fn selected(s: StreamState, ps: Seq<Predicate>, rows: Seq<Seq<Seq<char>>>) -> Seq<
    Seq<Seq<char>>,
>
    decreases rows.len(),
{
    if s.to_emit == 0 || rows.len() == 0 {
        Seq::empty()
    } else {
        let (n, k) = next_state(s, ps, rows[0]);
        let head = if k is Emit {
            seq![rows[0]]
        } else {
            Seq::<Seq<Seq<char>>>::empty()
        };
        head + selected(n, ps, rows.drop_first())
    }
}

/// What the caller does with the record it handed over.
#[derive(Debug, PartialEq, Eq)]
pub enum RowAction {
    /// Within the offset: neither filtered nor printed.
    Skip,
    /// Some filter rejected it.
    Reject,
    /// Print it: the projected line, or `None` to print the record whole.
    Emit(Option<String>),
}

/// The evaluator's state while records stream through it.
pub struct RowStream {
    to_skip: u32,
    to_emit: u32,
}

impl View for RowStream {
    type V = StreamState;

    closed spec fn view(&self) -> StreamState {
        StreamState { to_skip: self.to_skip as nat, to_emit: self.to_emit as nat }
    }
}

impl RowStream {
    /// A stream that skips `offset` rows, then emits up to `limit` rows.
    pub fn new(offset: u32, limit: u32) -> (r: RowStream)
        ensures
            r@ == (StreamState { to_skip: offset as nat, to_emit: limit as nat }),
    {
        RowStream { to_skip: offset, to_emit: limit }
    }

    /// Whether the limit is reached: no further record is to be read.
    pub fn is_done(&self) -> (r: bool)
        ensures
            r == (self@.to_emit == 0),
    {
        self.to_emit == 0
    }

    /// Takes the next record and says what to do with it.
    pub fn step(&mut self, query: &Query, row: &StringRecord) -> (a: RowAction)
        requires
            old(self)@.to_emit > 0,
            query.wf(),
        ensures
            next_state(old(self)@, query@.predicates, record_fields(*row)) == (
                final(self)@,
                match a {
                    RowAction::Skip => StepKind::Skip,
                    RowAction::Reject => StepKind::Reject,
                    RowAction::Emit(_) => StepKind::Emit,
                },
            ),
            a matches RowAction::Emit(l) ==> match l {
                Some(x) => row_line_spec(query@, record_fields(*row)) == Some(x@),
                None => row_line_spec(query@, record_fields(*row)) is None,
            },
    {
        if self.to_skip > 0 {
            self.to_skip = self.to_skip - 1;
            RowAction::Skip
        } else if query.accepts(row) {
            self.to_emit = self.to_emit - 1;
            RowAction::Emit(query.row_line(row))
        } else {
            RowAction::Reject
        }
    }
}

/// Handing a stream that still has rows to emit one more row emits that row
/// exactly when its step says so, and the rest comes from the next state.
pub proof fn lemma_step_then_rest(
    s: StreamState,
    ps: Seq<Predicate>,
    row: Seq<Seq<char>>,
    rest: Seq<Seq<Seq<char>>>,
)
    requires
        s.to_emit > 0,
    ensures
        selected(s, ps, seq![row] + rest) == (if next_state(s, ps, row).1 is Emit {
            seq![row]
        } else {
            Seq::<Seq<Seq<char>>>::empty()
        }) + selected(next_state(s, ps, row).0, ps, rest),
{
    let rows = seq![row] + rest;
    assert(rows[0] == row);
    assert(rows.drop_first() =~= rest);
}

/// A stream with a limit of zero emits nothing and reads no row.
pub proof fn lemma_zero_limit(offset: nat, ps: Seq<Predicate>, rows: Seq<Seq<Seq<char>>>)
    ensures
        selected(StreamState { to_skip: offset, to_emit: 0 }, ps, rows) == Seq::<
            Seq<Seq<char>>,
        >::empty(),
{
}

/// Without filters, offset `o` and limit `l` on at least `o + l` rows emit
/// exactly the rows at positions `o` up to `o + l`, in their order.
pub proof fn lemma_offset_limit(offset: nat, limit: nat, rows: Seq<Seq<Seq<char>>>)
    requires
        rows.len() >= offset + limit,
    ensures
        selected(StreamState { to_skip: offset, to_emit: limit }, Seq::empty(), rows)
            == rows.subrange(offset as int, (offset + limit) as int),
    decreases rows.len(),
{
    let s = StreamState { to_skip: offset, to_emit: limit };
    let ps = Seq::<Predicate>::empty();
    if limit == 0 {
        assert(rows.subrange(offset as int, offset as int) =~= Seq::<Seq<Seq<char>>>::empty());
    } else if offset > 0 {
        lemma_offset_limit((offset - 1) as nat, limit, rows.drop_first());
        assert(rows.drop_first().subrange(offset - 1, offset - 1 + limit) =~= rows.subrange(
            offset as int,
            (offset + limit) as int,
        ));
    } else {
        assert(set_accepts(ps, rows[0]));
        lemma_offset_limit(0, (limit - 1) as nat, rows.drop_first());
        assert(seq![rows[0]] + rows.drop_first().subrange(0, limit - 1) =~= rows.subrange(
            0,
            limit as int,
        ));
    }
}

/// The rows that pass every predicate, in order.
pub open spec fn accepted_rows(ps: Seq<Predicate>, rows: Seq<Seq<Seq<char>>>) -> Seq<Seq<Seq<char>>>
    decreases rows.len(),
{
    if rows.len() == 0 {
        Seq::empty()
    } else if set_accepts(ps, rows[0]) {
        seq![rows[0]] + accepted_rows(ps, rows.drop_first())
    } else {
        accepted_rows(ps, rows.drop_first())
    }
}

/// At most the first `n` elements of `s`.
pub open spec fn first_n<A>(s: Seq<A>, n: nat) -> Seq<A> {
    if s.len() <= n {
        s
    } else {
        s.take(n as int)
    }
}

/// `rows` without its first `offset` rows.
pub open spec fn after_offset<A>(rows: Seq<A>, offset: nat) -> Seq<A> {
    if offset >= rows.len() {
        Seq::empty()
    } else {
        rows.skip(offset as int)
    }
}

/// Offset, filters and limit compose in that order: a stream emits the first
/// `limit` of the rows that pass the filters among those after the first
/// `offset`; skipped rows are never filtered, and the limit counts emitted
/// rows only.
pub proof fn lemma_offset_filter_limit(
    offset: nat,
    limit: nat,
    ps: Seq<Predicate>,
    rows: Seq<Seq<Seq<char>>>,
)
    ensures
        selected(StreamState { to_skip: offset, to_emit: limit }, ps, rows) == first_n(
            accepted_rows(ps, after_offset(rows, offset)),
            limit,
        ),
    decreases rows.len(),
{
    let rest = rows.drop_first();
    if rows.len() == 0 {
        assert(after_offset(rows, offset) =~= Seq::<Seq<Seq<char>>>::empty());
    } else if limit == 0 {
        assert(first_n(accepted_rows(ps, after_offset(rows, offset)), 0) =~= Seq::<
            Seq<Seq<char>>,
        >::empty());
    } else if offset > 0 {
        lemma_offset_filter_limit((offset - 1) as nat, limit, ps, rest);
        assert(after_offset(rest, (offset - 1) as nat) =~= after_offset(rows, offset));
    } else {
        assert(after_offset(rows, 0) =~= rows);
        assert(after_offset(rest, 0) =~= rest);
        if set_accepts(ps, rows[0]) {
            lemma_offset_filter_limit(0, (limit - 1) as nat, ps, rest);
            let a = accepted_rows(ps, rest);
            assert(first_n(seq![rows[0]] + a, limit) =~= seq![rows[0]] + first_n(
                a,
                (limit - 1) as nat,
            ));
        } else {
            lemma_offset_filter_limit(0, limit, ps, rest);
        }
    }
}

/// Everything a query prints: the header line under a projection, then one
/// entry per emitted row (its projected line, or `None` for the whole record).
pub struct QueryOutput {
    pub header: Option<Seq<char>>,
    pub lines: Seq<Option<Seq<char>>>,
}

/// The output of the query `cols`/`filters` with `offset` and `limit` over a
/// file with header `names` and data rows `rows`; an error where the query
/// does not compile, in which case nothing is printed.
pub open spec fn query_output(
    names: Seq<Seq<char>>,
    cols: Option<Seq<char>>,
    filters: Option<Seq<char>>,
    offset: nat,
    limit: nat,
    rows: Seq<Seq<Seq<char>>>,
) -> Result<QueryOutput, crate::filter::QueryErrorModel> {
    match compile_query(names, cols, filters) {
        Err(e) => Err(e),
        Ok(q) => Ok(
            QueryOutput {
                header: q.header,
                lines: selected(StreamState { to_skip: offset, to_emit: limit }, q.predicates, rows).map_values(
                    |r: Seq<Seq<char>>| row_line_spec(q, r),
                ),
            },
        ),
    }
}

/// A projection or a filter that names a column absent from the header makes
/// the whole query fail, whatever the rows, the offset and the limit: no line
/// is printed.
pub proof fn lemma_unknown_column_aborts(
    names: Seq<Seq<char>>,
    cols: Option<Seq<char>>,
    filters: Option<Seq<char>>,
    offset: nat,
    limit: nat,
    rows: Seq<Seq<Seq<char>>>,
    k: int,
)
    requires
        (cols matches Some(c) && 0 <= k < split_spec(c, ',').len() && !names.contains(
            split_spec(c, ',')[k],
        )) || (filters matches Some(f) && 0 <= k < split_spec(f, ',').len() && split_spec(
            f,
            ',',
        )[k].contains('=') && !names.contains(before_first(split_spec(f, ',')[k], '='))),
    ensures
        query_output(names, cols, filters, offset, limit, rows) is Err,
{
    if cols is Some && 0 <= k < split_spec(cols->0, ',').len() && !names.contains(
        split_spec(cols->0, ',')[k],
    ) {
        lemma_unknown_projection(names, split_spec(cols->0, ','), k);
    } else {
        let f = filters->0;
        let cs = split_spec(f, ',');
        lemma_lookup_valid(names, before_first(cs[k], '='));
        assert(compile_clause(names, cs[k]) is Err);
        lemma_failing_clause(names, cs, k);
    }
}

/// Running the same query twice over the same file gives the same output.
pub proof fn lemma_query_deterministic(
    names: Seq<Seq<char>>,
    cols: Option<Seq<char>>,
    filters: Option<Seq<char>>,
    offset: nat,
    limit: nat,
    rows: Seq<Seq<Seq<char>>>,
    again: Seq<Seq<Seq<char>>>,
)
    requires
        again == rows,
    ensures
        query_output(names, cols, filters, offset, limit, rows) == query_output(
            names,
            cols,
            filters,
            offset,
            limit,
            again,
        ),
{
}

} // verus!
