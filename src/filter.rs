//! Row filters: compiled from `COLUMN=value` clauses against a schema, then
//! tested against records.

use vstd::prelude::*;
use vstd::string::*;
use csv::StringRecord;
use crate::record::record_fields;
use crate::schema::{Schema, lookup, lemma_lookup_valid};
use crate::text::{split_spec, split_on, split_clause, before_first, after_first, views, lemma_first_pos};

verus! {

/// What went wrong while compiling a query against a schema.
#[derive(Debug, PartialEq, Eq)]
pub enum QueryError {
    /// A projection or filter names a column that the header lacks.
    UnknownColumn(String),
    /// A filter clause holds no operator.
    MalformedFilter(String),
}

/// A query error as the contracts speak of it.
pub enum QueryErrorModel {
    UnknownColumn(Seq<char>),
    MalformedFilter(Seq<char>),
}

impl View for QueryError {
    type V = QueryErrorModel;

    open spec fn view(&self) -> QueryErrorModel {
        match self {
            QueryError::UnknownColumn(s) => QueryErrorModel::UnknownColumn(s@),
            QueryError::MalformedFilter(s) => QueryErrorModel::MalformedFilter(s@),
        }
    }
}

impl QueryError {
    /// The message that reports this error.
    pub fn message(&self) -> (r: String)
        ensures
            r@ == match self@ {
                QueryErrorModel::UnknownColumn(n) => "Column not found: "@ + n,
                QueryErrorModel::MalformedFilter(c) => "No operator for filter string "@ + c,
            },
    {
        match self {
            QueryError::UnknownColumn(n) => {
                let r = String::from_str("Column not found: ");
                r.concat(n.as_str())
            },
            QueryError::MalformedFilter(c) => {
                let r = String::from_str("No operator for filter string ");
                r.concat(c.as_str())
            },
        }
    }
}

/// A compiled filter, as a test on a row.
pub enum Predicate {
    /// The field at `column_index` equals `literal` exactly.
    EqualsLiteral { column_index: nat, literal: Seq<char> },
}

pub open spec fn predicate_accepts(p: Predicate, row: Seq<Seq<char>>) -> bool {
    match p {
        Predicate::EqualsLiteral { column_index, literal } => column_index < row.len()
            && row[column_index as int] == literal,
    }
}

/// A row passes a filter set when it passes every filter in it.
pub open spec fn set_accepts(ps: Seq<Predicate>, row: Seq<Seq<char>>) -> bool {
    forall|i: int| 0 <= i < ps.len() ==> predicate_accepts(ps[i], row)
}

/// `clause` compiles against `names` to a predicate that accepts `row`.
pub open spec fn clause_accepts(names: Seq<Seq<char>>, clause: Seq<char>, row: Seq<Seq<char>>) -> bool {
    match compile_clause(names, clause) {
        Ok(p) => predicate_accepts(p, row),
        Err(_) => false,
    }
}

/// One clause compiled against the header `names`: the column named before
/// the first `=` must resolve, and everything after it is the literal.
pub open spec fn compile_clause(names: Seq<Seq<char>>, clause: Seq<char>) -> Result<
    Predicate,
    QueryErrorModel,
> {
    if !clause.contains('=') {
        Err(QueryErrorModel::MalformedFilter(clause))
    } else {
        match lookup(names, before_first(clause, '=')) {
            Some(i) => Ok(
                Predicate::EqualsLiteral {
                    column_index: i as nat,
                    literal: after_first(clause, '='),
                },
            ),
            None => Err(QueryErrorModel::UnknownColumn(before_first(clause, '='))),
        }
    }
}

/// Clauses compiled in order; the first that fails decides the error.
pub open spec fn compile_all(names: Seq<Seq<char>>, clauses: Seq<Seq<char>>) -> Result<
    Seq<Predicate>,
    QueryErrorModel,
>
    decreases clauses.len(),
{
    if clauses.len() == 0 {
        Ok(Seq::empty())
    } else {
        match compile_all(names, clauses.drop_last()) {
            Err(e) => Err(e),
            Ok(ps) => match compile_clause(names, clauses.last()) {
                Ok(p) => Ok(ps.push(p)),
                Err(e) => Err(e),
            },
        }
    }
}

/// A comma-separated filter set compiled against `names`.
pub open spec fn compile_filter_set(names: Seq<Seq<char>>, spec: Seq<char>) -> Result<
    Seq<Predicate>,
    QueryErrorModel,
> {
    compile_all(names, split_spec(spec, ','))
}

/// The comparison a filter makes; string equality is the one there is.
#[derive(Debug, Clone, Copy, PartialEq, Eq, Structural)]
pub enum RowFilterOperator {
    EqualString,
}

impl RowFilterOperator {
    /// Whether the two operators are the same.
    pub fn eq(&self, other: &Self) -> (r: bool)
        ensures
            r == (*self == *other),
    {
        match (self, other) {
            (RowFilterOperator::EqualString, RowFilterOperator::EqualString) => true,
        }
    }
}

/// A filter over one row. An equality filter compares the field at
/// `left_column` with the text in `right_value`.
#[derive(Debug)]
pub struct RowFilter {
    pub left_column: Option<usize>,
    pub right_column: Option<usize>,
    pub left_value: Option<String>,
    pub right_value: Option<String>,
    pub operator: RowFilterOperator,
}

impl View for RowFilter {
    type V = Predicate;

    open spec fn view(&self) -> Predicate {
        Predicate::EqualsLiteral {
            column_index: self.left_column->0 as nat,
            literal: self.right_value->0@,
        }
    }
}

impl RowFilter {
    /// The shape that an equality filter has.
    pub open spec fn wf(&self) -> bool {
        &&& self.operator == RowFilterOperator::EqualString
        &&& self.left_column is Some
        &&& self.right_value is Some
        &&& self.right_column is None
        &&& self.left_value is None
    }

    /// Whether the filter lets `row` through; a filter without a column or
    /// value lets nothing through.
    pub open spec fn accepts_row(&self, row: Seq<Seq<char>>) -> bool {
        match (self.left_column, self.right_value) {
            (Some(c), Some(v)) => c < row.len() && row[c as int] == v@,
            _ => false,
        }
    }

    /// Compiles one `COLUMN=value` clause against `schema`.
    pub fn new(filter_str: &str, schema: &Schema) -> (r: Result<RowFilter, QueryError>)
        ensures
            match r {
                Ok(f) => f.wf() && compile_clause(schema@, filter_str@) == Ok::<
                    Predicate,
                    QueryErrorModel,
                >(f@),
                Err(e) => compile_clause(schema@, filter_str@) == Err::<Predicate, QueryErrorModel>(
                    e@,
                ),
            },
    {
        match split_clause(filter_str) {
            None => Err(QueryError::MalformedFilter(String::from_str(filter_str))),
            Some((column, value)) => match schema.resolve(column.as_str()) {
                Some(i) => Ok(
                    RowFilter {
                        left_column: Some(i),
                        right_column: None,
                        left_value: None,
                        right_value: Some(value),
                        operator: RowFilterOperator::EqualString,
                    },
                ),
                None => Err(QueryError::UnknownColumn(column)),
            },
        }
    }

    /// Whether `row` passes this filter.
    pub fn accepts(&self, row: &StringRecord) -> (r: bool)
        ensures
            r == self.accepts_row(record_fields(*row)),
            self.wf() ==> r == predicate_accepts(self@, record_fields(*row)),
    {
        match (self.left_column, &self.right_value) {
            (Some(c), Some(v)) => match row.get(c) {
                Some(field) => String::from_str(field) == *v,
                None => false,
            },
            _ => false,
        }
    }
}

pub open spec fn filter_models(fs: Seq<RowFilter>) -> Seq<Predicate> {
    fs.map_values(|f: RowFilter| f@)
}

pub open spec fn all_wf(fs: Seq<RowFilter>) -> bool {
    forall|i: int| 0 <= i < fs.len() ==> fs[i].wf()
}

/// Compiles a comma-separated list of clauses against `schema`, in order,
/// stopping at the first clause that fails.
pub fn compile_filters(spec: &str, schema: &Schema) -> (r: Result<Vec<RowFilter>, QueryError>)
    ensures
        match r {
            Ok(fs) => all_wf(fs@) && compile_filter_set(schema@, spec@) == Ok::<
                Seq<Predicate>,
                QueryErrorModel,
            >(filter_models(fs@)),
            Err(e) => compile_filter_set(schema@, spec@) == Err::<Seq<Predicate>, QueryErrorModel>(
                e@,
            ),
        },
{
    let clauses = split_on(spec, ',');
    let ghost cs = views(clauses@);
    let mut filters: Vec<RowFilter> = Vec::new();
    let mut i: usize = 0;
    proof {
        assert(cs.take(0) =~= Seq::<Seq<char>>::empty());
        assert(filter_models(filters@) =~= Seq::<Predicate>::empty());
    }
    while i < clauses.len()
        invariant
            i <= clauses.len(),
            cs == views(clauses@),
            cs == split_spec(spec@, ','),
            all_wf(filters@),
            compile_all(schema@, cs.take(i as int)) == Ok::<Seq<Predicate>, QueryErrorModel>(
                filter_models(filters@),
            ),
        decreases clauses.len() - i,
    {
        proof {
            assert(cs.take(i + 1).drop_last() =~= cs.take(i as int));
            assert(cs.take(i + 1).last() == clauses@[i as int]@);
        }
        match RowFilter::new(clauses[i].as_str(), schema) {
            Ok(f) => {
                let ghost prev = filters@;
                filters.push(f);
                proof {
                    assert(filter_models(filters@) =~= filter_models(prev).push(f@));
                }
            },
            Err(e) => {
                proof {
                    lemma_compile_all_err(schema@, cs, i + 1);
                    assert(cs.take(cs.len() as int) =~= cs);
                }
                return Err(e);
            },
        }
        i = i + 1;
    }
    proof {
        assert(cs.take(cs.len() as int) =~= cs);
    }
    Ok(filters)
}

/// Once a prefix of the clauses fails, so do all longer prefixes, with the same error.
proof fn lemma_compile_all_err(names: Seq<Seq<char>>, cs: Seq<Seq<char>>, k: int)
    requires
        0 <= k <= cs.len(),
        compile_all(names, cs.take(k)) is Err,
    ensures
        compile_all(names, cs.take(cs.len() as int)) == compile_all(names, cs.take(k)),
    decreases cs.len() - k,
{
    if k < cs.len() {
        assert(cs.take(k + 1).drop_last() =~= cs.take(k));
        lemma_compile_all_err(names, cs, k + 1);
    }
}

/// Whether `row` passes every filter, checked in order and stopping at the
/// first that rejects it.
pub fn accepts_all(filters: &Vec<RowFilter>, row: &StringRecord) -> (r: bool)
    ensures
        r == forall|i: int| 0 <= i < filters@.len() ==> #[trigger] filters@[i].accepts_row(
            record_fields(*row),
        ),
        all_wf(filters@) ==> r == set_accepts(filter_models(filters@), record_fields(*row)),
{
    let mut i: usize = 0;
    while i < filters.len()
        invariant
            i <= filters@.len(),
            forall|j: int| 0 <= j < i ==> #[trigger] filters@[j].accepts_row(record_fields(*row)),
        decreases filters.len() - i,
    {
        if !filters[i].accepts(row) {
            assert(!filters@[i as int].accepts_row(record_fields(*row)));
            proof {
                if all_wf(filters@) {
                    lemma_models_accept(filters@, record_fields(*row));
                }
            }
            return false;
        }
        i = i + 1;
    }
    proof {
        if all_wf(filters@) {
            lemma_models_accept(filters@, record_fields(*row));
        }
    }
    true
}

proof fn lemma_models_accept(fs: Seq<RowFilter>, row: Seq<Seq<char>>)
    requires
        all_wf(fs),
    ensures
        set_accepts(filter_models(fs), row) == forall|i: int|
            0 <= i < fs.len() ==> #[trigger] fs[i].accepts_row(row),
{
    assert forall|i: int| 0 <= i < fs.len() implies #[trigger] fs[i].accepts_row(row)
        == predicate_accepts(filter_models(fs)[i], row) by {
        assert(fs[i].wf());
    }
    let ms = filter_models(fs);
    assert(ms.len() == fs.len());
    if set_accepts(ms, row) {
        assert forall|i: int| 0 <= i < fs.len() implies #[trigger] fs[i].accepts_row(row) by {
            assert(predicate_accepts(ms[i], row));
        }
    }
    if forall|i: int| 0 <= i < fs.len() ==> #[trigger] fs[i].accepts_row(row) {
        assert forall|i: int| 0 <= i < ms.len() implies predicate_accepts(ms[i], row) by {
            assert(fs[i].accepts_row(row));
        }
    }
}

/// A clause `COL=V` whose column name resolves and holds no `=` compiles to an
/// equality test on that column with the literal `V`, which accepts a row
/// exactly when the row's field there is `V`.
pub proof fn lemma_equality_clause(
    names: Seq<Seq<char>>,
    col: Seq<char>,
    v: Seq<char>,
    row: Seq<Seq<char>>,
)
    requires
        lookup(names, col) is Some,
        !col.contains('='),
    ensures
        compile_clause(names, col + seq!['='] + v) == Ok::<Predicate, QueryErrorModel>(
            Predicate::EqualsLiteral { column_index: lookup(names, col)->0 as nat, literal: v },
        ),
        predicate_accepts(
            Predicate::EqualsLiteral { column_index: lookup(names, col)->0 as nat, literal: v },
            row,
        ) == (lookup(names, col)->0 < row.len() && row[lookup(names, col)->0] == v),
{
    let c = col + seq!['='] + v;
    assert(c[col.len() as int] == '=');
    assert forall|j: int| 0 <= j < col.len() implies c[j] != '=' by {
        assert(c[j] == col[j]);
        if col[j] == '=' {
            assert(col.contains('='));
        }
    }
    lemma_first_pos(c, '=', col.len() as int);
    assert(before_first(c, '=') =~= col);
    assert(after_first(c, '=') =~= v);
    lemma_lookup_valid(names, col);
}

/// A compiled filter set holds one predicate per clause, each the clause's own
/// compilation, and it accepts a row exactly when every clause does.
pub proof fn lemma_filter_set_conjunction(names: Seq<Seq<char>>, spec: Seq<char>, row: Seq<Seq<char>>)
    requires
        compile_filter_set(names, spec) is Ok,
    ensures
        compile_filter_set(names, spec)->Ok_0.len() == split_spec(spec, ',').len(),
        set_accepts(compile_filter_set(names, spec)->Ok_0, row) <==> forall|i: int|
            0 <= i < split_spec(spec, ',').len() ==> #[trigger] clause_accepts(
                names,
                split_spec(spec, ',')[i],
                row,
            ),
{
    let cs = split_spec(spec, ',');
    lemma_compile_all_each(names, cs);
    let ps = compile_filter_set(names, spec)->Ok_0;
    if set_accepts(ps, row) {
        assert forall|i: int| 0 <= i < cs.len() implies #[trigger] clause_accepts(
            names,
            cs[i],
            row,
        ) by {
            assert(predicate_accepts(ps[i], row));
        }
    }
    if forall|i: int| 0 <= i < cs.len() ==> #[trigger] clause_accepts(names, cs[i], row) {
        assert forall|i: int| 0 <= i < ps.len() implies predicate_accepts(ps[i], row) by {
            assert(clause_accepts(names, cs[i], row));
        }
    }
}

/// A filter set with a clause that fails to compile fails.
pub proof fn lemma_failing_clause(names: Seq<Seq<char>>, cs: Seq<Seq<char>>, k: int)
    requires
        0 <= k < cs.len(),
        compile_clause(names, cs[k]) is Err,
    ensures
        compile_all(names, cs) is Err,
    decreases cs.len(),
{
    if k < cs.len() - 1 {
        assert(cs.drop_last()[k] == cs[k]);
        lemma_failing_clause(names, cs.drop_last(), k);
    }
}

/// A successful compilation is clause by clause.
pub proof fn lemma_compile_all_each(names: Seq<Seq<char>>, cs: Seq<Seq<char>>)
    requires
        compile_all(names, cs) is Ok,
    ensures
        compile_all(names, cs)->Ok_0.len() == cs.len(),
        forall|i: int|
            0 <= i < cs.len() ==> #[trigger] compile_clause(names, cs[i]) == Ok::<
                Predicate,
                QueryErrorModel,
            >(compile_all(names, cs)->Ok_0[i]),
    decreases cs.len(),
{
    if cs.len() > 0 {
        lemma_compile_all_each(names, cs.drop_last());
        assert forall|i: int| 0 <= i < cs.len() implies #[trigger] compile_clause(names, cs[i])
            == Ok::<Predicate, QueryErrorModel>(compile_all(names, cs)->Ok_0[i]) by {
            if i < cs.len() - 1 {
                assert(cs.drop_last()[i] == cs[i]);
            }
        }
    }
}

} // verus!
