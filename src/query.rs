//! Column projection and the compiled query: projection and filters resolved
//! against the schema before any row is read.

use vstd::prelude::*;
use vstd::string::*;
use csv::StringRecord;
use crate::record::record_fields;
use crate::schema::{Schema, lookup, lemma_lookup_valid};
use crate::text::{split_spec, split_on, join_spec, join_with, views};
use crate::filter::{
    QueryError, QueryErrorModel, Predicate, RowFilter, compile_filter_set, compile_filters,
    filter_models, all_wf,
};

verus! {

/// Column names resolved in order; the first that does not resolve decides the error.
pub open spec fn resolve_all(names: Seq<Seq<char>>, cols: Seq<Seq<char>>) -> Result<
    Seq<int>,
    QueryErrorModel,
>
    decreases cols.len(),
{
    if cols.len() == 0 {
        Ok(Seq::empty())
    } else {
        match resolve_all(names, cols.drop_last()) {
            Err(e) => Err(e),
            Ok(ix) => match lookup(names, cols.last()) {
                Some(i) => Ok(ix.push(i)),
                None => Err(QueryErrorModel::UnknownColumn(cols.last())),
            },
        }
    }
}

/// A comma-separated projection resolved against `names`.
pub open spec fn projection_spec(names: Seq<Seq<char>>, spec: Seq<char>) -> Result<
    Seq<int>,
    QueryErrorModel,
> {
    resolve_all(names, split_spec(spec, ','))
}

pub open spec fn usizes(v: Seq<usize>) -> Seq<int> {
    v.map_values(|i: usize| i as int)
}

/// Resolves a comma-separated list of column names against `schema`, keeping
/// the listed order (repeats included) and stopping at the first unknown name.
pub fn resolve_projection(spec: &str, schema: &Schema) -> (r: Result<Vec<usize>, QueryError>)
    ensures
        match r {
            Ok(ix) => projection_spec(schema@, spec@) == Ok::<Seq<int>, QueryErrorModel>(
                usizes(ix@),
            ),
            Err(e) => projection_spec(schema@, spec@) == Err::<Seq<int>, QueryErrorModel>(e@),
        },
{
    let cols = split_on(spec, ',');
    let ghost cs = views(cols@);
    let mut ix: Vec<usize> = Vec::new();
    let mut i: usize = 0;
    proof {
        assert(cs.take(0) =~= Seq::<Seq<char>>::empty());
        assert(usizes(ix@) =~= Seq::<int>::empty());
    }
    while i < cols.len()
        invariant
            i <= cols.len(),
            cs == views(cols@),
            cs == split_spec(spec@, ','),
            resolve_all(schema@, cs.take(i as int)) == Ok::<Seq<int>, QueryErrorModel>(
                usizes(ix@),
            ),
        decreases cols.len() - i,
    {
        proof {
            assert(cs.take(i + 1).drop_last() =~= cs.take(i as int));
            assert(cs.take(i + 1).last() == cols@[i as int]@);
        }
        match schema.resolve(cols[i].as_str()) {
            Some(k) => {
                let ghost prev = ix@;
                ix.push(k);
                proof {
                    assert(usizes(ix@) =~= usizes(prev).push(k as int));
                }
            },
            None => {
                proof {
                    lemma_resolve_all_err(schema@, cs, i + 1);
                    assert(cs.take(cs.len() as int) =~= cs);
                }
                return Err(QueryError::UnknownColumn(cols[i].clone()));
            },
        }
        i = i + 1;
    }
    proof {
        assert(cs.take(cs.len() as int) =~= cs);
    }
    Ok(ix)
}

proof fn lemma_resolve_all_err(names: Seq<Seq<char>>, cs: Seq<Seq<char>>, k: int)
    requires
        0 <= k <= cs.len(),
        resolve_all(names, cs.take(k)) is Err,
    ensures
        resolve_all(names, cs.take(cs.len() as int)) == resolve_all(names, cs.take(k)),
    decreases cs.len() - k,
{
    if k < cs.len() {
        assert(cs.take(k + 1).drop_last() =~= cs.take(k));
        lemma_resolve_all_err(names, cs, k + 1);
    }
}

/// A query compiled against a schema.
pub struct QueryModel {
    /// The projected columns in output order; `None` prints records whole.
    pub projection: Option<Seq<int>>,
    /// The header line printed before the rows when a projection is set.
    pub header: Option<Seq<char>>,
    pub predicates: Seq<Predicate>,
}

/// The names of the projected columns, in output order.
pub open spec fn projected_names(names: Seq<Seq<char>>, ix: Seq<int>) -> Seq<Seq<char>> {
    ix.map_values(|i: int| names[i])
}

/// Compiles the projection first, then the filters, against `names`.
pub open spec fn compile_query(
    names: Seq<Seq<char>>,
    cols: Option<Seq<char>>,
    filters: Option<Seq<char>>,
) -> Result<QueryModel, QueryErrorModel> {
    let proj: Result<Option<Seq<int>>, QueryErrorModel> = match cols {
        None => Ok(None),
        Some(c) => match projection_spec(names, c) {
            Ok(ix) => Ok(Some(ix)),
            Err(e) => Err(e),
        },
    };
    let preds: Result<Seq<Predicate>, QueryErrorModel> = match filters {
        None => Ok(Seq::empty()),
        Some(f) => compile_filter_set(names, f),
    };
    match proj {
        Err(e) => Err(e),
        Ok(p) => match preds {
            Err(e) => Err(e),
            Ok(ps) => Ok(
                QueryModel {
                    projection: p,
                    header: match p {
                        Some(ix) => Some(join_spec(projected_names(names, ix), ',')),
                        None => None,
                    },
                    predicates: ps,
                },
            ),
        },
    }
}

/// The field at column `i`, or empty text where the row is shorter.
pub open spec fn field_or_empty(row: Seq<Seq<char>>, i: int) -> Seq<char> {
    if 0 <= i < row.len() {
        row[i]
    } else {
        Seq::empty()
    }
}

/// The projected fields of `row`, in output order.
pub open spec fn project_fields(ix: Seq<int>, row: Seq<Seq<char>>) -> Seq<Seq<char>> {
    ix.map_values(|i: int| field_or_empty(row, i))
}

/// The output line of an emitted row under a projection; `None` where the
/// record is printed whole.
pub open spec fn row_line_spec(q: QueryModel, row: Seq<Seq<char>>) -> Option<Seq<char>> {
    match q.projection {
        Some(ix) => Some(join_spec(project_fields(ix, row), ',')),
        None => None,
    }
}

/// A projection and a filter set, compiled against one schema.
pub struct Query {
    projection: Option<Vec<usize>>,
    header: Option<String>,
    filters: Vec<RowFilter>,
}

impl View for Query {
    type V = QueryModel;

    closed spec fn view(&self) -> QueryModel {
        QueryModel {
            projection: match self.projection {
                Some(ix) => Some(usizes(ix@)),
                None => None,
            },
            header: match self.header {
                Some(h) => Some(h@),
                None => None,
            },
            predicates: filter_models(self.filters@),
        }
    }
}

impl Query {
    pub closed spec fn wf(&self) -> bool {
        all_wf(self.filters@)
    }

    /// Resolves the projection `cols`, then compiles the filter set `filters`,
    /// against `schema`. Any unknown column or malformed clause fails the whole
    /// query, before any row is looked at.
    pub fn compile(schema: &Schema, cols: Option<&str>, filters: Option<&str>) -> (r: Result<
        Query,
        QueryError,
    >)
        ensures
            match r {
                Ok(q) => q.wf() && compile_query(
                    schema@,
                    match cols {
                        Some(c) => Some(c@),
                        None => None,
                    },
                    match filters {
                        Some(f) => Some(f@),
                        None => None,
                    },
                ) == Ok::<QueryModel, QueryErrorModel>(q@),
                Err(e) => compile_query(
                    schema@,
                    match cols {
                        Some(c) => Some(c@),
                        None => None,
                    },
                    match filters {
                        Some(f) => Some(f@),
                        None => None,
                    },
                ) == Err::<QueryModel, QueryErrorModel>(e@),
            },
    {
        let mut projection: Option<Vec<usize>> = None;
        let mut header: Option<String> = None;
        if let Some(c) = cols {
            match resolve_projection(c, schema) {
                Ok(ix) => {
                    proof {
                        let cs = split_spec(c@, ',');
                        lemma_resolve_all_valid(schema@, cs);
                        assert forall|k: int| 0 <= k < ix@.len() implies ix@[k] < schema@.len() by {
                            assert(lookup(schema@, cs[k]) == Some(usizes(ix@)[k]));
                            lemma_lookup_valid(schema@, cs[k]);
                        }
                    }
                    let h = header_of(schema, &ix);
                    header = Some(h);
                    projection = Some(ix);
                },
                Err(e) => {
                    return Err(e);
                },
            }
        }
        let mut fs: Vec<RowFilter> = Vec::new();
        if let Some(f) = filters {
            match compile_filters(f, schema) {
                Ok(v) => {
                    fs = v;
                },
                Err(e) => {
                    return Err(e);
                },
            }
        } else {
            proof {
                assert(filter_models(fs@) =~= Seq::<Predicate>::empty());
            }
        }
        let q = Query { projection, header, filters: fs };
        proof {
            if let Some(c) = cols {
                assert(q@.projection == Some(usizes(q.projection->0@)));
            }
        }
        Ok(q)
    }

    /// The header line to print before the rows: the projected column names
    /// joined with `,`, or `None` without a projection.
    pub fn header_line(&self) -> (r: Option<String>)
        ensures
            match r {
                Some(h) => self@.header == Some(h@),
                None => self@.header is None,
            },
    {
        match &self.header {
            Some(h) => Some(h.clone()),
            None => None,
        }
    }

    /// Whether `row` passes every filter of the query.
    pub fn accepts(&self, row: &StringRecord) -> (r: bool)
        requires
            self.wf(),
        ensures
            r == crate::filter::set_accepts(self@.predicates, record_fields(*row)),
    {
        crate::filter::accepts_all(&self.filters, row)
    }

    /// The output line of an emitted row: its projected fields joined with `,`,
    /// a missing field as empty text; `None` without a projection.
    pub fn row_line(&self, row: &StringRecord) -> (r: Option<String>)
        ensures
            match r {
                Some(l) => row_line_spec(self@, record_fields(*row)) == Some(l@),
                None => row_line_spec(self@, record_fields(*row)) is None,
            },
    {
        match &self.projection {
            None => None,
            Some(ix) => {
                let mut fields: Vec<String> = Vec::new();
                let mut k: usize = 0;
                while k < ix.len()
                    invariant
                        k <= ix@.len(),
                        views(fields@) == project_fields(usizes(ix@), record_fields(*row)).take(
                            k as int,
                        ),
                    decreases ix.len() - k,
                {
                    let f = match row.get(ix[k]) {
                        Some(s) => String::from_str(s),
                        None => String::new(),
                    };
                    let ghost prev = fields@;
                    fields.push(f);
                    proof {
                        let pf = project_fields(usizes(ix@), record_fields(*row));
                        assert(views(fields@) =~= views(prev).push(f@));
                        assert(pf.take(k + 1) =~= pf.take(k as int).push(pf[k as int]));
                    }
                    k = k + 1;
                }
                proof {
                    let pf = project_fields(usizes(ix@), record_fields(*row));
                    assert(pf.take(pf.len() as int) =~= pf);
                }
                proof {
                    reveal_strlit(",");
                }
                Some(join_with(&fields, ","))
            },
        }
    }
}

/// A resolved projection lists the columns in the caller's order, not the
/// file's: its names are the listed names, and each projected field of a row
/// is that row's field in the column the listed name resolves to.
pub proof fn lemma_projection_order(names: Seq<Seq<char>>, cols: Seq<char>, row: Seq<Seq<char>>)
    requires
        projection_spec(names, cols) is Ok,
    ensures
        projected_names(names, projection_spec(names, cols)->Ok_0) == split_spec(cols, ','),
        project_fields(projection_spec(names, cols)->Ok_0, row).len() == split_spec(cols, ',').len(),
        forall|k: int|
            0 <= k < split_spec(cols, ',').len() ==> #[trigger] project_fields(
                projection_spec(names, cols)->Ok_0,
                row,
            )[k] == field_or_empty(row, lookup(names, split_spec(cols, ',')[k])->0),
{
    let cs = split_spec(cols, ',');
    let ix = projection_spec(names, cols)->Ok_0;
    lemma_resolve_all_valid(names, cs);
    assert forall|k: int| 0 <= k < cs.len() implies projected_names(names, ix)[k] == cs[k] by {
        lemma_lookup_valid(names, cs[k]);
    }
    assert(projected_names(names, ix) =~= cs);
}

/// A projection that lists a name absent from the header fails.
pub proof fn lemma_unknown_projection(names: Seq<Seq<char>>, cs: Seq<Seq<char>>, k: int)
    requires
        0 <= k < cs.len(),
        !names.contains(cs[k]),
    ensures
        resolve_all(names, cs) is Err,
    decreases cs.len(),
{
    lemma_lookup_valid(names, cs[k]);
    if k < cs.len() - 1 {
        assert(cs.drop_last()[k] == cs[k]);
        lemma_unknown_projection(names, cs.drop_last(), k);
    }
}

proof fn lemma_resolve_all_valid(names: Seq<Seq<char>>, cs: Seq<Seq<char>>)
    requires
        resolve_all(names, cs) is Ok,
    ensures
        resolve_all(names, cs)->Ok_0.len() == cs.len(),
        forall|k: int|
            0 <= k < cs.len() ==> #[trigger] lookup(names, cs[k]) == Some(
                resolve_all(names, cs)->Ok_0[k],
            ),
    decreases cs.len(),
{
    if cs.len() > 0 {
        lemma_resolve_all_valid(names, cs.drop_last());
        assert forall|k: int| 0 <= k < cs.len() implies #[trigger] lookup(names, cs[k]) == Some(
            resolve_all(names, cs)->Ok_0[k],
        ) by {
            if k < cs.len() - 1 {
                assert(cs.drop_last()[k] == cs[k]);
            }
        }
    }
}

/// The projected column names joined with `,`.
fn header_of(schema: &Schema, ix: &Vec<usize>) -> (r: String)
    requires
        forall|k: int| 0 <= k < ix@.len() ==> ix@[k] < schema@.len(),
    ensures
        r@ == join_spec(projected_names(schema@, usizes(ix@)), ','),
{
    let mut names: Vec<String> = Vec::new();
    let mut k: usize = 0;
    while k < ix.len()
        invariant
            k <= ix@.len(),
            forall|j: int| 0 <= j < ix@.len() ==> ix@[j] < schema@.len(),
            views(names@) == projected_names(schema@, usizes(ix@)).take(k as int),
        decreases ix.len() - k,
    {
        let n = String::from_str(schema.name(ix[k]));
        let ghost prev = names@;
        names.push(n);
        proof {
            let pn = projected_names(schema@, usizes(ix@));
            assert(views(names@) =~= views(prev).push(n@));
            assert(pn.take(k + 1) =~= pn.take(k as int).push(pn[k as int]));
        }
        k = k + 1;
    }
    proof {
        let pn = projected_names(schema@, usizes(ix@));
        assert(pn.take(pn.len() as int) =~= pn);
    }
    proof {
        reveal_strlit(",");
    }
    join_with(&names, ",")
}

} // verus!
