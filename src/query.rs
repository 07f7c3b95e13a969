//! Rules on the read API's query parameters: pagination bounds, which sort
//! and filter keys a listing takes, and the links between pages.
use vstd::prelude::*;
use crate::text::{contains_text, text_contains};

verus! {

#[derive(Clone, Copy, Debug, PartialEq, Eq, Structural)]
pub struct PageParams {
    pub number: i64,
    pub size: i64,
}

/// The parameters of a listing request.
#[derive(Debug)]
pub struct QueryParams {
    pub page: Option<PageParams>,
    pub sort: Option<Vec<String>>,
    /// Filter keys, each with its values.
    pub filter: Option<Vec<(String, Vec<String>)>>,
    /// Related resources asked for alongside.
    pub related: Option<Vec<String>>,
    /// Sparse field sets, by resource type.
    pub fields: Option<Vec<(String, Vec<String>)>>,
}

#[derive(Clone, Copy, Debug, PartialEq, Eq, Structural)]
pub enum QueryErrorKind {
    /// A pagination attribute below zero.
    Negative,
    /// A parameter the listing needs is absent.
    Missing,
    /// A parameter the listing does not take is present.
    NotAllowed,
    /// A value outside the listing's accepted values.
    OptionalValue,
    /// More than one of the accepted values.
    MoreThanOne,
}

/// The parameter a refusal concerns.
#[derive(Clone, Copy, Debug, PartialEq, Eq, Structural)]
pub enum QueryParam {
    Page,
    PageSize,
    PageNumber,
    Sort,
    Filter,
    Related,
    Fields,
}

/// One refusal.
#[derive(Clone, Copy, Debug, PartialEq, Eq, Structural)]
pub struct QueryError {
    pub param: QueryParam,
    pub kind: QueryErrorKind,
}

pub open spec fn err_view(param: QueryParam, kind: QueryErrorKind) -> QueryError {
    QueryError { param, kind }
}

/// The errors of a list of values checked against the accepted ones: one
/// for a value outside them, one for more than one value.
pub open spec fn choice_errors(param: QueryParam, values: Seq<Seq<char>>, accepted: Seq<Seq<char>>) -> Seq<
    QueryError,
> {
    let outside = exists|i: int| 0 <= i < values.len() && !accepted.contains(#[trigger] values[i]);
    (if outside {
        seq![err_view(param, QueryErrorKind::OptionalValue)]
    } else {
        Seq::empty()
    }) + (if values.len() > 1 {
        seq![err_view(param, QueryErrorKind::MoreThanOne)]
    } else {
        Seq::empty()
    })
}

fn owned_all(items: &Vec<&str>) -> (r: Vec<String>)
    ensures
        r@.map_values(|s: String| s@) == items@.map_values(|s: &str| s@),
{
    let mut r: Vec<String> = Vec::new();
    let mut i: usize = 0;
    while i < items.len()
        invariant
            i <= items@.len(),
            r@.len() == i,
            forall|k: int| 0 <= k < i ==> #[trigger] r@[k]@ == items@[k]@,
        decreases items@.len() - i,
    {
        let item: &str = items[i];
        let owned: String = item.to_owned();
        r.push(owned);
        i = i + 1;
    }
    assert(r@.map_values(|s: String| s@) =~= items@.map_values(|s: &str| s@));
    r
}

fn filter_keys(pairs: &Vec<(String, Vec<String>)>) -> (r: Vec<String>)
    ensures
        r@.map_values(|s: String| s@) == pairs@.map_values(|p: (String, Vec<String>)| p.0@),
{
    let mut r: Vec<String> = Vec::new();
    let mut i: usize = 0;
    while i < pairs.len()
        invariant
            i <= pairs@.len(),
            r@.len() == i,
            forall|k: int| 0 <= k < i ==> #[trigger] r@[k]@ == pairs@[k].0@,
        decreases pairs@.len() - i,
    {
        r.push(pairs[i].0.clone());
        i = i + 1;
    }
    assert(r@.map_values(|s: String| s@) =~= pairs@.map_values(|p: (String, Vec<String>)| p.0@));
    r
}

/// Collects the refusals of a listing request, check by check.
pub struct QueryParamsValidator {
    query_params: QueryParams,
    errors: Vec<QueryError>,
}

impl QueryParamsValidator {
    pub closed spec fn errors(&self) -> Seq<QueryError> {
        self.errors@
    }

    pub closed spec fn params(&self) -> &QueryParams {
        &self.query_params
    }

    /// A validator with no refusal yet.
    pub fn new(query_params: QueryParams) -> (v: QueryParamsValidator)
        ensures
            v.errors() == Seq::<QueryError>::empty(),
            *v.params() == query_params,
    {
        let v = QueryParamsValidator { query_params, errors: Vec::new() };
        assert(v.errors() =~= Seq::<QueryError>::empty());
        v
    }

    fn push_error(&mut self, param: QueryParam, kind: QueryErrorKind)
        ensures
            final(self).errors() == old(self).errors().push(err_view(param, kind)),
            final(self).params() == old(self).params(),
    {
        self.errors.push(QueryError { param, kind });
    }

    /// The request as it came, or every refusal found, in order.
    pub fn collect_query(self) -> (r: Result<QueryParams, Vec<QueryError>>)
        ensures
            self.errors().len() == 0 ==> (r matches Ok(q) && q == *self.params()),
            self.errors().len() > 0 ==> (r matches Err(es) && es@ == self.errors()),
    {
        if self.errors.len() == 0 {
            Ok(self.query_params)
        } else {
            Err(self.errors)
        }
    }

    /// Refuses a missing page, and a page size or number below zero.
    pub fn valid_pagination(self) -> (v: QueryParamsValidator)
        ensures
            *v.params() == *self.params(),
            v.errors() == self.errors() + match self.params().page {
                None => seq![err_view(QueryParam::Page, QueryErrorKind::Missing)],
                Some(p) => (if p.size < 0 {
                    seq![err_view(QueryParam::PageSize, QueryErrorKind::Negative)]
                } else {
                    Seq::empty()
                }) + (if p.number < 0 {
                    seq![err_view(QueryParam::PageNumber, QueryErrorKind::Negative)]
                } else {
                    Seq::empty()
                }),
            },
    {
        let mut v = self;
        match v.query_params.page {
            None => {
                v.push_error(QueryParam::Page, QueryErrorKind::Missing);
            },
            Some(p) => {
                if p.size < 0 {
                    v.push_error(QueryParam::PageSize, QueryErrorKind::Negative);
                }
                if p.number < 0 {
                    v.push_error(QueryParam::PageNumber, QueryErrorKind::Negative);
                }
            },
        }
        proof {
            let e = self.errors();
            match self.params().page {
                None => {},
                Some(p) => {
                    let a: Seq<QueryError> = if p.size < 0 {
                        seq![err_view(QueryParam::PageSize, QueryErrorKind::Negative)]
                    } else {
                        Seq::empty()
                    };
                    let b: Seq<QueryError> = if p.number < 0 {
                        seq![err_view(QueryParam::PageNumber, QueryErrorKind::Negative)]
                    } else {
                        Seq::empty()
                    };
                    assert(v.errors() =~= e + (a + b));
                },
            }
        }
        v
    }

    /// Checks `values` against `accepted`: a refusal for a value outside
    /// them, and one for more than one value.
    fn check_choice(&mut self, param: QueryParam, values: &Vec<String>, accepted: &Vec<String>)
        ensures
            final(self).params() == old(self).params(),
            final(self).errors() == old(self).errors() + choice_errors(
                param,
                values@.map_values(|s: String| s@),
                accepted@.map_values(|s: String| s@),
            ),
    {
        let ghost vs = values@.map_values(|s: String| s@);
        let ghost acc = accepted@.map_values(|s: String| s@);
        let mut outside = false;
        let mut i: usize = 0;
        while i < values.len()
            invariant
                i <= values@.len(),
                vs == values@.map_values(|s: String| s@),
                acc == accepted@.map_values(|s: String| s@),
                outside == exists|k: int| 0 <= k < i && !acc.contains(#[trigger] vs[k]),
            decreases values@.len() - i,
        {
            let mut found = false;
            let mut j: usize = 0;
            while j < accepted.len()
                invariant
                    j <= accepted@.len(),
                    i < values@.len(),
                    found == exists|k: int| 0 <= k < j && #[trigger] accepted@[k]@ == values@[i as int]@,
                decreases accepted@.len() - j,
            {
                if accepted[j] == values[i] {
                    found = true;
                }
                j = j + 1;
            }
            proof {
                assert(vs[i as int] == values@[i as int]@);
                if found {
                    let k = choose|k: int| 0 <= k < j && #[trigger] accepted@[k]@ == values@[i as int]@;
                    assert(acc[k] == accepted@[k]@);
                    assert(acc.contains(vs[i as int]));
                } else {
                    assert forall|k: int| 0 <= k < acc.len() implies #[trigger] acc[k] != vs[i as int] by {
                        assert(acc[k] == accepted@[k]@);
                    }
                }
                let ghost out_now = exists|k: int| 0 <= k < i + 1 && !acc.contains(#[trigger] vs[k]);
                if !found {
                    assert(!acc.contains(vs[i as int]));
                    assert(out_now);
                } else if out_now {
                    let k = choose|k: int| 0 <= k < i + 1 && !acc.contains(#[trigger] vs[k]);
                    assert(k < i);
                }
            }
            if !found {
                outside = true;
            }
            i = i + 1;
        }
        let ghost before = self.errors();
        if outside {
            self.push_error(param, QueryErrorKind::OptionalValue);
        }
        if values.len() > 1 {
            self.push_error(param, QueryErrorKind::MoreThanOne);
        }
        assert(self.errors() =~= before + choice_errors(param, vs, acc));
    }

    /// Takes exactly one sort, among `required`.
    pub fn only_one_sort(self, required: Vec<&str>) -> (v: QueryParamsValidator)
        ensures
            *v.params() == *self.params(),
            v.errors() == self.errors() + match self.params().sort {
                None => seq![err_view(QueryParam::Sort, QueryErrorKind::Missing)],
                Some(values) => choice_errors(
                    QueryParam::Sort,
                    values@.map_values(|s: String| s@),
                    required@.map_values(|s: &str| s@),
                ),
            },
    {
        let mut v = self;
        let accepted = owned_all(&required);
        let sort = v.query_params.sort.take();
        match &sort {
            None => {
                v.push_error(QueryParam::Sort, QueryErrorKind::Missing);
            },
            Some(values) => {
                v.check_choice(QueryParam::Sort, values, &accepted);
            },
        }
        v.query_params.sort = sort;
        v
    }

    /// Takes exactly one filter key, among `required`.
    pub fn only_one_filter(self, required: Vec<&str>) -> (v: QueryParamsValidator)
        ensures
            *v.params() == *self.params(),
            v.errors() == self.errors() + match self.params().filter {
                None => seq![err_view(QueryParam::Filter, QueryErrorKind::Missing)],
                Some(pairs) => choice_errors(
                    QueryParam::Filter,
                    pairs@.map_values(|p: (String, Vec<String>)| p.0@),
                    required@.map_values(|s: &str| s@),
                ),
            },
    {
        let mut v = self;
        let accepted = owned_all(&required);
        let filter = v.query_params.filter.take();
        match &filter {
            None => {
                v.push_error(QueryParam::Filter, QueryErrorKind::Missing);
            },
            Some(pairs) => {
                let keys = filter_keys(pairs);
                v.check_choice(QueryParam::Filter, &keys, &accepted);
            },
        }
        v.query_params.filter = filter;
        v
    }

    /// Refuses any filter.
    pub fn no_filter(self) -> (v: QueryParamsValidator)
        ensures
            *v.params() == *self.params(),
            v.errors() == self.errors() + if self.params().filter is Some {
                seq![err_view(QueryParam::Filter, QueryErrorKind::NotAllowed)]
            } else {
                Seq::empty()
            },
    {
        let mut v = self;
        if v.query_params.filter.is_some() {
            v.push_error(QueryParam::Filter, QueryErrorKind::NotAllowed);
        }
        assert(v.errors() =~= self.errors() + if self.params().filter is Some {
            seq![err_view(QueryParam::Filter, QueryErrorKind::NotAllowed)]
        } else {
            Seq::empty()
        });
        v
    }

    /// Refuses any request for related resources.
    pub fn no_include(self) -> (v: QueryParamsValidator)
        ensures
            *v.params() == *self.params(),
            v.errors() == self.errors() + if self.params().related is Some {
                seq![err_view(QueryParam::Related, QueryErrorKind::NotAllowed)]
            } else {
                Seq::empty()
            },
    {
        let mut v = self;
        if v.query_params.related.is_some() {
            v.push_error(QueryParam::Related, QueryErrorKind::NotAllowed);
        }
        assert(v.errors() =~= self.errors() + if self.params().related is Some {
            seq![err_view(QueryParam::Related, QueryErrorKind::NotAllowed)]
        } else {
            Seq::empty()
        });
        v
    }

    /// Refuses any sparse field set.
    pub fn no_fields(self) -> (v: QueryParamsValidator)
        ensures
            *v.params() == *self.params(),
            v.errors() == self.errors() + if self.params().fields is Some {
                seq![err_view(QueryParam::Fields, QueryErrorKind::NotAllowed)]
            } else {
                Seq::empty()
            },
    {
        let mut v = self;
        if v.query_params.fields.is_some() {
            v.push_error(QueryParam::Fields, QueryErrorKind::NotAllowed);
        }
        assert(v.errors() =~= self.errors() + if self.params().fields is Some {
            seq![err_view(QueryParam::Fields, QueryErrorKind::NotAllowed)]
        } else {
            Seq::empty()
        });
        v
    }
}

/// The pages next to the current one that a listing links to.
#[derive(Clone, Copy, Debug, PartialEq, Eq, Structural)]
pub struct PageLinks {
    pub first: Option<i64>,
    pub prev: Option<i64>,
    pub next: Option<i64>,
    pub last: Option<i64>,
}

/// The number of the last page: one less than the count of full pages.
pub open spec fn last_page(total_count: int, size: int) -> int {
    if size != 0 {
        total_count / size - 1
    } else {
        0
    }
}

/// Links from page `page` of a listing of `total_count` rows: first and
/// previous past the first page, next and last before the last one; none
/// at all when neither applies.
pub fn page_links(total_count: i64, page: PageParams) -> (r: Option<PageLinks>)
    requires
        0 <= total_count,
        0 <= page.size,
        0 <= page.number,
    ensures
        ({
            let last = last_page(total_count as int, page.size as int);
            let back = page.number > 0;
            let ahead = page.number < last;
            &&& r is None <==> !back && !ahead
            &&& r matches Some(l) ==> {
                &&& l.first == (if back { Some(0i64) } else { None })
                &&& l.prev == (if back { Some((page.number - 1) as i64) } else { None })
                &&& l.next == (if ahead { Some((page.number + 1) as i64) } else { None })
                &&& l.last == (if ahead { Some(last as i64) } else { None })
            }
        }),
{
    let last: i64 = if page.size != 0 { total_count / page.size - 1 } else { 0 };
    let back = page.number > 0;
    let ahead = page.number < last;
    if !back && !ahead {
        return None;
    }
    Some(PageLinks {
        first: if back { Some(0) } else { None },
        prev: if back { Some(page.number - 1) } else { None },
        next: if ahead { Some(page.number + 1) } else { None },
        last: if ahead { Some(last) } else { None },
    })
}

/// One ordering term: a leading `-` asks for descending order.
pub open spec fn sort_term(c: Seq<char>) -> Seq<char> {
    if c.len() > 0 && c[0] == '-' {
        c.drop_first() + " DESC"@
    } else {
        c + " ASC"@
    }
}

pub open spec fn sort_terms(cs: Seq<Seq<char>>) -> Seq<char>
    decreases cs.len(),
{
    if cs.len() == 0 {
        Seq::empty()
    } else if cs.len() == 1 {
        sort_term(cs[0])
    } else {
        sort_terms(cs.drop_last()) + ", "@ + sort_term(cs.last())
    }
}

/// The `ORDER BY` clause for the sort columns; empty without a sort.
pub fn sort_to_sql(sort: Option<Vec<String>>) -> (r: String)
    ensures
        r@ == match sort {
            None => Seq::<char>::empty(),
            Some(cols) => "ORDER BY "@ + sort_terms(cols@.map_values(|c: String| c@)),
        },
{
    match sort {
        None => String::new(),
        Some(cols) => {
            let ghost cs = cols@.map_values(|c: String| c@);
            let mut r = String::from_str("ORDER BY ");
            let mut i: usize = 0;
            while i < cols.len()
                invariant
                    i <= cols@.len(),
                    cs == cols@.map_values(|c: String| c@),
                    r@ == "ORDER BY "@ + sort_terms(cs.subrange(0, i as int)),
                decreases cols@.len() - i,
            {
                if i > 0 {
                    r.append(", ");
                }
                let col = cols[i].as_str();
                let n = col.unicode_len();
                if n > 0 && col.get_char(0) == '-' {
                    r.append(col.substring_char(1, n));
                    r.append(" DESC");
                } else {
                    r.append(col);
                    r.append(" ASC");
                }
                proof {
                    let p = cs.subrange(0, i + 1);
                    assert(p.drop_last() =~= cs.subrange(0, i as int));
                    assert(p.last() == col@);
                    if n > 0 && col@[0] == '-' {
                        assert(col@.subrange(1, n as int) =~= col@.drop_first());
                    }
                    assert(r@ =~= "ORDER BY "@ + sort_terms(p));
                }
                i = i + 1;
            }
            assert(cs.subrange(0, i as int) =~= cs);
            r
        },
    }
}

/// Columns holding addresses, which the store keeps as bytes.
pub open spec fn is_address_column(key: Seq<char>) -> bool {
    contains_text(key, "holder_addr"@) || contains_text(key, "contract_addr"@)
}

/// The items of `vs` with `sep` between each two.
pub open spec fn join_text(vs: Seq<Seq<char>>, sep: Seq<char>) -> Seq<char>
    decreases vs.len(),
{
    if vs.len() == 0 {
        Seq::empty()
    } else if vs.len() == 1 {
        vs[0]
    } else {
        join_text(vs.drop_last(), sep) + sep + vs.last()
    }
}

/// The condition on one filter key: equality with its one value, or
/// membership in its values; address values are decoded from hexadecimal.
pub open spec fn filter_condition(key: Seq<char>, values: Seq<Seq<char>>) -> Seq<char> {
    if is_address_column(key) {
        if values.len() == 1 {
            key + " = decode('"@ + values[0] + "', 'hex')"@
        } else {
            key + " IN (decode('"@ + join_text(values, "', 'hex'), decode('"@) + "', 'hex'))"@
        }
    } else {
        if values.len() == 1 {
            key + " = '"@ + values[0] + "'"@
        } else {
            key + " IN ('"@ + join_text(values, "', '"@) + "')"@
        }
    }
}

pub open spec fn filter_conditions(pairs: Seq<(String, Vec<String>)>) -> Seq<Seq<char>> {
    Seq::new(
        pairs.len(),
        |i: int| filter_condition(pairs[i].0@, pairs[i].1@.map_values(|v: String| v@)),
    )
}

/// Appends the items of `values` with `sep` between each two.
fn append_joined(r: &mut String, values: &Vec<String>, sep: &str)
    ensures
        final(r)@ == old(r)@ + join_text(values@.map_values(|v: String| v@), sep@),
{
    let ghost vs = values@.map_values(|v: String| v@);
    let mut i: usize = 0;
    while i < values.len()
        invariant
            i <= values@.len(),
            vs == values@.map_values(|v: String| v@),
            r@ == old(r)@ + join_text(vs.subrange(0, i as int), sep@),
        decreases values@.len() - i,
    {
        if i > 0 {
            r.append(sep);
        }
        r.append(values[i].as_str());
        proof {
            let p = vs.subrange(0, i + 1);
            assert(p.drop_last() =~= vs.subrange(0, i as int));
            assert(r@ =~= old(r)@ + join_text(p, sep@));
        }
        i = i + 1;
    }
    assert(vs.subrange(0, i as int) =~= vs);
}

fn filter_condition_text(key: &String, values: &Vec<String>) -> (r: String)
    ensures
        r@ == filter_condition(key@, values@.map_values(|v: String| v@)),
{
    let address = text_contains(key.as_str(), "holder_addr") || text_contains(
        key.as_str(),
        "contract_addr",
    );
    let mut r = key.clone();
    if address {
        if values.len() == 1 {
            r.append(" = decode('");
            r.append(values[0].as_str());
            r.append("', 'hex')");
        } else {
            r.append(" IN (decode('");
            append_joined(&mut r, values, "', 'hex'), decode('");
            r.append("', 'hex'))");
        }
    } else {
        if values.len() == 1 {
            r.append(" = '");
            r.append(values[0].as_str());
            r.append("'");
        } else {
            r.append(" IN ('");
            append_joined(&mut r, values, "', '");
            r.append("')");
        }
    }
    proof {
        let vs = values@.map_values(|v: String| v@);
        if values.len() == 1 {
            assert(vs[0] == values@[0]@);
        }
        assert(r@ =~= filter_condition(key@, vs));
    }
    r
}

/// The `WHERE` clause that ties all filter keys together.
pub fn filter_to_sql(filter: Vec<(String, Vec<String>)>) -> (r: String)
    ensures
        r@ == "WHERE "@ + join_text(filter_conditions(filter@), " AND "@),
{
    let ghost cs = filter_conditions(filter@);
    let mut r = String::from_str("WHERE ");
    let mut i: usize = 0;
    while i < filter.len()
        invariant
            i <= filter@.len(),
            cs == filter_conditions(filter@),
            r@ == "WHERE "@ + join_text(cs.subrange(0, i as int), " AND "@),
        decreases filter@.len() - i,
    {
        if i > 0 {
            r.append(" AND ");
        }
        let condition = filter_condition_text(&filter[i].0, &filter[i].1);
        r.append(condition.as_str());
        proof {
            let p = cs.subrange(0, i + 1);
            assert(p.drop_last() =~= cs.subrange(0, i as int));
            assert(p.last() == condition@);
            assert(r@ =~= "WHERE "@ + join_text(p, " AND "@));
        }
        i = i + 1;
    }
    assert(cs.subrange(0, i as int) =~= cs);
    r
}

} // verus!
