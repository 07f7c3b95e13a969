use token_holders::document::{check_single_resource, first_occurrences, DocumentError, DocumentOutline, Primary};
use token_holders::query::{
    filter_to_sql, page_links, sort_to_sql, PageLinks, PageParams, QueryError, QueryErrorKind, QueryParam,
    QueryParams, QueryParamsValidator,
};

fn params(page: Option<PageParams>, sort: Option<Vec<&str>>, filter: Option<Vec<(&str, Vec<&str>)>>) -> QueryParams {
    QueryParams {
        page,
        sort: sort.map(|v| v.into_iter().map(|s| s.to_string()).collect()),
        filter: filter.map(|v| {
            v.into_iter()
                .map(|(k, vs)| (k.to_string(), vs.into_iter().map(|s| s.to_string()).collect()))
                .collect()
        }),
        related: None,
        fields: None,
    }
}

fn err(param: QueryParam, kind: QueryErrorKind) -> QueryError {
    QueryError { param, kind }
}

#[test]
fn token_listing_accepts_one_symbol_sort() {
    let q = params(Some(PageParams { number: 0, size: 10 }), Some(vec!["-symbol"]), None);
    let r = QueryParamsValidator::new(q)
        .valid_pagination()
        .only_one_sort(vec!["symbol", "-symbol"])
        .no_filter()
        .no_include()
        .no_fields()
        .collect_query()
        .unwrap();
    assert_eq!(r.sort.unwrap(), vec!["-symbol".to_string()]);
}

#[test]
fn validator_collects_every_refusal() {
    let q = params(
        Some(PageParams { number: -1, size: -5 }),
        Some(vec!["symbol", "name"]),
        Some(vec![("x", vec!["1"])]),
    );
    let errors = QueryParamsValidator::new(q)
        .valid_pagination()
        .only_one_sort(vec!["symbol", "-symbol"])
        .no_filter()
        .collect_query()
        .unwrap_err();
    assert_eq!(
        errors,
        vec![
            err(QueryParam::PageSize, QueryErrorKind::Negative),
            err(QueryParam::PageNumber, QueryErrorKind::Negative),
            err(QueryParam::Sort, QueryErrorKind::OptionalValue),
            err(QueryParam::Sort, QueryErrorKind::MoreThanOne),
            err(QueryParam::Filter, QueryErrorKind::NotAllowed),
        ]
    );
}

#[test]
fn missing_page_and_sort_are_refused() {
    let errors = QueryParamsValidator::new(params(None, None, None))
        .valid_pagination()
        .only_one_sort(vec!["amount"])
        .only_one_filter(vec!["holder.holder_addr"])
        .collect_query()
        .unwrap_err();
    assert_eq!(
        errors,
        vec![
            err(QueryParam::Page, QueryErrorKind::Missing),
            err(QueryParam::Sort, QueryErrorKind::Missing),
            err(QueryParam::Filter, QueryErrorKind::Missing),
        ]
    );
}

#[test]
fn balance_listing_takes_one_filter_key() {
    let ok = QueryParamsValidator::new(params(
        Some(PageParams { number: 1, size: 2 }),
        Some(vec!["amount"]),
        Some(vec![("token.contract_addr", vec!["ab", "cd"])]),
    ))
    .only_one_filter(vec!["holder.holder_addr", "token.contract_addr"])
    .collect_query();
    assert!(ok.is_ok());
    let bad = QueryParamsValidator::new(params(
        Some(PageParams { number: 1, size: 2 }),
        None,
        Some(vec![("token.contract_addr", vec!["ab"]), ("holder.holder_addr", vec!["cd"])]),
    ))
    .only_one_filter(vec!["holder.holder_addr", "token.contract_addr"])
    .collect_query()
    .unwrap_err();
    assert_eq!(bad, vec![err(QueryParam::Filter, QueryErrorKind::MoreThanOne)]);
}

#[test]
fn related_and_fields_are_refused() {
    let mut q = params(Some(PageParams { number: 0, size: 1 }), None, None);
    q.related = Some(vec!["token".to_string()]);
    q.fields = Some(vec![("token".to_string(), vec!["symbol".to_string()])]);
    let errors = QueryParamsValidator::new(q).no_include().no_fields().collect_query().unwrap_err();
    assert_eq!(
        errors,
        vec![err(QueryParam::Related, QueryErrorKind::NotAllowed), err(QueryParam::Fields, QueryErrorKind::NotAllowed)]
    );
}

#[test]
fn links_between_pages() {
    assert_eq!(page_links(100, PageParams { number: 0, size: 10 }),
        Some(PageLinks { first: None, prev: None, next: Some(1), last: Some(9) }));
    assert_eq!(page_links(100, PageParams { number: 5, size: 10 }),
        Some(PageLinks { first: Some(0), prev: Some(4), next: Some(6), last: Some(9) }));
    assert_eq!(page_links(100, PageParams { number: 9, size: 10 }),
        Some(PageLinks { first: Some(0), prev: Some(8), next: None, last: None }));
    assert_eq!(page_links(5, PageParams { number: 0, size: 10 }), None);
    assert_eq!(page_links(5, PageParams { number: 0, size: 0 }), None);
}

#[test]
fn order_by_clause() {
    assert_eq!(sort_to_sql(None), "");
    assert_eq!(sort_to_sql(Some(vec!["-amount".to_string()])), "ORDER BY amount DESC");
    assert_eq!(
        sort_to_sql(Some(vec!["symbol".to_string(), "-amount".to_string()])),
        "ORDER BY symbol ASC, amount DESC"
    );
}

#[test]
fn where_clause() {
    let f = vec![
        ("holder.holder_addr".to_string(), vec!["ab".to_string()]),
        ("token.symbol".to_string(), vec!["X".to_string(), "Y".to_string()]),
    ];
    assert_eq!(
        filter_to_sql(f),
        "WHERE holder.holder_addr = decode('ab', 'hex') AND token.symbol IN ('X', 'Y')"
    );
    let g = vec![("token.contract_addr".to_string(), vec!["ab".to_string(), "cd".to_string()])];
    assert_eq!(
        filter_to_sql(g),
        "WHERE token.contract_addr IN (decode('ab', 'hex'), decode('cd', 'hex'))"
    );
    assert_eq!(filter_to_sql(vec![("amount".to_string(), vec!["5".to_string()])]), "WHERE amount = '5'");
}

fn outline(primary: Primary, has_errors: bool, has_meta: bool, has_related: bool) -> DocumentOutline {
    DocumentOutline { primary, has_errors, has_meta, has_related }
}

#[test]
fn request_document_checks() {
    assert_eq!(check_single_resource(outline(Primary::Single, false, false, false)), Ok(()));
    assert_eq!(check_single_resource(outline(Primary::Absent, false, false, true)), Err(DocumentError::RelatedWithoutData));
    assert_eq!(check_single_resource(outline(Primary::Absent, false, false, false)), Err(DocumentError::MissingContent));
    assert_eq!(check_single_resource(outline(Primary::Absent, true, false, false)), Err(DocumentError::ContainsErrors));
    assert_eq!(check_single_resource(outline(Primary::Many, false, false, false)), Err(DocumentError::TooManyResources));
    assert_eq!(check_single_resource(outline(Primary::Null, false, false, false)), Err(DocumentError::MissingData));
}

#[test]
fn related_resources_keep_first_of_each() {
    let keys = vec![
        ("1".to_string(), "token".to_string()),
        ("1".to_string(), "holder".to_string()),
        ("1".to_string(), "token".to_string()),
        ("2".to_string(), "token".to_string()),
        ("1".to_string(), "holder".to_string()),
    ];
    assert_eq!(first_occurrences(&keys), vec![0, 1, 3]);
    assert_eq!(first_occurrences(&vec![]), Vec::<usize>::new());
}
