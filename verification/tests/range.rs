use plaid_connector::error::ConnectorError;
use plaid_connector::json::decode;
use plaid_connector::range::{check_balances, evaluate, read_balances, RangeQuery};

fn range(lower: u64, upper: u64) -> Option<RangeQuery> {
    Some(RangeQuery { lower, upper })
}

#[test]
fn balance_inside_the_range_is_a_match() {
    assert_eq!(evaluate(&vec![Some(1500)], range(1000, 2000)), Ok(Some(1500)));
}

#[test]
fn balance_below_the_range_is_no_match() {
    assert_eq!(evaluate(&vec![Some(1500)], range(1600, 2000)), Ok(None));
}

#[test]
fn empty_account_list_is_no_match() {
    assert_eq!(evaluate(&vec![], range(1000, 2000)), Ok(None));
    assert_eq!(evaluate(&vec![], None), Ok(None));
}

#[test]
fn both_bounds_belong_to_the_range() {
    let r = RangeQuery { lower: 1000, upper: 2000 };
    assert!(r.contains(1000));
    assert!(r.contains(2000));
    assert!(!r.contains(999));
    assert!(!r.contains(2001));
    assert!(!RangeQuery { lower: 5, upper: 4 }.contains(4));
    assert!(RangeQuery { lower: 0, upper: u64::MAX }.contains(u64::MAX));
}

#[test]
fn first_balance_in_the_range_is_the_match() {
    assert_eq!(evaluate(&vec![Some(5), Some(1200), Some(1500)], range(1000, 2000)), Ok(Some(1200)));
}

#[test]
fn accounts_after_the_match_are_not_read() {
    assert_eq!(evaluate(&vec![Some(1200), None], range(1000, 2000)), Ok(Some(1200)));
}

#[test]
fn absent_balance_before_a_match_is_a_fault() {
    assert_eq!(
        evaluate(&vec![Some(5), None, Some(1200)], range(1000, 2000)),
        Err(ConnectorError::EvaluationFault)
    );
}

#[test]
fn absent_bound_is_a_fault_where_there_is_an_account() {
    assert_eq!(evaluate(&vec![Some(1500)], None), Err(ConnectorError::EvaluationFault));
    assert_eq!(RangeQuery::from_bounds(Some(1), None), None);
    assert_eq!(RangeQuery::from_bounds(None, Some(1)), None);
    assert_eq!(RangeQuery::from_bounds(Some(1), Some(2)), Some(RangeQuery { lower: 1, upper: 2 }));
}

#[test]
fn balances_are_read_from_the_accounts_in_order() {
    let doc = decode(
        b"{\"accounts\": [\
            {\"balances\": {\"current\": 1500, \"available\": 7}},\
            {\"balances\": {\"current\": 110.55}},\
            {\"balances\": {\"current\": -3}},\
            {\"balances\": {\"current\": \"12\"}},\
            {\"balances\": {}},\
            {\"name\": \"x\"},\
            17,\
            {\"balances\": {\"current\": 0}}\
        ]}",
    )
    .unwrap();
    assert_eq!(
        read_balances(&doc),
        Ok(vec![Some(1500), None, None, None, None, None, None, Some(0)])
    );
}

#[test]
fn response_without_an_account_array_is_a_fault() {
    for text in ["{}", "{\"accounts\": 3}", "{\"accounts\": {\"0\": 1}}", "[]", "null"] {
        let doc = decode(text.as_bytes()).unwrap();
        assert_eq!(read_balances(&doc), Err(ConnectorError::EvaluationFault));
        assert_eq!(check_balances(&doc, range(0, 1)), Err(ConnectorError::EvaluationFault));
    }
}

#[test]
fn balance_response_is_checked_against_the_range() {
    let doc = decode(b"{\"accounts\": [{\"balances\": {\"current\": 1500}}]}").unwrap();
    assert_eq!(check_balances(&doc, range(1000, 2000)), Ok(Some(1500)));
    assert_eq!(check_balances(&doc, range(1600, 2000)), Ok(None));
    let doc = decode(b"{\"accounts\": []}").unwrap();
    assert_eq!(check_balances(&doc, range(1000, 2000)), Ok(None));
}
