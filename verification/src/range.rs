//! The range check: which balance, if any, lies in the caller's range.

use crate::error::ConnectorError;
use crate::json::{views, Json, JsonView};
use vstd::prelude::*;

verus! {

/// A range of balances; both bounds belong to it.
#[derive(Clone, Copy, Debug, PartialEq, Eq, Structural)]
pub struct RangeQuery {
    pub lower: u64,
    pub upper: u64,
}

impl RangeQuery {
    /// Whether `balance` lies in the range.
    pub open spec fn holds(self, balance: u64) -> bool {
        self.lower <= balance <= self.upper
    }

    /// Whether `balance` lies in the range.
    pub fn contains(&self, balance: u64) -> (r: bool)
        ensures
            r == self.holds(balance),
    {
        self.lower <= balance && balance <= self.upper
    }

    /// The range with the given bounds; `None` where one is absent.
    pub open spec fn between(lower: Option<u64>, upper: Option<u64>) -> Option<RangeQuery> {
        match (lower, upper) {
            (Some(l), Some(u)) => Some(RangeQuery { lower: l, upper: u }),
            _ => None,
        }
    }

    /// The range with the given bounds.
    pub fn from_bounds(lower: Option<u64>, upper: Option<u64>) -> (r: Option<RangeQuery>)
        ensures
            r == RangeQuery::between(lower, upper),
    {
        match (lower, upper) {
            (Some(l), Some(u)) => Some(RangeQuery { lower: l, upper: u }),
            _ => None,
        }
    }
}

/// The current balance of an account: the member `current` of its member
/// `balances`, where that is a non-negative integer.
pub open spec fn balance_of(account: JsonView) -> Option<u64> {
    match account.member("balances"@) {
        Some(balances) => match balances.member("current"@) {
            Some(current) => current.unsigned(),
            None => None,
        },
        None => None,
    }
}

/// The current balance of each account of a balance response, in order;
/// `None` where the response has no array `accounts`.
pub open spec fn balances_in(doc: JsonView) -> Option<Seq<Option<u64>>> {
    match doc.member("accounts"@) {
        Some(accounts) => match accounts.items() {
            Some(items) => Some(Seq::new(items.len(), |i: int| balance_of(items[i]))),
            None => None,
        },
        None => None,
    }
}

/// Reads the current balance of an account.
pub fn read_balance(account: &Json) -> (r: Option<u64>)
    ensures
        r == balance_of(account@),
{
    match account.member("balances") {
        Some(balances) => match balances.member("current") {
            Some(current) => current.as_u64(),
            None => None,
        },
        None => None,
    }
}

/// Reads the current balance of each account of a balance response.
pub fn read_balances(doc: &Json) -> (r: Result<Vec<Option<u64>>, ConnectorError>)
    ensures
        match r {
            Ok(balances) => balances_in(doc@) == Some(balances@),
            Err(e) => e == ConnectorError::EvaluationFault && balances_in(doc@) is None,
        },
{
    let items = match doc.member("accounts") {
        Some(accounts) => match accounts.as_array() {
            Some(items) => items,
            None => {
                return Err(ConnectorError::EvaluationFault);
            },
        },
        None => {
            return Err(ConnectorError::EvaluationFault);
        },
    };
    let mut out: Vec<Option<u64>> = Vec::new();
    let mut i: usize = 0;
    while i < items.len()
        invariant
            i <= items@.len(),
            out@.len() == i,
            forall|j: int| 0 <= j < i ==> out@[j] == balance_of(#[trigger] views(items@)[j]),
        decreases items@.len() - i,
    {
        out.push(read_balance(&items[i]));
        i += 1;
    }
    assert(out@ =~= balances_in(doc@).unwrap());
    Ok(out)
}

/// Scans the balances in order against the range. The first balance that
/// lies in the range is the match, and no later account is read. A balance
/// that is absent, met before any match, is a fault; so is an absent range
/// where there is any account. Without a match the outcome is `Ok(None)`.
pub open spec fn scan(balances: Seq<Option<u64>>, range: Option<RangeQuery>) -> Result<
    Option<u64>,
    ConnectorError,
>
    decreases balances.len(),
{
    if balances.len() == 0 {
        Ok(None)
    } else {
        match (balances[0], range) {
            (Some(balance), Some(r)) => if r.holds(balance) {
                Ok(Some(balance))
            } else {
                scan(balances.drop_first(), range)
            },
            _ => Err(ConnectorError::EvaluationFault),
        }
    }
}

/// Scans the balances in order against the range.
pub fn evaluate(balances: &Vec<Option<u64>>, range: Option<RangeQuery>) -> (r: Result<
    Option<u64>,
    ConnectorError,
>)
    ensures
        r == scan(balances@, range),
{
    let mut i: usize = 0;
    assert(balances@.skip(0) =~= balances@);
    while i < balances.len()
        invariant
            i <= balances@.len(),
            scan(balances@, range) == scan(balances@.skip(i as int), range),
        decreases balances@.len() - i,
    {
        let ghost rest = balances@.skip(i as int);
        assert(rest[0] == balances@[i as int]);
        assert(rest.drop_first() =~= balances@.skip(i + 1));
        match (balances[i], range) {
            (Some(balance), Some(r)) => {
                if r.contains(balance) {
                    return Ok(Some(balance));
                }
            },
            _ => {
                return Err(ConnectorError::EvaluationFault);
            },
        }
        i += 1;
    }
    Ok(None)
}

/// The outcome of the range check on a balance response.
pub open spec fn verdict(doc: JsonView, range: Option<RangeQuery>) -> Result<
    Option<u64>,
    ConnectorError,
> {
    match balances_in(doc) {
        Some(balances) => scan(balances, range),
        None => Err(ConnectorError::EvaluationFault),
    }
}

/// Checks the accounts of a balance response against the range.
pub fn check_balances(doc: &Json, range: Option<RangeQuery>) -> (r: Result<
    Option<u64>,
    ConnectorError,
>)
    ensures
        r == verdict(doc@, range),
{
    match read_balances(doc) {
        Ok(balances) => evaluate(&balances, range),
        Err(e) => Err(e),
    }
}

/// Whether an account has a balance, and one outside the range.
pub open spec fn lies_outside(slot: Option<u64>, range: RangeQuery) -> bool {
    match slot {
        Some(balance) => !range.holds(balance),
        None => false,
    }
}

/// A match is the balance of an account, lies in the range, and is the first
/// to do so: every account before it has a balance outside the range.
pub proof fn lemma_match_is_first_in_range(
    balances: Seq<Option<u64>>,
    range: Option<RangeQuery>,
    balance: u64,
)
    requires
        scan(balances, range) == Ok::<Option<u64>, ConnectorError>(Some(balance)),
    ensures
        range is Some,
        range.unwrap().holds(balance),
        exists|i: int|
            0 <= i < balances.len() && #[trigger] balances[i] == Some(balance) && forall|j: int|
                0 <= j < i ==> lies_outside(#[trigger] balances[j], range.unwrap()),
    decreases balances.len(),
{
    if balances[0] == Some(balance) && range.unwrap().holds(balance) {
        assert(balances[0] == Some(balance));
    } else {
        let rest = balances.drop_first();
        lemma_match_is_first_in_range(rest, range, balance);
        let i = choose|i: int|
            0 <= i < rest.len() && #[trigger] rest[i] == Some(balance) && forall|j: int|
                0 <= j < i ==> lies_outside(#[trigger] rest[j], range.unwrap());
        assert(balances[i + 1] == rest[i]);
        assert forall|j: int| 0 <= j < i + 1 implies lies_outside(
            #[trigger] balances[j],
            range.unwrap(),
        ) by {
            if j > 0 {
                assert(balances[j] == rest[j - 1]);
            }
        }
    }
}

/// Without a match, there is no account, or the range is there and every
/// account has a balance outside it.
pub proof fn lemma_no_match_means_none_in_range(
    balances: Seq<Option<u64>>,
    range: Option<RangeQuery>,
)
    requires
        scan(balances, range) == Ok::<Option<u64>, ConnectorError>(None),
    ensures
        forall|i: int|
            0 <= i < balances.len() ==> range is Some && lies_outside(
                #[trigger] balances[i],
                range.unwrap(),
            ),
    decreases balances.len(),
{
    if balances.len() > 0 {
        let rest = balances.drop_first();
        lemma_no_match_means_none_in_range(rest, range);
        assert forall|i: int| 0 <= i < balances.len() implies range is Some && lies_outside(
            #[trigger] balances[i],
            range.unwrap(),
        ) by {
            if i > 0 {
                assert(balances[i] == rest[i - 1]);
            }
        }
    }
}

/// A balance in the range is the match wherever every account before it has
/// a balance outside the range.
pub proof fn lemma_first_in_range_is_match(
    balances: Seq<Option<u64>>,
    range: RangeQuery,
    i: int,
    balance: u64,
)
    requires
        0 <= i < balances.len(),
        balances[i] == Some(balance),
        range.holds(balance),
        forall|j: int| 0 <= j < i ==> lies_outside(#[trigger] balances[j], range),
    ensures
        scan(balances, Some(range)) == Ok::<Option<u64>, ConnectorError>(Some(balance)),
    decreases i,
{
    if i > 0 {
        let rest = balances.drop_first();
        assert(lies_outside(balances[0], range));
        assert forall|j: int| 0 <= j < i - 1 implies lies_outside(#[trigger] rest[j], range) by {
            assert(rest[j] == balances[j + 1]);
        }
        assert(rest[i - 1] == balances[i]);
        lemma_first_in_range_is_match(rest, range, i - 1, balance);
    }
}

} // verus!
