//! The parts of a bill that are not arithmetic on amounts: its status, on
//! which side its currency is written, and how many places an amount gets.
use vstd::prelude::*;
use crate::style::BadgeVariant;
use crate::text::{chars_of, push_all};

verus! {

/// Where a bill stands.
#[derive(Debug, Clone, Copy, PartialEq, Eq, Structural, Default)]
pub enum BillStatus {
    #[default]
    Pending,
    Paid,
    Overdue,
    Draft,
    Cancelled,
    Refunded,
}

impl BillStatus {
    /// The status as the bill prints it.
    pub fn label(&self) -> (s: &'static str)
        ensures
            s@ == match *self {
                BillStatus::Pending => "Pending Payment"@,
                BillStatus::Paid => "Paid"@,
                BillStatus::Overdue => "Overdue"@,
                BillStatus::Draft => "Draft"@,
                BillStatus::Cancelled => "Cancelled"@,
                BillStatus::Refunded => "Refunded"@,
            },
    {
        match self {
            BillStatus::Pending => "Pending Payment",
            BillStatus::Paid => "Paid",
            BillStatus::Overdue => "Overdue",
            BillStatus::Draft => "Draft",
            BillStatus::Cancelled => "Cancelled",
            BillStatus::Refunded => "Refunded",
        }
    }

    /// The badge colour for the status.
    pub fn badge_variant(&self) -> (v: BadgeVariant)
        ensures
            v == match *self {
                BillStatus::Pending => BadgeVariant::Warning,
                BillStatus::Paid => BadgeVariant::Success,
                BillStatus::Overdue => BadgeVariant::Error,
                BillStatus::Draft => BadgeVariant::Default,
                BillStatus::Cancelled => BadgeVariant::Default,
                BillStatus::Refunded => BadgeVariant::Info,
            },
    {
        match self {
            BillStatus::Pending => BadgeVariant::Warning,
            BillStatus::Paid => BadgeVariant::Success,
            BillStatus::Overdue => BadgeVariant::Error,
            BillStatus::Draft => BadgeVariant::Default,
            BillStatus::Cancelled => BadgeVariant::Default,
            BillStatus::Refunded => BadgeVariant::Info,
        }
    }
}

/// Which side of an amount its currency is written on: symbols lead
/// (`$ 12.00`), tickers follow (`12.00 USDC`).
#[derive(Debug, Clone, Copy, PartialEq, Eq, Structural, Default)]
pub enum CurrencyPosition {
    #[default]
    Prefix,
    Suffix,
}

/// An amount already written out, with its currency on the side asked for
/// and one space between them.
pub open spec fn with_currency(amount: Seq<char>, currency: Seq<char>, position: CurrencyPosition) -> Seq<
    char,
> {
    match position {
        CurrencyPosition::Prefix => currency + seq![' '] + amount,
        CurrencyPosition::Suffix => amount + seq![' '] + currency,
    }
}

/// Puts the currency beside a written amount, as the bill prints it.
pub fn place_currency(amount: &str, currency: &str, position: CurrencyPosition) -> (s: String)
    ensures
        s@ == with_currency(amount@, currency@, position),
{
    let a = chars_of(amount);
    let c = chars_of(currency);
    let mut s = String::new();
    match position {
        CurrencyPosition::Prefix => {
            push_all(&mut s, &c);
            push_all(&mut s, &vec![' ']);
            push_all(&mut s, &a);
        },
        CurrencyPosition::Suffix => {
            push_all(&mut s, &a);
            push_all(&mut s, &vec![' ']);
            push_all(&mut s, &c);
        },
    }
    s
}

/// Past this many places an `f64` has nothing left to say.
pub const MAX_PLACES: usize = 18;

/// The first place count from `p` on at which the amount no longer rounds
/// to nothing, stopping at `MAX_PLACES`.
pub open spec fn first_showing(rounds_to_nothing: Seq<bool>, p: int) -> int
    decreases MAX_PLACES - p,
{
    if p < MAX_PLACES && rounds_to_nothing[p] {
        first_showing(rounds_to_nothing, p + 1)
    } else {
        p
    }
}

/// How many places an amount is written to: the places asked for, unless
/// the amount is not zero yet rounds to nothing there and fewer than
/// `MAX_PLACES` were asked for; then one place past the first at which it
/// shows, and never widened past `MAX_PLACES`. The places asked for are a
/// floor: they are never cut.
pub open spec fn widened_places_spec(
    decimal_places: int,
    value_is_zero: bool,
    rounds_to_nothing: Seq<bool>,
) -> int {
    if value_is_zero || decimal_places >= MAX_PLACES || !rounds_to_nothing[decimal_places] {
        decimal_places
    } else {
        let p = first_showing(rounds_to_nothing, decimal_places);
        if p + 1 < MAX_PLACES {
            p + 1
        } else {
            MAX_PLACES as int
        }
    }
}

/// Chooses the places for an amount. `rounds_to_nothing[p]` says whether
/// the amount written to `p` places reads as zero; the caller, which holds
/// the `f64`, works that out for every `p` up to the larger of
/// `decimal_places` and `MAX_PLACES`.
pub fn widened_places(decimal_places: usize, value_is_zero: bool, rounds_to_nothing: &Vec<bool>) -> (p: usize)
    requires
        rounds_to_nothing@.len() > decimal_places,
        rounds_to_nothing@.len() > MAX_PLACES,
    ensures
        p == widened_places_spec(decimal_places as int, value_is_zero, rounds_to_nothing@),
{
    if value_is_zero || decimal_places >= MAX_PLACES || !rounds_to_nothing[decimal_places] {
        return decimal_places;
    }
    let mut places = decimal_places;
    while places < MAX_PLACES && rounds_to_nothing[places]
        invariant
            decimal_places <= places,
            rounds_to_nothing@.len() > places,
            rounds_to_nothing@.len() > MAX_PLACES,
            first_showing(rounds_to_nothing@, decimal_places as int) == first_showing(
                rounds_to_nothing@,
                places as int,
            ),
        decreases MAX_PLACES - places,
    {
        places = places + 1;
    }
    if places < MAX_PLACES - 1 {
        places + 1
    } else {
        MAX_PLACES
    }
}

proof fn lemma_first_showing(r: Seq<bool>, p: int)
    requires
        p <= MAX_PLACES,
        r.len() > MAX_PLACES,
        0 <= p,
    ensures
        p <= first_showing(r, p) <= MAX_PLACES,
        first_showing(r, p) < MAX_PLACES ==> !r[first_showing(r, p)],
        forall|q: int| p <= q < first_showing(r, p) ==> #[trigger] r[q],
    decreases MAX_PLACES - p,
{
    if p < MAX_PLACES && r[p] {
        lemma_first_showing(r, p + 1);
    }
}

/// The places asked for are a floor: an amount is never written to fewer.
/// Widening never goes past `MAX_PLACES` (asking for more is taken as it
/// is). A widened amount gets one place more than the first at which it
/// shows, so it keeps a second significant digit.
pub proof fn law_places_are_a_floor(decimal_places: int, value_is_zero: bool, r: Seq<bool>)
    requires
        0 <= decimal_places,
        r.len() > decimal_places,
        r.len() > MAX_PLACES,
    ensures
        widened_places_spec(decimal_places, value_is_zero, r) >= decimal_places,
        decimal_places >= MAX_PLACES ==> widened_places_spec(decimal_places, value_is_zero, r) == decimal_places,
        decimal_places < MAX_PLACES ==> widened_places_spec(decimal_places, value_is_zero, r) <= MAX_PLACES,
        widened_places_spec(decimal_places, value_is_zero, r) > decimal_places ==> (forall|q: int|
            decimal_places <= q < widened_places_spec(decimal_places, value_is_zero, r) - 1
                ==> #[trigger] r[q]),
        !value_is_zero && decimal_places < MAX_PLACES && r[decimal_places] && first_showing(r, decimal_places) + 1
            < MAX_PLACES ==> !r[widened_places_spec(decimal_places, value_is_zero, r) - 1],
{
    if decimal_places < MAX_PLACES {
        lemma_first_showing(r, decimal_places);
    }
}

} // verus!
