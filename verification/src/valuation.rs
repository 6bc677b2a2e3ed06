//! What the account is worth in one currency: for each asset that it holds,
//! the quantity held times the asset's price in that currency.
//!
//! Quantities and prices are in units of [`crate::decimal`]; a value is their
//! product, so one currency unit is [`VALUE_SCALE`] units of value. Prices
//! come from the exchange, one lookup for each asset held. The library says
//! which lookup is due next and what a quote adds to the total; making the
//! lookup is the caller's part.

use vstd::prelude::*;
use crate::decimal::{decimal_units, parse_decimal, parse_or_zero, units_or_zero};
use crate::models::{AccountResponse, Balance};
use crate::text::{chars_of, occurs_at, occurs_at_exec, string_of};

verus! {

/// Where the price of a trading pair is asked for.
pub const TICKER_ENDPOINT: &'static str = "https://api.binance.com/api/v3/ticker/price";

/// What the exchange puts before the symbol of an asset that is held in a
/// savings product.
pub const WRAPPED_PREFIX: &'static str = "LD";

/// How many units of value make one currency unit: the square of
/// [`crate::decimal::SCALE`].
pub const VALUE_SCALE: i128 = 10_000_000_000_000_000;

/// `s` without the repetitions of `prefix` that it starts with.
pub open spec fn trim_start(s: Seq<char>, prefix: Seq<char>) -> Seq<char>
    decreases s.len(),
{
    if prefix.len() > 0 && occurs_at(s, prefix, 0) {
        trim_start(s.skip(prefix.len() as int), prefix)
    } else {
        s
    }
}

/// The symbol under which an asset is traded: its own without
/// [`WRAPPED_PREFIX`].
pub open spec fn traded_symbol(asset: Seq<char>) -> Seq<char> {
    trim_start(asset, WRAPPED_PREFIX@)
}

/// The trading pair in which `asset` is priced in `currency`.
pub open spec fn pair_symbol(asset: Seq<char>, currency: Seq<char>) -> Seq<char> {
    traded_symbol(asset) + currency
}

/// The text of the address at which the price of the pair `symbol` is asked for.
pub open spec fn ticker_url_text(symbol: Seq<char>) -> Seq<char> {
    TICKER_ENDPOINT@ + "?symbol="@ + symbol
}

/// How much of its asset `balance` holds, free and locked together, in
/// units. A part that cannot be read counts as nothing.
pub open spec fn quantity(balance: Balance) -> int {
    units_or_zero(balance.free@) + units_or_zero(balance.locked@)
}

/// `balance` holds something.
pub open spec fn is_held(balance: Balance) -> bool {
    quantity(balance) > 0
}

/// What `quantity` units are worth at the quoted price. No quote, or one
/// that is no decimal numeral, is worth nothing.
pub open spec fn quoted_value(quantity: int, quote: Option<Seq<char>>) -> int {
    match quote {
        Some(text) => match decimal_units(text) {
            Some(price) => quantity * price,
            None => 0,
        },
        None => 0,
    }
}

/// What `balance` adds to the value of the account, given the quote for its
/// asset.
pub open spec fn asset_value(balance: Balance, quote: Option<Seq<char>>) -> int {
    if is_held(balance) {
        quoted_value(quantity(balance), quote)
    } else {
        0
    }
}

/// `value` can be held as a total.
pub open spec fn fits(value: int) -> bool {
    i128::MIN <= value <= i128::MAX
}

/// The quote at place `i`; none where `quotes` has no such place.
pub open spec fn quote_at(quotes: Seq<Option<Seq<char>>>, i: int) -> Option<Seq<char>> {
    if 0 <= i < quotes.len() {
        quotes[i]
    } else {
        None
    }
}

/// The total `before` and `value` more. There is none where there was none
/// before or the sum cannot be held.
pub open spec fn add_value(before: Option<int>, value: int) -> Option<int> {
    match before {
        Some(total) => if fits(total + value) {
            Some(total + value)
        } else {
            None
        },
        None => None,
    }
}

/// The value of `balances`, where `quotes` holds at each place the quote for
/// the asset of the balance at that place: the values of the assets, added
/// up in their order. There is none where a sum on the way cannot be held.
pub open spec fn portfolio_total(
    balances: Seq<Balance>,
    quotes: Seq<Option<Seq<char>>>,
) -> Option<int>
    decreases balances.len(),
{
    if balances.len() == 0 {
        Some(0)
    } else {
        add_value(
            portfolio_total(balances.drop_last(), quotes),
            asset_value(balances.last(), quote_at(quotes, balances.len() - 1)),
        )
    }
}

/// The texts of `quotes`.
pub open spec fn quote_texts(quotes: Seq<Option<String>>) -> Seq<Option<Seq<char>>> {
    Seq::new(
        quotes.len(),
        |i: int|
            match quotes[i] {
                Some(s) => Some(s@),
                None => None,
            },
    )
}

/// The price lookup that is due for one asset held.
#[derive(Debug)]
pub struct Lookup {
    /// The place of the balance among the balances of the account.
    pub index: usize,
    /// The symbol under which the asset is traded.
    pub asset: String,
    /// The trading pair whose price is asked for.
    pub symbol: String,
    /// The address at which it is asked for.
    pub url: String,
    /// How much of the asset is held, in units.
    pub quantity: i128,
}

impl Lookup {
    /// The quantity is one that two readable parts can add up to, and more
    /// than nothing.
    pub open spec fn wf(&self) -> bool {
        0 < self.quantity <= 2 * i64::MAX
    }

    /// This is the lookup for the balance at `self.index` of `balances`, priced
    /// in `currency`.
    pub open spec fn is_for(&self, balances: Seq<Balance>, currency: Seq<char>) -> bool {
        &&& 0 <= self.index < balances.len()
        &&& is_held(balances[self.index as int])
        &&& self.quantity == quantity(balances[self.index as int])
        &&& self.asset@ == traded_symbol(balances[self.index as int].asset@)
        &&& self.symbol@ == pair_symbol(balances[self.index as int].asset@, currency)
        &&& self.url@ == ticker_url_text(self.symbol@)
    }
}

/// One line of the valuation: an asset, how much of it is held, its price,
/// and what the holding is worth.
#[derive(Debug)]
pub struct ValuationLine {
    pub asset: String,
    /// In units.
    pub quantity: i128,
    /// In units of the currency for one of the asset.
    pub price: i64,
    /// In units of value.
    pub value: i128,
}

/// The total after one more quote, and the line to show for it where the
/// quote gave a price.
#[derive(Debug)]
pub struct Settled {
    pub total: i128,
    pub line: Option<ValuationLine>,
}

/// Why the account could not be valued.
#[derive(Debug, PartialEq, Eq, Structural, Clone, Copy)]
pub enum ValuationError {
    /// The total left the range of `i128` units of value.
    Overflow,
}

/// `s` without the repetitions of `prefix` that it starts with.
pub fn trim_start_exec(s: &str, prefix: &str) -> (r: String)
    ensures
        r@ == trim_start(s@, prefix@),
{
    let chars = chars_of(s);
    let pattern = chars_of(prefix);
    let mut start: usize = 0;
    assert(chars@.skip(0) =~= chars@);
    if pattern.len() > 0 {
        while occurs_at_exec(&chars, &pattern, start)
            invariant
                start <= chars.len(),
                pattern.len() > 0,
                trim_start(chars@, pattern@) == trim_start(chars@.skip(start as int), pattern@),
            decreases chars.len() - start,
        {
            proof {
                let rest = chars@.skip(start as int);
                assert(rest.subrange(0, pattern@.len() as int) =~= chars@.subrange(
                    start as int,
                    start + pattern@.len(),
                ));
                assert(rest.skip(pattern@.len() as int) =~= chars@.skip(start + pattern@.len()));
            }
            start += pattern.len();
        }
        proof {
            let rest = chars@.skip(start as int);
            if start + pattern@.len() <= chars@.len() {
                assert(rest.subrange(0, pattern@.len() as int) =~= chars@.subrange(
                    start as int,
                    start + pattern@.len(),
                ));
            }
        }
    }
    let r = string_of(&chars, start, chars.len());
    assert(chars@.subrange(start as int, chars@.len() as int) =~= chars@.skip(start as int));
    r
}

/// The text of `symbol` in the address of its price.
pub fn ticker_url(symbol: &str) -> (url: String)
    ensures
        url@ == ticker_url_text(symbol@),
{
    let mut url = String::from_str(TICKER_ENDPOINT);
    url.append("?symbol=");
    url.append(symbol);
    url
}

/// How much of its asset `balance` holds, in units.
pub fn held_quantity(balance: &Balance) -> (q: i128)
    ensures
        q == quantity(*balance),
        -2 * i64::MAX <= q <= 2 * i64::MAX,
{
    parse_or_zero(balance.free.as_str()) as i128 + parse_or_zero(balance.locked.as_str()) as i128
}

/// The next lookup that is due, among the balances from place `from` on:
/// that for the first of them that holds something. There is none where no
/// balance from there on holds anything.
pub fn next_lookup(account: &AccountResponse, currency: &str, from: usize) -> (r: Option<Lookup>)
    ensures
        match r {
            Some(lookup) => {
                &&& lookup.wf()
                &&& lookup.is_for(account.balances@, currency@)
                &&& from <= lookup.index
                &&& forall|k: int| from <= k < lookup.index ==> !is_held(account.balances@[k])
            },
            None => forall|k: int|
                from <= k < account.balances@.len() ==> !is_held(account.balances@[k]),
        },
{
    let mut i: usize = from;
    while i < account.balances.len()
        invariant
            from <= i,
            forall|k: int| from <= k < i && k < account.balances@.len() ==> !is_held(
                account.balances@[k],
            ),
        decreases account.balances.len() - i,
    {
        let balance = &account.balances[i];
        let held = held_quantity(balance);
        if held > 0 {
            let asset = trim_start_exec(balance.asset.as_str(), WRAPPED_PREFIX);
            let mut symbol = asset.clone();
            symbol.append(currency);
            let url = ticker_url(symbol.as_str());
            return Some(Lookup { index: i, asset, symbol, url, quantity: held });
        }
        i += 1;
    }
    None
}

/// Adds to `total` what the holding of `lookup` is worth at the quoted
/// price. A quote that is missing or is no decimal numeral adds nothing and
/// gives no line. The only failure is a total that cannot be held.
pub fn settle(
    total: i128,
    lookup: &Lookup,
    quote: Option<&str>,
) -> (r: Result<Settled, ValuationError>)
    requires
        lookup.wf(),
    ensures
        match r {
            Ok(settled) => {
                &&& settled.total == total + quoted_value(lookup.quantity as int, quote_view(quote))
                &&& settled.line is Some <==> quoted_price(quote_view(quote)) is Some
                &&& settled.line matches Some(line) ==> {
                    &&& line.asset@ == lookup.asset@
                    &&& line.quantity == lookup.quantity
                    &&& Some(line.price as int) == quoted_price(quote_view(quote))
                    &&& line.value == lookup.quantity * line.price
                }
            },
            Err(e) => {
                &&& !fits(total + quoted_value(lookup.quantity as int, quote_view(quote)))
                &&& e == ValuationError::Overflow
            },
        },
{
    let price: i64 = match quote {
        Some(text) => match parse_decimal(text) {
            Some(price) => price,
            None => {
                return Ok(Settled { total, line: None });
            },
        },
        None => {
            return Ok(Settled { total, line: None });
        },
    };
    assert(-0x7fff_ffff_ffff_ffff_ffff_ffff_ffff_ffff <= lookup.quantity * price
        <= 0x7fff_ffff_ffff_ffff_ffff_ffff_ffff_ffff) by (nonlinear_arith)
        requires
            0 < lookup.quantity <= 2 * 0x7fff_ffff_ffff_ffff,
            -0x7fff_ffff_ffff_ffff <= price <= 0x7fff_ffff_ffff_ffff,
    ;
    let value: i128 = lookup.quantity * (price as i128);
    match total.checked_add(value) {
        Some(sum) => Ok(
            Settled {
                total: sum,
                line: Some(
                    ValuationLine {
                        asset: lookup.asset.clone(),
                        quantity: lookup.quantity,
                        price,
                        value,
                    },
                ),
            },
        ),
        None => Err(ValuationError::Overflow),
    }
}

/// The text of a quote.
pub open spec fn quote_view(quote: Option<&str>) -> Option<Seq<char>> {
    match quote {
        Some(text) => Some(text@),
        None => None,
    }
}

/// The price that a quote gives, in units.
pub open spec fn quoted_price(quote: Option<Seq<char>>) -> Option<int> {
    match quote {
        Some(text) => decimal_units(text),
        None => None,
    }
}

/// Balances that hold nothing leave the total as it is.
pub proof fn lemma_total_skips_unheld(
    balances: Seq<Balance>,
    quotes: Seq<Option<Seq<char>>>,
    from: int,
    to: int,
)
    requires
        0 <= from <= to <= balances.len(),
        forall|k: int| from <= k < to ==> !is_held(balances[k]),
    ensures
        portfolio_total(balances.take(to), quotes) == portfolio_total(balances.take(from), quotes),
    decreases to - from,
{
    if from < to {
        lemma_total_skips_unheld(balances, quotes, from, to - 1);
        assert(balances.take(to).drop_last() =~= balances.take(to - 1));
        assert(balances.take(to).last() == balances[to - 1]);
    }
}

/// A total that cannot be held stays so, whatever follows.
pub proof fn lemma_total_stays_lost(
    balances: Seq<Balance>,
    quotes: Seq<Option<Seq<char>>>,
    from: int,
    to: int,
)
    requires
        0 <= from <= to <= balances.len(),
        portfolio_total(balances.take(from), quotes) is None,
    ensures
        portfolio_total(balances.take(to), quotes) is None,
    decreases to - from,
{
    if from < to {
        lemma_total_stays_lost(balances, quotes, from, to - 1);
        assert(balances.take(to).drop_last() =~= balances.take(to - 1));
    }
}

/// One more balance adds the value of its asset.
pub proof fn lemma_total_push(
    balances: Seq<Balance>,
    quotes: Seq<Option<Seq<char>>>,
    balance: Balance,
)
    ensures
        portfolio_total(balances.push(balance), quotes) == add_value(
            portfolio_total(balances, quotes),
            asset_value(balance, quote_at(quotes, balances.len() as int)),
        ),
{
    assert(balances.push(balance).drop_last() =~= balances);
}

/// A balance that holds nothing, or whose parts cannot be read, leaves the
/// value of the account as it is, whatever its quote.
pub proof fn lemma_unheld_adds_nothing(
    balances: Seq<Balance>,
    quotes: Seq<Option<Seq<char>>>,
    balance: Balance,
)
    requires
        units_or_zero(balance.free@) + units_or_zero(balance.locked@) <= 0,
    ensures
        portfolio_total(balances.push(balance), quotes) == portfolio_total(balances, quotes),
{
    lemma_total_push(balances, quotes, balance);
}

/// An asset without a price leaves the value of the account as it is, and
/// the asset after it adds what it would have added without it.
pub proof fn lemma_unpriced_adds_nothing(
    balances: Seq<Balance>,
    quotes: Seq<Option<Seq<char>>>,
    balance: Balance,
    next: Balance,
)
    requires
        quoted_price(quote_at(quotes, balances.len() as int)) is None,
    ensures
        portfolio_total(balances.push(balance), quotes) == portfolio_total(balances, quotes),
        portfolio_total(balances.push(balance).push(next), quotes) == add_value(
            portfolio_total(balances, quotes),
            asset_value(next, quote_at(quotes, balances.len() as int + 1)),
        ),
{
    lemma_total_push(balances, quotes, balance);
    lemma_total_push(balances.push(balance), quotes, next);
}

/// The value of the account, where `quotes` holds at each place the answer
/// to the price lookup for the balance at that place, and nothing where the
/// lookup failed. Quotes at places of balances that hold nothing are not
/// read, and places that `quotes` lacks count as failed lookups.
pub fn portfolio_value(
    account: &AccountResponse,
    currency: &str,
    quotes: &Vec<Option<String>>,
) -> (r: Result<i128, ValuationError>)
    ensures
        match r {
            Ok(total) => portfolio_total(account.balances@, quote_texts(quotes@)) == Some(
                total as int,
            ),
            Err(e) => {
                &&& portfolio_total(account.balances@, quote_texts(quotes@)) is None
                &&& e == ValuationError::Overflow
            },
        },
{
    let n: usize = account.balances.len();
    let ghost balances = account.balances@;
    let ghost texts = quote_texts(quotes@);
    let mut from: usize = 0;
    let mut total: i128 = 0;
    assert(balances.take(n as int) =~= balances);
    while from < n
        invariant
            from <= n == balances.len(),
            balances == account.balances@,
            texts == quote_texts(quotes@),
            portfolio_total(balances.take(from as int), texts) == Some(total as int),
        decreases n - from,
    {
        match next_lookup(account, currency, from) {
            None => {
                proof {
                    lemma_total_skips_unheld(balances, texts, from as int, n as int);
                }
                from = n;
            },
            Some(lookup) => {
                let quote: Option<&str> = if lookup.index < quotes.len() {
                    match &quotes[lookup.index] {
                        Some(text) => Some(text.as_str()),
                        None => None,
                    }
                } else {
                    None
                };
                proof {
                    lemma_total_skips_unheld(balances, texts, from as int, lookup.index as int);
                    assert(balances.take(lookup.index + 1) =~= balances.take(
                        lookup.index as int,
                    ).push(balances[lookup.index as int]));
                    lemma_total_push(
                        balances.take(lookup.index as int),
                        texts,
                        balances[lookup.index as int],
                    );
                    assert(quote_view(quote) == quote_at(texts, lookup.index as int));
                }
                match settle(total, &lookup, quote) {
                    Ok(settled) => {
                        total = settled.total;
                        from = lookup.index + 1;
                    },
                    Err(e) => {
                        proof {
                            lemma_total_stays_lost(balances, texts, lookup.index + 1, n as int);
                            assert(balances.take(n as int) =~= balances);
                        }
                        return Err(e);
                    },
                }
            },
        }
    }
    Ok(total)
}

} // verus!
