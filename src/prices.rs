use vstd::prelude::*;
use crate::encoding::{decimal, u64_text};
use crate::table::{DatabaseChanges, Operation, TableChange, creates_only, field, key, key_view, writes_view};

verus! {

/// The segments of a store key, which are separated by colons.
pub open spec fn colon_segments(s: Seq<char>) -> Seq<Seq<char>>
    decreases s.len(),
{
    if s.len() == 0 {
        seq![Seq::empty()]
    } else {
        let init = colon_segments(s.drop_last());
        if s.last() == ':' {
            init.push(Seq::empty())
        } else {
            init.update(init.len() - 1, init.last().push(s.last()))
        }
    }
}

proof fn lemma_colon_segments_nonempty(s: Seq<char>)
    ensures
        colon_segments(s).len() >= 1,
    decreases s.len(),
{
    if s.len() > 0 {
        lemma_colon_segments_nonempty(s.drop_last());
    }
}

/// Relies on substreams' `key::segment_at`: the segment at `index` of a key split at its
/// colons, which panics when there is no such segment.
#[verifier::external_body]
fn segment_at<'a>(key: &'a String, index: usize) -> (r: &'a str)
    requires
        index < colon_segments(key@).len(),
    ensures
        r@ == colon_segments(key@)[index as int],
{
    substreams::key::segment_at(key, index)
}

/// The table name, time window and address of a windowed store key.
pub fn pool_windows_id_fields(key: &String) -> (r: (&str, &str, &str))
    requires
        colon_segments(key@).len() >= 3,
    ensures
        r.0@ == colon_segments(key@)[0],
        r.1@ == colon_segments(key@)[1],
        r.2@ == colon_segments(key@)[2],
{
    let table_name = segment_at(key, 0);
    let time_id = segment_at(key, 1);
    let pool_address = segment_at(key, 2);
    (table_name, time_id, pool_address)
}

/// A token with its metadata.
#[derive(Debug)]
pub struct TokenInfo {
    pub address: String,
    pub name: String,
    pub symbol: String,
    pub decimals: u64,
}

impl TokenInfo {
    pub open spec fn view(&self) -> (Seq<char>, Seq<char>, Seq<char>, u64) {
        (self.address@, self.name@, self.symbol@, self.decimals)
    }

    /// A copy of the token.
    pub fn duplicate(&self) -> (r: TokenInfo)
        ensures
            r.view() == self.view(),
    {
        TokenInfo {
            address: self.address.clone(),
            name: self.name.clone(),
            symbol: self.symbol.clone(),
            decimals: self.decimals,
        }
    }
}

/// A pool with its two tokens.
#[derive(Debug)]
pub struct Pool {
    pub log_ordinal: u64,
    pub token0: Option<TokenInfo>,
    pub token1: Option<TokenInfo>,
}

/// A write into the token store: keyed by the token's address, kept only if the key is new.
#[derive(Debug)]
pub struct TokenWrite {
    pub ordinal: u64,
    pub key: String,
    pub token: TokenInfo,
}

/// The write records token `t` at ordinal `ordinal`.
pub open spec fn writes_token(w: TokenWrite, ordinal: u64, t: TokenInfo) -> bool {
    &&& w.ordinal == ordinal
    &&& w.key@ == t.address@
    &&& w.token.view() == t.view()
}

/// Writes `2 * i` and `2 * i + 1` record the two tokens of pool `p`.
pub open spec fn pool_written(ws: Seq<TokenWrite>, p: Pool, i: int) -> bool {
    &&& writes_token(ws[2 * i], p.log_ordinal, p.token0->Some_0)
    &&& writes_token(ws[2 * i + 1], p.log_ordinal, p.token1->Some_0)
}

/// The token store writes for a list of pools: both tokens of each pool, in order, at the
/// pool's ordinal.
pub fn store_token_info_inner(pools: &Vec<Pool>) -> (r: Vec<TokenWrite>)
    requires
        forall|i: int| 0 <= i < pools@.len() ==> (#[trigger] pools@[i]).token0 is Some && pools@[i].token1 is Some,
    ensures
        r@.len() == 2 * pools@.len(),
        forall|i: int| 0 <= i < pools@.len() ==> pool_written(r@, #[trigger] pools@[i], i),
{
    let mut r: Vec<TokenWrite> = Vec::new();
    let mut i: usize = 0;
    while i < pools.len()
        invariant
            i <= pools.len(),
            forall|i: int| 0 <= i < pools@.len() ==> (#[trigger] pools@[i]).token0 is Some && pools@[i].token1 is Some,
            r@.len() == 2 * i,
            forall|j: int| 0 <= j < i ==> pool_written(r@, #[trigger] pools@[j], j),
        decreases pools.len() - i,
    {
        let pool = &pools[i];
        let ghost before = r@;
        match (&pool.token0, &pool.token1) {
            (Some(t0), Some(t1)) => {
                r.push(TokenWrite { ordinal: pool.log_ordinal, key: t0.address.clone(), token: t0.duplicate() });
                r.push(TokenWrite { ordinal: pool.log_ordinal, key: t1.address.clone(), token: t1.duplicate() });
            },
            _ => {},
        }
        proof {
            assert forall|j: int| 0 <= j < i + 1 implies pool_written(r@, #[trigger] pools@[j], j) by {
                if j < i {
                    assert(pool_written(before, pools@[j], j));
                    assert(r@[2 * j] == before[2 * j]);
                    assert(r@[2 * j + 1] == before[2 * j + 1]);
                }
            }
        }
        i = i + 1;
    }
    r
}

/// The value of a nonempty string of ASCII digits.
pub open spec fn digits_value(s: Seq<char>) -> nat
    decreases s.len(),
{
    if s.len() == 0 {
        0
    } else {
        (digits_value(s.drop_last()) * 10 + (s.last() as int - '0' as int)) as nat
    }
}

/// What `u64`'s parser yields: the value of an optional `+` followed by one or more ASCII
/// digits, when it fits.
pub open spec fn parsed_u64(s: Seq<char>) -> Option<u64> {
    let d = if s.len() >= 1 && s[0] == '+' {
        s.drop_first()
    } else {
        s
    };
    if d.len() >= 1 && (forall|i: int| 0 <= i < d.len() ==> '0' <= #[trigger] d[i] && d[i] <= '9')
        && digits_value(d) <= u64::MAX {
        Some(digits_value(d) as u64)
    } else {
        None
    }
}

/// Relies on `str::parse::<u64>`: an optional `+` and decimal digits whose value fits, or an
/// error.
#[verifier::external_body]
fn parse_u64(s: &str) -> (r: Option<u64>)
    ensures
        r == parsed_u64(s@),
{
    s.parse::<u64>().ok()
}

/// Whether two texts are equal.
pub fn text_eq(a: &str, b: &str) -> (r: bool)
    ensures
        r == (a@ == b@),
{
    let n = a.unicode_len();
    if n != b.unicode_len() {
        return false;
    }
    let mut i: usize = 0;
    while i < n
        invariant
            i <= n,
            n == a@.len() == b@.len(),
            forall|k: int| 0 <= k < i ==> a@[k] == b@[k],
        decreases n - i,
    {
        if a.get_char(i) != b.get_char(i) {
            return false;
        }
        i = i + 1;
    }
    proof {
        assert(a@ =~= b@);
    }
    true
}

/// What a store delta did to its key.
#[derive(Clone, Copy, Debug, PartialEq, Eq, Structural)]
pub enum DeltaOperation {
    Unset,
    Create,
    Update,
    Delete,
}

/// A change of the token store.
#[derive(Debug)]
pub struct TokenDelta {
    pub operation: DeltaOperation,
    pub ordinal: u64,
    pub new_value: TokenInfo,
}

/// A change of the price store, with the decimal text of the price it replaced.
#[derive(Debug)]
pub struct PriceDelta {
    pub operation: DeltaOperation,
    pub ordinal: u64,
    pub key: String,
    pub old_value: String,
}

/// Why price rows could not be produced.
#[derive(Clone, Copy, Debug, PartialEq, Eq)]
pub enum PriceError {
    /// An hourly key has fewer than three segments.
    MalformedKey,
    /// An hourly key's time window is not a number of hours whose start fits in 64 bits.
    BadTimeWindow,
}

/// The seconds in an hour.
pub const HOUR_IN_SECONDS: u64 = 3600;

/// The token deltas that created a token, in order.
pub open spec fn created_tokens(ds: Seq<TokenDelta>) -> Seq<TokenDelta>
    decreases ds.len(),
{
    if ds.len() == 0 {
        Seq::empty()
    } else if ds.last().operation == DeltaOperation::Create {
        created_tokens(ds.drop_last()).push(ds.last())
    } else {
        created_tokens(ds.drop_last())
    }
}

/// The price deltas that closed an hourly window, in order.
pub open spec fn closed_hours(ds: Seq<PriceDelta>) -> Seq<PriceDelta>
    decreases ds.len(),
{
    if ds.len() == 0 {
        Seq::empty()
    } else if colon_segments(ds.last().key@)[0] == "TokenHourData"@ && ds.last().operation
        == DeltaOperation::Delete {
        closed_hours(ds.drop_last()).push(ds.last())
    } else {
        closed_hours(ds.drop_last())
    }
}

/// The start, in seconds, of the hour that a closed hourly window stands for.
pub open spec fn hour_start(d: PriceDelta) -> Result<u64, PriceError> {
    let segs = colon_segments(d.key@);
    if segs.len() < 3 {
        Err(PriceError::MalformedKey)
    } else {
        match parsed_u64(segs[1]) {
            Some(h) => if h * 3600 <= u64::MAX {
                Ok((h * 3600) as u64)
            } else {
                Err(PriceError::BadTimeWindow)
            },
            None => Err(PriceError::BadTimeWindow),
        }
    }
}

/// The row of a created token.
pub open spec fn token_row(tc: TableChange, d: TokenDelta) -> bool {
    &&& tc.table@ == "tokens"@
    &&& key_view(tc.keys@) == seq![
        ("blockchain"@, "ethereum"@),
        ("contract_address"@, d.new_value.address@),
        ("name"@, d.new_value.name@),
        ("symbol"@, d.new_value.symbol@),
    ]
    &&& tc.ordinal == d.ordinal
    &&& tc.operation == Operation::Create
    &&& creates_only(tc.fields@)
    &&& writes_view(tc.fields@) == seq![("decimals"@, decimal(d.new_value.decimals as nat))]
}

/// The row of a closed hourly price window.
pub open spec fn price_row(tc: TableChange, d: PriceDelta) -> bool {
    &&& tc.table@ == "values"@
    &&& key_view(tc.keys@) == seq![
        ("blockchain"@, "ethereum"@),
        ("hour"@, decimal(hour_start(d)->Ok_0 as nat)),
        ("contract_address"@, colon_segments(d.key@)[2]),
    ]
    &&& tc.ordinal == d.ordinal
    &&& tc.operation == Operation::Create
    &&& creates_only(tc.fields@)
    &&& writes_view(tc.fields@) == seq![("price"@, d.old_value@)]
}

fn token_change(d: &TokenDelta) -> (r: TableChange)
    ensures
        token_row(r, *d),
{
    let t = &d.new_value;
    let keys = vec![
        key("blockchain", String::from_str("ethereum")),
        key("contract_address", t.address.clone()),
        key("name", t.name.clone()),
        key("symbol", t.symbol.clone()),
    ];
    let fields = vec![field("decimals", u64_text(t.decimals))];
    let r = TableChange { table: String::from_str("tokens"), keys, ordinal: d.ordinal, operation: Operation::Create, fields };
    proof {
        assert(key_view(r.keys@) =~= seq![
            ("blockchain"@, "ethereum"@),
            ("contract_address"@, d.new_value.address@),
            ("name"@, d.new_value.name@),
            ("symbol"@, d.new_value.symbol@),
        ]);
        assert(writes_view(r.fields@) =~= seq![("decimals"@, decimal(d.new_value.decimals as nat))]);
    }
    r
}

fn price_change(d: &PriceDelta) -> (r: Result<TableChange, PriceError>)
    ensures
        r is Ok <==> hour_start(*d) is Ok,
        r matches Err(e) ==> hour_start(*d) == Err::<u64, PriceError>(e),
        r matches Ok(tc) ==> price_row(tc, *d),
{
    if !has_three_segments(&d.key) {
        return Err(PriceError::MalformedKey);
    }
    let (_, time_id, token_address) = pool_windows_id_fields(&d.key);
    let hour = match parse_u64(time_id) {
        Some(h) => h,
        None => return Err(PriceError::BadTimeWindow),
    };
    if hour > u64::MAX / HOUR_IN_SECONDS {
        return Err(PriceError::BadTimeWindow);
    }
    let start = hour * HOUR_IN_SECONDS;
    let keys = vec![
        key("blockchain", String::from_str("ethereum")),
        key("hour", u64_text(start)),
        key("contract_address", String::from_str(token_address)),
    ];
    let fields = vec![field("price", d.old_value.clone())];
    let r = TableChange { table: String::from_str("values"), keys, ordinal: d.ordinal, operation: Operation::Create, fields };
    proof {
        assert(key_view(r.keys@) =~= seq![
            ("blockchain"@, "ethereum"@),
            ("hour"@, decimal(hour_start(*d)->Ok_0 as nat)),
            ("contract_address"@, colon_segments(d.key@)[2]),
        ]);
        assert(writes_view(r.fields@) =~= seq![("price"@, d.old_value@)]);
    }
    Ok(r)
}

/// Whether a key has at least three segments.
fn has_three_segments(key: &String) -> (r: bool)
    ensures
        r == (colon_segments(key@).len() >= 3),
{
    let s = key.as_str();
    let n = s.unicode_len();
    let mut colons: usize = 0;
    let mut i: usize = 0;
    while i < n
        invariant
            i <= n,
            n == key@.len(),
            s@ == key@,
            colons <= i,
            colon_segments(key@.subrange(0, i as int)).len() == colons + 1,
        decreases n - i,
    {
        proof {
            let sub = key@.subrange(0, i + 1);
            assert(sub.drop_last() =~= key@.subrange(0, i as int));
            lemma_colon_segments_nonempty(sub.drop_last());
        }
        if s.get_char(i) == ':' {
            colons = colons + 1;
        }
        i = i + 1;
    }
    proof {
        assert(key@.subrange(0, n as int) =~= key@);
    }
    colons >= 2
}

/// Whether a price delta closed an hourly window.
fn closes_hour(d: &PriceDelta) -> (r: bool)
    ensures
        r == (colon_segments(d.key@)[0] == "TokenHourData"@ && d.operation == DeltaOperation::Delete),
{
    proof {
        lemma_colon_segments_nonempty(d.key@);
    }
    let first = segment_at(&d.key, 0);
    text_eq(first, "TokenHourData") && d.operation == DeltaOperation::Delete
}

/// The rows of a block's store changes: one per created token, in order, then one per closed
/// hourly price window, in order, with the price it closed at.
///
/// Fails when a closed window's key is malformed.
pub fn db_out_inner(price_deltas: &Vec<PriceDelta>, token_delta: &Vec<TokenDelta>) -> (r: Result<
    DatabaseChanges,
    PriceError,
>)
    ensures
        r is Ok <==> forall|k: int|
            0 <= k < closed_hours(price_deltas@).len() ==> (#[trigger] hour_start(
                closed_hours(price_deltas@)[k],
            )) is Ok,
        r matches Ok(c) ==> {
            let toks = created_tokens(token_delta@);
            let hours = closed_hours(price_deltas@);
            &&& c.table_changes@.len() == toks.len() + hours.len()
            &&& forall|k: int| 0 <= k < toks.len() ==> token_row(#[trigger] c.table_changes@[k], toks[k])
            &&& forall|k: int|
                0 <= k < hours.len() ==> price_row(#[trigger] c.table_changes@[toks.len() + k], hours[k])
        },
{
    let mut changes = DatabaseChanges::new();
    let mut i: usize = 0;
    while i < token_delta.len()
        invariant
            i <= token_delta.len(),
            changes.table_changes@.len() == created_tokens(token_delta@.subrange(0, i as int)).len(),
            forall|k: int|
                0 <= k < changes.table_changes@.len() ==> token_row(
                    #[trigger] changes.table_changes@[k],
                    created_tokens(token_delta@.subrange(0, i as int))[k],
                ),
        decreases token_delta.len() - i,
    {
        proof {
            assert(token_delta@.subrange(0, i + 1).drop_last() =~= token_delta@.subrange(0, i as int));
        }
        if token_delta[i].operation == DeltaOperation::Create {
            changes.table_changes.push(token_change(&token_delta[i]));
        }
        i = i + 1;
    }
    proof {
        assert(token_delta@.subrange(0, token_delta.len() as int) =~= token_delta@);
    }
    let ghost toks = created_tokens(token_delta@);
    let ghost base = changes.table_changes@;
    let mut i: usize = 0;
    while i < price_deltas.len()
        invariant
            i <= price_deltas.len(),
            toks == created_tokens(token_delta@),
            base.len() == toks.len(),
            forall|k: int| 0 <= k < toks.len() ==> token_row(#[trigger] base[k], toks[k]),
            changes.table_changes@.subrange(0, base.len() as int) == base,
            changes.table_changes@.len() == base.len() + closed_hours(price_deltas@.subrange(0, i as int)).len(),
            forall|k: int|
                0 <= k < closed_hours(price_deltas@.subrange(0, i as int)).len() ==> (#[trigger] hour_start(
                    closed_hours(price_deltas@.subrange(0, i as int))[k],
                )) is Ok,
            forall|k: int|
                0 <= k < closed_hours(price_deltas@.subrange(0, i as int)).len() ==> price_row(
                    #[trigger] changes.table_changes@[base.len() + k],
                    closed_hours(price_deltas@.subrange(0, i as int))[k],
                ),
        decreases price_deltas.len() - i,
    {
        let ghost sub = price_deltas@.subrange(0, i + 1);
        proof {
            assert(sub.drop_last() =~= price_deltas@.subrange(0, i as int));
        }
        if closes_hour(&price_deltas[i]) {
            match price_change(&price_deltas[i]) {
                Ok(tc) => {
                    let ghost before = changes.table_changes@;
                    changes.table_changes.push(tc);
                    proof {
                        assert(changes.table_changes@.subrange(0, base.len() as int) =~= before.subrange(
                            0,
                            base.len() as int,
                        ));
                    }
                },
                Err(e) => {
                    proof {
                        lemma_closed_hours_prefix(price_deltas@, (i + 1) as nat);
                        let hs = closed_hours(sub);
                        assert(hour_start(hs[hs.len() - 1]) is Err);
                        assert(hs[hs.len() - 1] == closed_hours(price_deltas@)[hs.len() - 1]);
                    }
                    return Err(e);
                },
            }
        }
        i = i + 1;
    }
    proof {
        assert(price_deltas@.subrange(0, price_deltas.len() as int) =~= price_deltas@);
        assert forall|k: int| 0 <= k < toks.len() implies token_row(#[trigger] changes.table_changes@[k], toks[k]) by {
            assert(changes.table_changes@[k] == changes.table_changes@.subrange(0, base.len() as int)[k]);
        }
    }
    Ok(changes)
}

/// The closed windows of a prefix are a prefix of the closed windows.
proof fn lemma_closed_hours_prefix(ds: Seq<PriceDelta>, k: nat)
    requires
        k <= ds.len(),
    ensures
        closed_hours(ds.subrange(0, k as int)).len() <= closed_hours(ds).len(),
        forall|j: int|
            0 <= j < closed_hours(ds.subrange(0, k as int)).len() ==> #[trigger] closed_hours(
                ds.subrange(0, k as int),
            )[j] == closed_hours(ds)[j],
    decreases ds.len() - k,
{
    if k < ds.len() {
        lemma_closed_hours_prefix(ds, k + 1);
        let a = closed_hours(ds.subrange(0, k as int));
        let b = closed_hours(ds.subrange(0, k + 1 as int));
        assert(ds.subrange(0, k + 1 as int).drop_last() =~= ds.subrange(0, k as int));
        assert forall|j: int| 0 <= j < a.len() implies #[trigger] a[j] == closed_hours(ds)[j] by {
            assert(a[j] == b[j]);
        }
    } else {
        assert(ds.subrange(0, k as int) =~= ds);
    }
}

} // verus!
