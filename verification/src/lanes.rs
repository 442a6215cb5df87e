//! Batches of options, taken eight at a time.
//!
//! The kernels work on packs of eight lanes. A batch is cut into packs in
//! order; the last pack is filled up with lanes that are not live, and what a
//! kernel returns for those is dropped.
use crate::constants::{ONE, ZERO};
use crate::double::{num, Double};
use crate::kind::OptionKind;
use vstd::prelude::*;

verus! {

/// Lanes in a pack.
pub const LANES: usize = 8;

/// One option: its terms, and the premium (or, where options are priced, the
/// volatility) that goes with them.
#[derive(Clone, Copy, Debug, PartialEq, Eq, Structural)]
pub struct Quote {
    pub spot: Double,
    pub strike: Double,
    pub tte: Double,
    pub rate: Double,
    pub price: Double,
    pub is_call: bool,
}

/// Eight options, and which of them are live.
#[derive(Clone, Copy, Debug)]
pub struct Lanes {
    pub quote: [Quote; LANES],
    pub live: [bool; LANES],
}

/// The columns of a batch.
#[derive(Clone, Copy, Debug)]
pub struct Columns<'a> {
    pub spot: &'a [Double],
    pub strike: &'a [Double],
    pub tte: &'a [Double],
    pub rate: &'a [Double],
    pub price: &'a [Double],
    pub kind: &'a [OptionKind],
}

impl<'a> Columns<'a> {
    /// The number of options.
    pub open spec fn size(self) -> nat {
        self.spot@.len()
    }

    /// The columns are of one length.
    pub open spec fn matched(self) -> bool {
        &&& self.strike@.len() == self.spot@.len()
        &&& self.tte@.len() == self.spot@.len()
        &&& self.rate@.len() == self.spot@.len()
        &&& self.price@.len() == self.spot@.len()
        &&& self.kind@.len() == self.spot@.len()
    }

    /// Option `i` of the batch.
    pub open spec fn row(self, i: int) -> Quote {
        Quote {
            spot: self.spot@[i],
            strike: self.strike@[i],
            tte: self.tte@[i],
            rate: self.rate@[i],
            price: self.price@[i],
            is_call: self.kind@[i] is Call,
        }
    }

    /// The options of the batch, in order.
    pub open spec fn rows(self) -> Seq<Quote> {
        Seq::new(self.size(), |i: int| self.row(i))
    }

    /// Whether the columns are of one length.
    pub fn check_lengths(&self) -> (r: bool)
        ensures
            r == self.matched(),
    {
        let n: usize = self.spot.len();
        self.strike.len() == n && self.tte.len() == n && self.rate.len() == n && self.price.len()
            == n && self.kind.len() == n
    }

    /// Option `i` of the batch.
    pub fn quote(&self, i: usize) -> (q: Quote)
        requires
            self.matched(),
            i < self.size(),
        ensures
            q == self.row(i as int),
    {
        Quote {
            spot: self.spot[i],
            strike: self.strike[i],
            tte: self.tte[i],
            rate: self.rate[i],
            price: self.price[i],
            is_call: self.kind[i].is_call(),
        }
    }
}

/// The columns of a batch, in order.
pub open spec fn table<'a>(
    spot: &'a [Double],
    strike: &'a [Double],
    tte: &'a [Double],
    rate: &'a [Double],
    price: &'a [Double],
    kind: &'a [OptionKind],
) -> Columns<'a> {
    Columns { spot, strike, tte, rate, price, kind }
}

/// What fills a spare lane whose last column is filled with `last`.
pub open spec fn spare(last: Double) -> Quote {
    Quote {
        spot: num(ONE),
        strike: num(ONE),
        tte: num(ONE),
        rate: num(ZERO),
        price: last,
        is_call: false,
    }
}

/// How many of the eight lanes from `start` a batch of `n` still fills.
pub open spec fn filled(n: int, start: int) -> int {
    if n - start < LANES {
        n - start
    } else {
        LANES as int
    }
}

/// The pack holds the rows from `start` on, in order, and spare lanes behind
/// the last of them.
pub open spec fn packs(rows: Seq<Quote>, start: int, last: Double, pack: Lanes) -> bool {
    forall|j: int|
        0 <= j < LANES ==> #[trigger] pack.live[j] == (start + j < rows.len()) && pack.quote[j]
            == if start + j < rows.len() {
            rows[start + j]
        } else {
            spare(last)
        }
}

/// The picked rows, in the order of the picks.
pub open spec fn picked_rows(columns: Columns, picks: Seq<usize>) -> Seq<Quote> {
    Seq::new(picks.len(), |p: int| columns.row(picks[p] as int))
}

/// The kernel, called on the pack, may return `out`.
pub open spec fn ran<T, F: Fn(Lanes) -> [T; LANES]>(f: F, pack: Lanes, out: [T; LANES]) -> bool {
    call_ensures(f, (pack,), out)
}

/// `r` stands in a live lane that the kernel returned, and that lane held the
/// option.
pub open spec fn lane_result<T, F: Fn(Lanes) -> [T; LANES]>(f: F, q: Quote, r: T) -> bool {
    exists|pack: Lanes, out: [T; LANES], j: int|
        #![trigger ran(f, pack, out), out[j]]
        ran(f, pack, out) && 0 <= j < LANES && pack.live[j] && pack.quote[j] == q && r == out[j]
}

/// How many of the eight lanes from `start` a batch of `n` still fills.
pub fn filled_lanes(n: usize, start: usize) -> (take: usize)
    requires
        start <= n,
    ensures
        take == filled(n as int, start as int),
{
    if n - start < LANES {
        n - start
    } else {
        LANES
    }
}

/// What fills a spare lane whose last column is filled with `last`.
pub fn spare_quote(last: Double) -> (q: Quote)
    ensures
        q == spare(last),
{
    Quote {
        spot: num(ONE),
        strike: num(ONE),
        tte: num(ONE),
        rate: num(ZERO),
        price: last,
        is_call: false,
    }
}

/// The pack of the batch that starts at `start`.
pub fn load(columns: &Columns, start: usize, last: Double) -> (pack: Lanes)
    requires
        columns.matched(),
        start < columns.size(),
    ensures
        packs(columns.rows(), start as int, last, pack),
{
    let n: usize = columns.spot.len();
    let take: usize = filled_lanes(n, start);
    let mut quote: [Quote; LANES] = [spare_quote(last);LANES];
    let mut live: [bool; LANES] = [false;LANES];
    let mut j: usize = 0;
    while j < take
        invariant
            columns.matched(),
            n == columns.size(),
            start < n,
            take == filled(n as int, start as int),
            j <= take,
            forall|i: int| 0 <= i < j ==> live@[i] && quote@[i] == columns.row(start + i),
            forall|i: int| j <= i < LANES ==> !live@[i] && quote@[i] == spare(last),
        decreases take - j,
    {
        quote[j] = columns.quote(start + j);
        live[j] = true;
        j += 1;
    }
    Lanes { quote, live }
}

/// The pack of the picked rows that starts at `start` in the list of picks.
pub fn load_picked(columns: &Columns, picks: &[usize], start: usize, last: Double) -> (pack: Lanes)
    requires
        columns.matched(),
        start < picks@.len(),
        forall|k: int| 0 <= k < picks@.len() ==> #[trigger] picks@[k] < columns.size(),
    ensures
        packs(picked_rows(*columns, picks@), start as int, last, pack),
{
    let n: usize = picks.len();
    let take: usize = filled_lanes(n, start);
    let mut quote: [Quote; LANES] = [spare_quote(last);LANES];
    let mut live: [bool; LANES] = [false;LANES];
    let mut j: usize = 0;
    while j < take
        invariant
            columns.matched(),
            n == picks@.len(),
            forall|k: int| 0 <= k < picks@.len() ==> #[trigger] picks@[k] < columns.size(),
            start < n,
            take == filled(n as int, start as int),
            j <= take,
            forall|i: int|
                0 <= i < j ==> live@[i] && quote@[i] == columns.row(picks@[start + i] as int),
            forall|i: int| j <= i < LANES ==> !live@[i] && quote@[i] == spare(last),
        decreases take - j,
    {
        quote[j] = columns.quote(picks[start + j]);
        live[j] = true;
        j += 1;
    }
    Lanes { quote, live }
}

/// Appends the first `take` lanes to a column of results.
pub fn append_lanes<T: Copy>(out: &mut Vec<T>, lanes: &[T; LANES], take: usize)
    requires
        take <= LANES,
    ensures
        final(out)@ == old(out)@ + lanes@.take(take as int),
{
    let ghost before = out@;
    let mut j: usize = 0;
    while j < take
        invariant
            j <= take <= LANES,
            out@ == before + lanes@.take(j as int),
        decreases take - j,
    {
        out.push(lanes[j]);
        j += 1;
        assert(lanes@.take(j as int) == lanes@.take(j - 1).push(lanes@[j - 1]));
    }
}

/// `i` is one of the picks from `start` on, `take` of them.
pub open spec fn picked(picks: Seq<usize>, start: int, take: int, i: int) -> bool {
    exists|p: int| start <= p < start + take && #[trigger] picks[p] == i
}

/// Writes the first `take` lanes to the rows picked from `start` on.
pub fn scatter_lanes<T: Copy>(
    out: &mut Vec<T>,
    picks: &[usize],
    start: usize,
    lanes: &[T; LANES],
    take: usize,
)
    requires
        take <= LANES,
        start + take <= picks@.len(),
        forall|p: int| 0 <= p < picks@.len() ==> #[trigger] picks@[p] < old(out)@.len(),
        forall|p: int, q: int|
            0 <= p < q < picks@.len() ==> #[trigger] picks@[p] < #[trigger] picks@[q],
    ensures
        final(out)@.len() == old(out)@.len(),
        forall|p: int|
            #![trigger picks@[p]]
            start <= p < start + take ==> final(out)@[picks@[p] as int] == lanes[p - start],
        forall|i: int|
            0 <= i < old(out)@.len() && !picked(picks@, start as int, take as int, i)
                ==> #[trigger] final(out)@[i] == old(out)@[i],
{
    let ghost before = out@;
    let total: usize = picks.len();
    let mut l: usize = 0;
    while l < take
        invariant
            l <= take <= LANES,
            start + take <= total == picks@.len(),
            out@.len() == before.len(),
            forall|p: int| 0 <= p < picks@.len() ==> #[trigger] picks@[p] < before.len(),
            forall|p: int, q: int|
                0 <= p < q < picks@.len() ==> #[trigger] picks@[p] < #[trigger] picks@[q],
            forall|p: int|
                #![trigger picks@[p]]
                start <= p < start + l ==> out@[picks@[p] as int] == lanes[p - start],
            forall|i: int|
                0 <= i < before.len() && !picked(picks@, start as int, l as int, i)
                    ==> #[trigger] out@[i] == before[i],
        decreases take - l,
    {
        let i: usize = picks[start + l];
        out.set(i, lanes[l]);
        proof {
            assert(picks@[start + l] == i);
            assert forall|k: int|
                0 <= k < before.len() && !picked(picks@, start as int, l + 1, k) implies #[trigger] out@[k]
                == before[k] by {
                if picked(picks@, start as int, l as int, k) {
                    let p = choose|p: int| start <= p < start + l && #[trigger] picks@[p] == k;
                    assert(start <= p < start + l + 1 && picks@[p] == k);
                }
            }
        }
        l += 1;
    }
}

/// Runs a kernel over a batch, pack by pack. The result of each option is what
/// the kernel returned in the lane that held it.
pub fn map_packs<T: Copy, F: Fn(Lanes) -> [T; LANES]>(
    columns: &Columns,
    last: Double,
    f: F,
) -> (out: Vec<T>)
    requires
        columns.matched(),
        forall|pack: Lanes| call_requires(f, (pack,)),
    ensures
        out@.len() == columns.size(),
        forall|i: int|
            0 <= i < out@.len() ==> lane_result(f, columns.row(i), #[trigger] out@[i]),
{
    let mut out: Vec<T> = Vec::new();
    let n: usize = columns.spot.len();
    let mut start: usize = 0;
    while start < n
        invariant
            columns.matched(),
            forall|pack: Lanes| call_requires(f, (pack,)),
            n == columns.size(),
            start <= n,
            start == n || start % LANES == 0,
            out@.len() == start,
            forall|i: int|
                0 <= i < start ==> lane_result(f, columns.row(i), #[trigger] out@[i]),
        decreases n - start,
    {
        let pack = load(columns, start, last);
        let lanes = f(pack);
        let take: usize = filled_lanes(n, start);
        let ghost before = out@;
        append_lanes(&mut out, &lanes, take);
        proof {
            assert(ran(f, pack, lanes));
            assert forall|i: int| 0 <= i < start + take implies lane_result(
                f,
                columns.row(i),
                #[trigger] out@[i],
            ) by {
                if i < start {
                    assert(out@[i] == before[i]);
                } else {
                    let j = i - start;
                    assert(out@[i] == lanes[j]);
                    assert(start + j == i);
                    assert(pack.live[j]);
                    assert(columns.rows()[start + j] == columns.row(i));
                }
            }
        }
        start += take;
    }
    out
}

/// The kernel works lane by lane: what it returns for a live lane is `g` of
/// that lane's option, whatever stands in the other lanes.
pub open spec fn lanewise<T, F: Fn(Lanes) -> [T; LANES]>(f: F, g: spec_fn(Quote) -> T) -> bool {
    forall|pack: Lanes, out: [T; LANES], j: int|
        #![trigger ran(f, pack, out), out[j]]
        ran(f, pack, out) && 0 <= j < LANES && pack.live[j] ==> out[j] == g(pack.quote[j])
}

/// A kernel that works lane by lane gives each option of a batch the result
/// that it has on its own: packing leaves no trace, at the boundaries of packs
/// neither.
pub proof fn law_batch_equals_singletons<T, F: Fn(Lanes) -> [T; LANES]>(
    columns: Columns,
    f: F,
    g: spec_fn(Quote) -> T,
    out: Seq<T>,
)
    requires
        lanewise(f, g),
        out.len() == columns.size(),
        forall|i: int| 0 <= i < out.len() ==> lane_result(f, columns.row(i), #[trigger] out[i]),
    ensures
        forall|i: int| 0 <= i < out.len() ==> #[trigger] out[i] == g(columns.row(i)),
{
    assert forall|i: int| 0 <= i < out.len() implies #[trigger] out[i] == g(columns.row(i)) by {
        assert(lane_result(f, columns.row(i), out[i]));
    }
}

/// A row reads its own place in each column, and a call is told from a put by the
/// kind that stands there.
pub proof fn law_row_reads_its_own_place<'a>(
    spot: &'a [Double],
    strike: &'a [Double],
    tte: &'a [Double],
    rate: &'a [Double],
    price: &'a [Double],
    kind: &'a [OptionKind],
    i: int,
)
    requires
        0 <= i < spot@.len(),
    ensures
        ({
            let columns = table(spot, strike, tte, rate, price, kind);
            let q = columns.row(i);
            &&& q.spot == spot@[i] && q.strike == strike@[i] && q.tte == tte@[i]
            &&& q.rate == rate@[i] && q.price == price@[i]
            &&& q.is_call <==> kind@[i] == OptionKind::Call
            &&& columns.size() == spot@.len()
            &&& columns.rows().len() == spot@.len() && columns.rows()[i] == q
            &&& columns.matched() <==> strike@.len() == spot@.len() && tte@.len() == spot@.len()
                && rate@.len() == spot@.len() && price@.len() == spot@.len() && kind@.len()
                == spot@.len()
        }),
{
}

/// A batch is cut every eight options, and nothing of it is left out.
pub proof fn law_packs_fill_up(n: int, start: int)
    requires
        0 <= start <= n,
    ensures
        start + 8 <= n ==> filled(n, start) == 8,
        start + 8 > n ==> start + filled(n, start) == n,
{
}

} // verus!
