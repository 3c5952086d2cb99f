use crate::decimal::{
    pow10, MAX_MANTISSA, checked_product, checked_quotient, decimal_text, opt_view, product_of, quotient_of, round_dp,
    rounded, text_of, Dec,
};
use crate::portfolio::{
    App, Direction, GroupModel, Greek, PriceRecord, RecordModel, UnderlyingGroup,
};
use crate::valuation::{
    add_opt, grand_total, group_sums, net_liq_of, net_liq_sum, net_of, position_total, profit,
    profit_of, profit_sum, sign_of, signed_value, then_round, to_net,
};
use vstd::prelude::*;

verus! {

/// The titles of the table's columns.
pub open spec fn header_titles() -> Seq<Seq<char>> {
    seq![
        "PORT %"@,
        "SYMBOL"@,
        "CURRENT"@,
        "AMOUNT"@,
        "TRADE PRICE"@,
        "PROFIT"@,
        "THETA"@,
        "DELTA"@,
        "NET LIQ"@,
    ]
}

/// A number as text; `NaN` where its computation overflowed.
pub open spec fn amount_text(x: Option<(int, nat)>) -> Seq<char> {
    match x {
        Some(v) => text_of(v),
        None => "NaN"@,
    }
}

/// `round2(num × 100 / total)`, with two digits after the point, followed by `%`. A zero total gives `0.00%`
/// over a zero numerator and `NaN%` over any other; so does an overflow.
pub open spec fn percent_text(num: Option<(int, nat)>, total: Option<(int, nat)>) -> Seq<char> {
    match (num, total) {
        (Some(n), Some(t)) => if t.0 == 0 {
            if n.0 == 0 {
                "0.00%"@
            } else {
                "NaN%"@
            }
        } else {
            match product_of(n, (100int, 0nat)) {
                Some(m) => match quotient_of(m, t) {
                    Some(q) => text_of(two_places(rounded(q, 2))) + "%"@,
                    None => "NaN%"@,
                },
                None => "NaN%"@,
            }
        },
        _ => "NaN%"@,
    }
}

/// A number with fewer than two digits after the point written with two,
/// where the longer mantissa still fits; any other number as it is.
pub open spec fn two_places(d: (int, nat)) -> (int, nat) {
    if d.1 < 2 && -MAX_MANTISSA <= d.0 * pow10((2 - d.1) as nat) <= MAX_MANTISSA {
        (d.0 * pow10((2 - d.1) as nat), 2nat)
    } else {
        d
    }
}

/// `d` written with two digits after the point where it has fewer.
pub fn pad_two_places(d: Dec) -> (r: Dec)
    requires
        d.wf(),
    ensures
        r@ == two_places(d@),
        r.wf(),
{
    if d.scale >= 2 {
        return d;
    }
    let factor: i128 = if d.scale == 0 {
        100
    } else {
        10
    };
    assert(pow10((2 - d.scale) as nat) == factor) by {
        reveal_with_fuel(pow10, 3);
    }
    assert(-MAX_MANTISSA * 100 <= d.mantissa * factor <= MAX_MANTISSA * 100) by (nonlinear_arith)
        requires
            -MAX_MANTISSA <= d.mantissa <= MAX_MANTISSA,
            factor == 10 || factor == 100,
    ;
    let m = d.mantissa * factor;
    if -MAX_MANTISSA <= m && m <= MAX_MANTISSA {
        Dec { mantissa: m, scale: 2 }
    } else {
        d
    }
}

/// A Greek scaled to the position, or the token of a value no decimal holds.
pub open spec fn greek_text(g: Greek, rec: RecordModel) -> Seq<char> {
    match g {
        Greek::Value(d) => amount_text(net_of(d@, rec)),
        Greek::NotANumber => "NaN"@,
        Greek::PosInfinity => "inf"@,
        Greek::NegInfinity => "-inf"@,
    }
}

/// The cells of a position row.
pub open spec fn position_row(
    underlying: Seq<char>,
    rec: RecordModel,
    total: Option<(int, nat)>,
) -> Seq<Seq<char>> {
    seq![
        percent_text(net_liq_of(rec), total),
        " "@ + if rec.symbol == underlying {
            "SHARES"@
        } else {
            rec.symbol
        },
        text_of(rounded(rec.current@, 2)),
        amount_text(then_round(product_of(rec.amount@, sign_of(rec.direction)), 5)),
        text_of(rec.open@),
        amount_text(profit_of(rec)),
        greek_text(rec.greeks.theta, rec),
        greek_text(rec.greeks.delta, rec),
        amount_text(net_liq_of(rec)),
    ]
}

/// The cells of a group's header row.
pub open spec fn header_row(g: GroupModel, total: Option<(int, nat)>) -> Seq<Seq<char>> {
    seq![
        percent_text(net_liq_sum(g.records), total),
        g.underlying,
        ""@,
        ""@,
        ""@,
        amount_text(then_round(profit_sum(g.records), 2)),
        ""@,
        ""@,
        amount_text(then_round(net_liq_sum(g.records), 2)),
    ]
}

/// The position rows of the first `n` records of a group.
pub open spec fn record_rows(g: GroupModel, total: Option<(int, nat)>, n: int) -> Seq<
    Seq<Seq<char>>,
>
    decreases n,
{
    if n <= 0 {
        seq![]
    } else {
        record_rows(g, total, n - 1).push(position_row(g.underlying, g.records[n - 1].1, total))
    }
}

/// A group's rows: its header, then a row per record when it is open.
pub open spec fn group_rows(g: GroupModel, total: Option<(int, nat)>) -> Seq<Seq<Seq<char>>> {
    seq![header_row(g, total)] + if g.open {
        record_rows(g, total, g.records.len() as int)
    } else {
        seq![]
    }
}

/// The rows of the first `n` groups.
pub open spec fn groups_rows(gs: Seq<GroupModel>, total: Option<(int, nat)>, n: int) -> Seq<
    Seq<Seq<char>>,
>
    decreases n,
{
    if n <= 0 {
        seq![]
    } else {
        groups_rows(gs, total, n - 1) + group_rows(gs[n - 1], total)
    }
}

/// The rows of the first `n` accounts of the cash section.
pub open spec fn cash_rows(bs: Seq<(Seq<char>, Dec)>, n: int) -> Seq<Seq<Seq<char>>>
    decreases n,
{
    if n <= 0 {
        seq![]
    } else {
        cash_rows(bs, n - 1).push(seq![" "@ + bs[n - 1].0, text_of(bs[n - 1].1@)])
    }
}

/// The whole table below its header: the group rows, a blank row, the cash
/// section, a blank row and the total row.
pub open spec fn table_rows(gs: Seq<GroupModel>, bs: Seq<(Seq<char>, Dec)>) -> Seq<
    Seq<Seq<char>>,
> {
    let total = position_total(gs);
    groups_rows(gs, total, gs.len() as int) + seq![seq![""@], seq!["CASH"@]] + cash_rows(
        bs,
        bs.len() as int,
    ) + seq![seq![""@], seq!["TOTAL"@, amount_text(grand_total(total, bs))]]
}

pub open spec fn cells(row: Vec<String>) -> Seq<Seq<char>> {
    row@.map_values(|c: String| c@)
}

pub open spec fn rows_view(rows: Seq<Vec<String>>) -> Seq<Seq<Seq<char>>> {
    rows.map_values(|r: Vec<String>| cells(r))
}

fn literal(s: &str) -> (r: String)
    ensures
        r@ == s@,
{
    s.to_owned()
}

/// The text of a number, `NaN` where it overflowed.
pub fn amount_cell(x: Option<Dec>) -> (r: String)
    requires
        x matches Some(d) ==> d.wf(),
    ensures
        r@ == amount_text(opt_view(x)),
{
    match x {
        Some(d) => decimal_text(d),
        None => literal("NaN"),
    }
}

/// A share of the position total, in percent to two places.
pub fn percent_cell(num: Option<Dec>, total: Option<Dec>) -> (r: String)
    requires
        num matches Some(d) ==> d.wf(),
        total matches Some(d) ==> d.wf(),
    ensures
        r@ == percent_text(opt_view(num), opt_view(total)),
{
    match (num, total) {
        (Some(n), Some(t)) => {
            if t.is_zero() {
                if n.is_zero() {
                    literal("0.00%")
                } else {
                    literal("NaN%")
                }
            } else {
                match checked_product(n, Dec::from_int(100)) {
                    Some(m) => match checked_quotient(m, t) {
                        Some(q) => {
                            let text = decimal_text(pad_two_places(round_dp(q, 2)));
                            text.concat("%")
                        },
                        None => literal("NaN%"),
                    },
                    None => literal("NaN%"),
                }
            }
        },
        _ => literal("NaN%"),
    }
}

/// A Greek scaled to a position.
pub fn greek_cell(g: Greek, rec: &PriceRecord) -> (r: String)
    requires
        g.wf(),
        rec@.wf(),
    ensures
        r@ == greek_text(g, rec@),
{
    match g {
        Greek::Value(d) => amount_cell(to_net(d, rec)),
        Greek::NotANumber => literal("NaN"),
        Greek::PosInfinity => literal("inf"),
        Greek::NegInfinity => literal("-inf"),
    }
}

/// The cells of the row of one position.
pub fn position_cells(underlying: &String, rec: &PriceRecord, total: Option<Dec>) -> (r: Vec<
    String,
>)
    requires
        rec@.wf(),
        total matches Some(d) ==> d.wf(),
    ensures
        cells(r) == position_row(underlying@, rec@, opt_view(total)),
{
    let net_liq = signed_value(rec);
    let name = if rec.symbol.eq(underlying) {
        literal(" ").concat("SHARES")
    } else {
        literal(" ").concat(rec.symbol.as_str())
    };
    let sign = if rec.direction == Direction::Short {
        Dec::from_int(-1)
    } else {
        Dec::from_int(1)
    };
    let amount = match checked_product(rec.amount, sign) {
        Some(a) => Some(round_dp(a, 5)),
        None => None,
    };
    let mut r: Vec<String> = Vec::new();
    r.push(percent_cell(net_liq, total));
    r.push(name);
    r.push(decimal_text(round_dp(rec.current, 2)));
    r.push(amount_cell(amount));
    r.push(decimal_text(rec.open));
    r.push(amount_cell(profit(rec)));
    r.push(greek_cell(rec.greeks.theta, rec));
    r.push(greek_cell(rec.greeks.delta, rec));
    r.push(amount_cell(net_liq));
    assert(cells(r) =~= position_row(underlying@, rec@, opt_view(total)));
    r
}

/// The titles of the table's columns, in order.
pub fn column_titles() -> (r: Vec<String>)
    ensures
        cells(r) == header_titles(),
{
    let mut r: Vec<String> = Vec::new();
    r.push(literal("PORT %"));
    r.push(literal("SYMBOL"));
    r.push(literal("CURRENT"));
    r.push(literal("AMOUNT"));
    r.push(literal("TRADE PRICE"));
    r.push(literal("PROFIT"));
    r.push(literal("THETA"));
    r.push(literal("DELTA"));
    r.push(literal("NET LIQ"));
    assert(cells(r) =~= header_titles());
    r
}

/// The cells of a group's header row, from its sums.
pub fn header_cells(
    g: &UnderlyingGroup,
    profit_total: Option<Dec>,
    net_total: Option<Dec>,
    total: Option<Dec>,
) -> (r: Vec<String>)
    requires
        opt_view(profit_total) == profit_sum(g@.records),
        opt_view(net_total) == net_liq_sum(g@.records),
        profit_total matches Some(d) ==> d.wf(),
        net_total matches Some(d) ==> d.wf(),
        total matches Some(d) ==> d.wf(),
    ensures
        cells(r) == header_row(g@, opt_view(total)),
{
    let profit_cell = match profit_total {
        Some(d) => decimal_text(round_dp(d, 2)),
        None => literal("NaN"),
    };
    let net_cell = match net_total {
        Some(d) => decimal_text(round_dp(d, 2)),
        None => literal("NaN"),
    };
    let mut r: Vec<String> = Vec::new();
    r.push(percent_cell(net_total, total));
    r.push(g.underlying.clone());
    r.push(literal(""));
    r.push(literal(""));
    r.push(literal(""));
    r.push(profit_cell);
    r.push(literal(""));
    r.push(literal(""));
    r.push(net_cell);
    assert(cells(r) =~= header_row(g@, opt_view(total)));
    r
}

/// A group's rows: its header, then a row per record when it is open.
pub fn group_table_rows(g: &UnderlyingGroup, total: Option<Dec>) -> (r: Vec<Vec<String>>)
    requires
        forall|i: int| 0 <= i < g@.records.len() ==> (#[trigger] g@.records[i]).1.wf(),
        total matches Some(d) ==> d.wf(),
    ensures
        rows_view(r@) == group_rows(g@, opt_view(total)),
{
    let (profit_total, net_total) = group_sums(g);
    let mut rows: Vec<Vec<String>> = Vec::new();
    rows.push(header_cells(g, profit_total, net_total, total));
    if g.open {
        let mut i: usize = 0;
        while i < g.records.len()
            invariant
                forall|j: int| 0 <= j < g@.records.len() ==> (#[trigger] g@.records[j]).1.wf(),
                total matches Some(d) ==> d.wf(),
                i <= g@.records.len(),
                rows_view(rows@) == seq![header_row(g@, opt_view(total))] + record_rows(
                    g@,
                    opt_view(total),
                    i as int,
                ),
            decreases g@.records.len() - i,
        {
            let rec = &g.records[i].record;
            assert(g@.records[i as int].1 == rec@);
            let row = position_cells(&g.underlying, rec, total);
            let ghost before = rows@;
            rows.push(row);
            proof {
                assert(rows@ == before.push(row));
                assert(rows_view(rows@) =~= rows_view(before).push(cells(row)));
                assert(seq![header_row(g@, opt_view(total))] + record_rows(g@, opt_view(total), i + 1)
                    =~= (seq![header_row(g@, opt_view(total))] + record_rows(g@, opt_view(total), i as int)).push(cells(row)));
            }
            i = i + 1;
        }
    } else {
        assert(rows_view(rows@) =~= group_rows(g@, opt_view(total)));
    }
    rows
}

/// The text of a cash balance row.
fn cash_cells(b: &crate::portfolio::Balance) -> (r: Vec<String>)
    requires
        b.cash.wf(),
    ensures
        cells(r) == seq![" "@ + b.account@, text_of(b.cash@)],
{
    let mut r: Vec<String> = Vec::new();
    r.push(literal(" ").concat(b.account.as_str()));
    r.push(decimal_text(b.cash));
    assert(cells(r) =~= seq![" "@ + b.account@, text_of(b.cash@)]);
    r
}

fn single_cell(s: &str) -> (r: Vec<String>)
    ensures
        cells(r) == seq![s@],
{
    let mut r: Vec<String> = Vec::new();
    r.push(literal(s));
    assert(cells(r) =~= seq![s@]);
    r
}

impl App {
    /// The net value of every position: the group sums added up.
    pub fn position_total(&self) -> (r: Option<Dec>)
        requires
            self.wf(),
        ensures
            opt_view(r) == position_total(self@.groups),
            r matches Some(d) ==> d.wf(),
    {
        let ghost gs = self@.groups;
        let mut t: Option<Dec> = Some(Dec::zero());
        let mut k: usize = 0;
        while k < self.groups.len()
            invariant
                gs == self@.groups,
                self.wf(),
                k <= gs.len(),
                opt_view(t) == position_total(gs.take(k as int)),
                t matches Some(d) ==> d.wf(),
            decreases gs.len() - k,
        {
            let g = &self.groups[k];
            assert(g@ == gs[k as int]);
            let (_, n) = group_sums(g);
            t = add_opt(t, n);
            assert(gs.take(k + 1).drop_last() =~= gs.take(k as int));
            k = k + 1;
        }
        assert(gs.take(k as int) =~= gs);
        t
    }

    /// The table below its header: the group rows in order, a blank row,
    /// `CASH` and a row per account, a blank row, and the total of the
    /// positions and the cash.
    pub fn table_rows(&self) -> (r: Vec<Vec<String>>)
        requires
            self.wf(),
        ensures
            rows_view(r@) == table_rows(self@.groups, self@.balances),
    {
        let ghost gs = self@.groups;
        let ghost bs = self@.balances;
        let total = self.position_total();
        let mut rows: Vec<Vec<String>> = Vec::new();
        let mut k: usize = 0;
        while k < self.groups.len()
            invariant
                gs == self@.groups,
                self.wf(),
                opt_view(total) == position_total(gs),
                total matches Some(d) ==> d.wf(),
                k <= gs.len(),
                rows_view(rows@) == groups_rows(gs, opt_view(total), k as int),
            decreases gs.len() - k,
        {
            let g = &self.groups[k];
            assert(g@ == gs[k as int]);
            let mut more = group_table_rows(g, total);
            let ghost before = rows@;
            let ghost added = more@;
            rows.append(&mut more);
            proof {
                assert(rows_view(rows@) =~= rows_view(before) + rows_view(added));
            }
            k = k + 1;
        }
        let ghost before_cash = rows@;
        rows.push(single_cell(""));
        rows.push(single_cell("CASH"));
        let mut grand = total;
        let mut i: usize = 0;
        assert(rows_view(rows@) =~= rows_view(before_cash) + seq![seq![""@], seq!["CASH"@]]);
        while i < self.balances.len()
            invariant
                bs == self@.balances,
                self.wf(),
                i <= bs.len(),
                rows_view(rows@) == rows_view(before_cash) + seq![seq![""@], seq!["CASH"@]]
                    + cash_rows(bs, i as int),
                opt_view(grand) == grand_total(position_total(gs), bs.take(i as int)),
                grand matches Some(d) ==> d.wf(),
            decreases bs.len() - i,
        {
            let b = &self.balances[i];
            assert(b@ == bs[i as int]);
            let ghost before = rows@;
            let row = cash_cells(b);
            rows.push(row);
            grand = add_opt(grand, Some(b.cash));
            proof {
                assert(rows_view(rows@) =~= rows_view(before).push(cells(row)));
                assert(bs.take(i + 1).drop_last() =~= bs.take(i as int));
            }
            i = i + 1;
        }
        assert(bs.take(i as int) =~= bs);
        let ghost before_total = rows@;
        rows.push(single_cell(""));
        let mut last: Vec<String> = Vec::new();
        last.push(literal("TOTAL"));
        last.push(amount_cell(grand));
        assert(cells(last) =~= seq!["TOTAL"@, amount_text(grand_total(position_total(gs), bs))]);
        rows.push(last);
        assert(rows_view(rows@) =~= rows_view(before_total) + seq![seq![""@], seq!["TOTAL"@, amount_text(grand_total(position_total(gs), bs))]]);
        rows
    }
}

} // verus!
