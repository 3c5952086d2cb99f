use crate::decimal::{
    checked_difference, checked_product, checked_sum, difference_of, opt_view, product_of,
    round_dp, rounded, sum_of, Dec,
};
use crate::portfolio::{Direction, GroupModel, PriceRecord, RecordModel, UnderlyingGroup};
use vstd::prelude::*;

verus! {

/// The sign a direction gives to a position: -1 for `Short`, else +1.
pub open spec fn sign_of(d: Direction) -> (int, nat) {
    if d == Direction::Short {
        (-1int, 0nat)
    } else {
        (1int, 0nat)
    }
}

pub open spec fn then_mul(x: Option<(int, nat)>, y: (int, nat)) -> Option<(int, nat)> {
    match x {
        Some(v) => product_of(v, y),
        None => None,
    }
}

pub open spec fn then_round(x: Option<(int, nat)>, dp: nat) -> Option<(int, nat)> {
    match x {
        Some(v) => Some(rounded(v, dp)),
        None => None,
    }
}

pub open spec fn then_add(x: Option<(int, nat)>, y: Option<(int, nat)>) -> Option<(int, nat)> {
    match (x, y) {
        (Some(a), Some(b)) => sum_of(a, b),
        _ => None,
    }
}

/// `round2(value × amount × multiplier × sign)`; `None` where a product overflows.
pub open spec fn net_of(value: (int, nat), rec: RecordModel) -> Option<(int, nat)> {
    then_round(
        then_mul(then_mul(product_of(value, rec.amount@), rec.multiplier@), sign_of(rec.direction)),
        2,
    )
}

/// The signed market value of a position.
pub open spec fn net_liq_of(rec: RecordModel) -> Option<(int, nat)> {
    net_of(rec.current@, rec)
}

/// The signed profit of a position since it was opened.
pub open spec fn profit_of(rec: RecordModel) -> Option<(int, nat)> {
    match difference_of(rec.current@, rec.open@) {
        Some(d) => net_of(d, rec),
        None => None,
    }
}

/// The net values of records, added up in order from zero.
pub open spec fn net_liq_sum(recs: Seq<(Seq<char>, RecordModel)>) -> Option<(int, nat)>
    decreases recs.len(),
{
    if recs.len() == 0 {
        Some((0int, 0nat))
    } else {
        then_add(net_liq_sum(recs.drop_last()), net_liq_of(recs.last().1))
    }
}

/// The profits of records, added up in order from zero.
pub open spec fn profit_sum(recs: Seq<(Seq<char>, RecordModel)>) -> Option<(int, nat)>
    decreases recs.len(),
{
    if recs.len() == 0 {
        Some((0int, 0nat))
    } else {
        then_add(profit_sum(recs.drop_last()), profit_of(recs.last().1))
    }
}

/// The net values of all positions: the group sums added up in order from zero.
pub open spec fn position_total(gs: Seq<GroupModel>) -> Option<(int, nat)>
    decreases gs.len(),
{
    if gs.len() == 0 {
        Some((0int, 0nat))
    } else {
        then_add(position_total(gs.drop_last()), net_liq_sum(gs.last().records))
    }
}

/// The position total with every cash balance added, in account order.
pub open spec fn grand_total(start: Option<(int, nat)>, bs: Seq<(Seq<char>, Dec)>) -> Option<
    (int, nat),
>
    decreases bs.len(),
{
    if bs.len() == 0 {
        start
    } else {
        then_add(grand_total(start, bs.drop_last()), Some(bs.last().1@))
    }
}

pub fn add_opt(x: Option<Dec>, y: Option<Dec>) -> (r: Option<Dec>)
    requires
        x matches Some(a) ==> a.wf(),
        y matches Some(b) ==> b.wf(),
    ensures
        opt_view(r) == then_add(opt_view(x), opt_view(y)),
        r matches Some(d) ==> d.wf(),
{
    match (x, y) {
        (Some(a), Some(b)) => checked_sum(a, b),
        _ => None,
    }
}

/// `round2(value × amount × multiplier × sign)` for a record.
pub fn to_net(value: Dec, rec: &PriceRecord) -> (r: Option<Dec>)
    requires
        value.wf(),
        rec@.wf(),
    ensures
        opt_view(r) == net_of(value@, rec@),
        r matches Some(d) ==> d.wf(),
{
    let sign = if rec.direction == Direction::Short {
        Dec::from_int(-1)
    } else {
        Dec::from_int(1)
    };
    let a = match checked_product(value, rec.amount) {
        Some(a) => a,
        None => return None,
    };
    let b = match checked_product(a, rec.multiplier) {
        Some(b) => b,
        None => return None,
    };
    match checked_product(b, sign) {
        Some(c) => Some(round_dp(c, 2)),
        None => None,
    }
}

/// The signed market value of a position: `-1` for a short one, else `+1`,
/// whatever the amount.
pub fn signed_value(rec: &PriceRecord) -> (r: Option<Dec>)
    requires
        rec@.wf(),
    ensures
        opt_view(r) == net_liq_of(rec@),
        r matches Some(d) ==> d.wf(),
{
    to_net(rec.current, rec)
}

/// The signed profit of a position.
pub fn profit(rec: &PriceRecord) -> (r: Option<Dec>)
    requires
        rec@.wf(),
    ensures
        opt_view(r) == profit_of(rec@),
        r matches Some(d) ==> d.wf(),
{
    match checked_difference(rec.current, rec.open) {
        Some(d) => to_net(d, rec),
        None => None,
    }
}

/// The profit and net-value sums of a group's records.
pub fn group_sums(g: &UnderlyingGroup) -> (r: (Option<Dec>, Option<Dec>))
    requires
        forall|i: int| 0 <= i < g@.records.len() ==> (#[trigger] g@.records[i]).1.wf(),
    ensures
        opt_view(r.0) == profit_sum(g@.records),
        opt_view(r.1) == net_liq_sum(g@.records),
        r.0 matches Some(d) ==> d.wf(),
        r.1 matches Some(d) ==> d.wf(),
{
    let mut p: Option<Dec> = Some(Dec::zero());
    let mut n: Option<Dec> = Some(Dec::zero());
    let mut i: usize = 0;
    while i < g.records.len()
        invariant
            forall|j: int| 0 <= j < g@.records.len() ==> (#[trigger] g@.records[j]).1.wf(),
            i <= g@.records.len(),
            opt_view(p) == profit_sum(g@.records.take(i as int)),
            opt_view(n) == net_liq_sum(g@.records.take(i as int)),
            p matches Some(d) ==> d.wf(),
            n matches Some(d) ==> d.wf(),
        decreases g@.records.len() - i,
    {
        let rec = &g.records[i].record;
        assert(g@.records[i as int].1 == rec@);
        p = add_opt(p, profit(rec));
        n = add_opt(n, signed_value(rec));
        assert(g@.records.take(i + 1).drop_last() =~= g@.records.take(i as int));
        i = i + 1;
    }
    assert(g@.records.take(i as int) =~= g@.records);
    (p, n)
}

} // verus!
