use crate::decimal::Dec;
use crate::keys::{keys_sorted, lemma_insert_at_slot, lemma_slot_exists};
use crate::portfolio::{
    balance_keys, portfolio_wf, Direction, Greeks, RecordModel,
    flipped_at, lemma_flipped_at_header, lemma_row_start_grows, lemma_row_start_prefix, lines_of,
    next_selection, previous_selection, row_start, rows_of, GroupModel,
};
use crate::table::percent_text;
use crate::updates::{
    balanced, greeked, lemma_balanced_known, holds_symbol, lemma_place_of, lemma_with_record, place_of, quoted,
};
use crate::valuation::sign_of;
use vstd::prelude::*;

verus! {

/// The selection after a run of steps: `true` a step down, `false` a step up.
pub open spec fn after_steps(sel: Option<usize>, n: nat, steps: Seq<bool>) -> Option<usize>
    decreases steps.len(),
{
    if steps.len() == 0 {
        sel
    } else {
        let s = if steps[0] {
            next_selection(sel, n)
        } else {
            previous_selection(sel, n)
        };
        after_steps(s, n, steps.drop_first())
    }
}

/// Any run of steps down and up keeps the selection inside the table, and
/// once a step is taken in a table with rows, a row is selected.
pub proof fn lemma_steps_stay_in_range(sel: Option<usize>, n: nat, steps: Seq<bool>)
    requires
        n <= usize::MAX,
        sel matches Some(s) ==> s < n,
    ensures
        after_steps(sel, n, steps) matches Some(s) ==> s < n,
        n > 0 && steps.len() > 0 ==> after_steps(sel, n, steps) is Some,
    decreases steps.len(),
{
    if steps.len() > 0 {
        let s = if steps[0] {
            next_selection(sel, n)
        } else {
            previous_selection(sel, n)
        };
        lemma_steps_stay_in_range(s, n, steps.drop_first());
    }
}

/// A step down and then a step up come back to the selected row, where the
/// table has two rows or more.
pub proof fn lemma_next_then_previous(sel: usize, n: nat)
    requires
        n >= 2,
        sel < n,
        n <= usize::MAX,
    ensures
        previous_selection(next_selection(Some(sel), n), n) == Some(sel),
{
}

/// In a table of one row, a step either way selects that row.
pub proof fn lemma_single_row_steps(sel: Option<usize>)
    requires
        sel matches Some(s) ==> s < 1,
    ensures
        next_selection(sel, 1) == Some(0usize),
        previous_selection(sel, 1) == Some(0usize),
{
}

/// Toggling twice at the same row gives back the groups as they were.
pub proof fn lemma_toggle_twice(gs: Seq<GroupModel>, sel: int)
    ensures
        flipped_at(flipped_at(gs, sel), sel) == gs,
{
    let fl = flipped_at(gs, sel);
    if exists|k: int| 0 <= k < gs.len() && row_start(gs, k) == sel {
        let k = choose|k: int| 0 <= k < gs.len() && row_start(gs, k) == sel;
        lemma_flipped_at_header(gs, sel, k);
        lemma_row_start_prefix(gs, fl, k);
        assert forall|j: int| 0 <= j < gs.len() implies (row_start(fl, j) == sel) == (row_start(gs, j)
            == sel) by {
            if j <= k {
                lemma_row_start_prefix(gs, fl, j);
            } else {
                lemma_row_start_grows(fl, k, j);
            }
        }
        assert(flipped_at(fl, sel) =~= gs);
    } else {
        assert(fl =~= gs);
    }
}

/// Toggling a group without records flips it and leaves the row count as it was.
pub proof fn lemma_toggle_empty_group(gs: Seq<GroupModel>, k: int)
    requires
        0 <= k < gs.len(),
        gs[k].records.len() == 0,
    ensures
        flipped_at(gs, row_start(gs, k))[k].open == !gs[k].open,
        lines_of(flipped_at(gs, row_start(gs, k))) == lines_of(gs),
{
    let fl = flipped_at(gs, row_start(gs, k));
    lemma_flipped_at_header(gs, row_start(gs, k), k);
    assert forall|j: int| 0 <= j < gs.len() implies rows_of(#[trigger] gs[j]) == rows_of(fl[j]) by {
        if j == k {
            assert(fl[j].records.len() == 0);
        }
    }
    lemma_row_start_prefix(gs, fl, gs.len() as int);
}

/// After a mid-price for a held symbol, that symbol's record reads back
/// exactly that price.
pub proof fn lemma_quote_then_read(
    gs: Seq<GroupModel>,
    bs: Seq<(Seq<char>, Dec)>,
    sym: Seq<char>,
    mid: Dec,
    g: int,
    i: int,
)
    requires
        portfolio_wf(gs, bs),
        mid.wf(),
        holds_symbol(gs, g, i, sym),
    ensures
        place_of(quoted(gs, sym, mid), sym) == (g, i),
        quoted(gs, sym, mid)[g].records[i].1.current == mid,
{
    lemma_place_of(gs, sym, g, i);
    let rec = RecordModel { current: mid, ..gs[g].records[i].1 };
    lemma_with_record(gs, bs, g, i, rec);
    lemma_place_of(quoted(gs, sym, mid), sym, g, i);
}

/// A position's sign is -1 exactly when it is short, and +1 otherwise.
pub proof fn lemma_sign_by_direction(d: Direction)
    ensures
        sign_of(d).1 == 0,
        sign_of(d).0 == -1 <==> d == Direction::Short,
        sign_of(d).0 == 1 <==> d != Direction::Short,
{
}

/// Applying the same Greeks twice leaves the groups as applying them once.
pub proof fn lemma_greeks_idempotent(
    gs: Seq<GroupModel>,
    bs: Seq<(Seq<char>, Dec)>,
    sym: Seq<char>,
    greeks: Greeks,
)
    requires
        portfolio_wf(gs, bs),
        greeks.theta.wf(),
        greeks.delta.wf(),
    ensures
        greeked(greeked(gs, sym, greeks), sym, greeks) == greeked(gs, sym, greeks),
{
    let once = greeked(gs, sym, greeks);
    if crate::updates::has_symbol(gs, sym) {
        let (g, i) = place_of(gs, sym);
        lemma_place_of(gs, sym, g, i);
        let rec = RecordModel { greeks: greeks, ..gs[g].records[i].1 };
        lemma_with_record(gs, bs, g, i, rec);
        lemma_place_of(once, sym, g, i);
        assert(once[g].records.update(i, (once[g].records[i].0, rec)) =~= once[g].records);
        assert(greeked(once, sym, greeks) =~= once);
    }
}

/// Two cash balances for one account: the second is what stays.
pub proof fn lemma_balance_last_write_wins(
    bs: Seq<(Seq<char>, Dec)>,
    account: Seq<char>,
    first: Dec,
    second: Dec,
)
    requires
        keys_sorted(balance_keys(bs)),
    ensures
        balanced(balanced(bs, account, first), account, second) == balanced(bs, account, second),
{
    let b1 = balanced(bs, account, first);
    if exists|i: int| 0 <= i < bs.len() && bs[i].0 == account {
        let i = choose|i: int| 0 <= i < bs.len() && bs[i].0 == account;
        lemma_balanced_known(bs, account, first, i);
        lemma_balanced_known(bs, account, second, i);
        assert(balance_keys(b1) =~= balance_keys(bs));
        lemma_balanced_known(b1, account, second, i);
        assert(b1.update(i, (account, second)) =~= bs.update(i, (account, second)));
    } else {
        let ks = balance_keys(bs);
        assert forall|j: int| 0 <= j < ks.len() implies ks[j] != account by {
            assert(ks[j] == bs[j].0);
        }
        lemma_slot_exists(ks, account);
        let p = crate::keys::slot_of(ks, account);
        lemma_insert_at_slot(ks, account, p);
        assert(balance_keys(b1) =~= ks.insert(p, account));
        lemma_balanced_known(b1, account, second, p);
        assert(b1.update(p, (account, second)) =~= bs.insert(p, (account, second)));
    }
}

/// With a zero position total, a zero value is shown as `0.00%`.
pub proof fn lemma_zero_share(num: (int, nat), total: (int, nat))
    requires
        num.0 == 0,
        total.0 == 0,
    ensures
        percent_text(Some(num), Some(total)) == "0.00%"@,
{
}

} // verus!
