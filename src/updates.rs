use crate::decimal::Dec;
use crate::keys::{keys_sorted, lemma_sorted_distinct, slot_of};
use crate::portfolio::{
    balance_keys, lemma_same_shape, portfolio_wf, record_keys, same_shape, symbols_unique, App,
    AppModel, GroupModel, Greeks, PriceRecord, RecordModel,
};
use vstd::prelude::*;

verus! {

/// Record `i` of group `g` is keyed by `sym`.
pub open spec fn holds_symbol(gs: Seq<GroupModel>, g: int, i: int, sym: Seq<char>) -> bool {
    &&& 0 <= g < gs.len()
    &&& 0 <= i < gs[g].records.len()
    &&& gs[g].records[i].0 == sym
}

pub open spec fn has_symbol(gs: Seq<GroupModel>, sym: Seq<char>) -> bool {
    exists|g: int, i: int| holds_symbol(gs, g, i, sym)
}

/// Group and index of the record keyed by `sym`.
pub open spec fn place_of(gs: Seq<GroupModel>, sym: Seq<char>) -> (int, int) {
    choose|g: int, i: int| holds_symbol(gs, g, i, sym)
}

/// The groups with record `i` of group `g` replaced by `rec`.
pub open spec fn with_record(gs: Seq<GroupModel>, g: int, i: int, rec: RecordModel) -> Seq<
    GroupModel,
> {
    gs.update(
        g,
        GroupModel { records: gs[g].records.update(i, (gs[g].records[i].0, rec)), ..gs[g] },
    )
}

/// The groups after a mid-price for `sym`: that record's `current` is `mid`;
/// an unknown symbol changes nothing.
pub open spec fn quoted(gs: Seq<GroupModel>, sym: Seq<char>, mid: Dec) -> Seq<GroupModel> {
    if has_symbol(gs, sym) {
        let (g, i) = place_of(gs, sym);
        with_record(gs, g, i, RecordModel { current: mid, ..gs[g].records[i].1 })
    } else {
        gs
    }
}

/// The groups after Greeks for `sym`: that record's Greeks are replaced;
/// an unknown symbol changes nothing.
pub open spec fn greeked(gs: Seq<GroupModel>, sym: Seq<char>, greeks: Greeks) -> Seq<GroupModel> {
    if has_symbol(gs, sym) {
        let (g, i) = place_of(gs, sym);
        with_record(gs, g, i, RecordModel { greeks: greeks, ..gs[g].records[i].1 })
    } else {
        gs
    }
}

/// The balances after a cash balance for `account`: its entry is
/// overwritten, or a new one takes its place in account order.
pub open spec fn balanced(bs: Seq<(Seq<char>, Dec)>, account: Seq<char>, cash: Dec) -> Seq<
    (Seq<char>, Dec),
> {
    if exists|i: int| 0 <= i < bs.len() && bs[i].0 == account {
        bs.map_values(
            |b: (Seq<char>, Dec)|
                if b.0 == account {
                    (account, cash)
                } else {
                    b
                },
        )
    } else {
        bs.insert(slot_of(balance_keys(bs), account), (account, cash))
    }
}

/// Where the account is known, its entry is overwritten in place.
pub proof fn lemma_balanced_known(bs: Seq<(Seq<char>, Dec)>, account: Seq<char>, cash: Dec, i: int)
    requires
        keys_sorted(balance_keys(bs)),
        0 <= i < bs.len(),
        bs[i].0 == account,
    ensures
        balanced(bs, account, cash) == bs.update(i, (account, cash)),
{
    assert forall|j: int| 0 <= j < bs.len() && j != i implies bs[j].0 != account by {
        assert(balance_keys(bs)[i] == bs[i].0);
        assert(balance_keys(bs)[j] == bs[j].0);
        if bs[j].0 == account {
            lemma_sorted_distinct(balance_keys(bs), i, j);
        }
    }
    assert(balanced(bs, account, cash) =~= bs.update(i, (account, cash)));
}

pub proof fn lemma_place_of(gs: Seq<GroupModel>, sym: Seq<char>, g: int, i: int)
    requires
        symbols_unique(gs),
        holds_symbol(gs, g, i, sym),
    ensures
        has_symbol(gs, sym),
        place_of(gs, sym) == (g, i),
{
    let p = place_of(gs, sym);
    assert(holds_symbol(gs, p.0, p.1, sym));
    assert(gs[p.0].records[p.1].0 == gs[g].records[i].0);
}

/// Replacing one record by one with the same key keeps the invariant and the row count.
pub proof fn lemma_with_record(
    gs: Seq<GroupModel>,
    bs: Seq<(Seq<char>, Dec)>,
    g: int,
    i: int,
    rec: RecordModel,
)
    requires
        portfolio_wf(gs, bs),
        0 <= g < gs.len(),
        0 <= i < gs[g].records.len(),
        rec.wf(),
    ensures
        same_shape(gs, with_record(gs, g, i, rec)),
        portfolio_wf(with_record(gs, g, i, rec), bs),
        crate::portfolio::lines_of(gs) == crate::portfolio::lines_of(with_record(gs, g, i, rec)),
{
    let ns = with_record(gs, g, i, rec);
    assert(record_keys(ns[g]) =~= record_keys(gs[g]));
    assert(same_shape(gs, ns));
    lemma_same_shape(gs, ns, bs);
}

impl App {
    /// Group and index of the record keyed by `symbol`, if any.
    pub fn find_record(&self, symbol: &String) -> (r: Option<(usize, usize)>)
        requires
            self.wf(),
        ensures
            r matches Some((g, i)) ==> holds_symbol(self@.groups, g as int, i as int, symbol@),
            r is None <==> !has_symbol(self@.groups, symbol@),
    {
        let ghost gs = self@.groups;
        let mut g: usize = 0;
        while g < self.groups.len()
            invariant
                gs == self@.groups,
                g <= gs.len(),
                forall|h: int, i: int| 0 <= h < g ==> !holds_symbol(gs, h, i, symbol@),
            decreases gs.len() - g,
        {
            let grp = &self.groups[g];
            let mut i: usize = 0;
            while i < grp.records.len()
                invariant
                    gs == self@.groups,
                    g < gs.len(),
                    grp@ == gs[g as int],
                    i <= grp.records@.len(),
                    forall|h: int, j: int| 0 <= h < g ==> !holds_symbol(gs, h, j, symbol@),
                    forall|j: int| 0 <= j < i ==> !holds_symbol(gs, g as int, j, symbol@),
                decreases grp.records@.len() - i,
            {
                if grp.records[i].stream_symbol.eq(symbol) {
                    assert(holds_symbol(gs, g as int, i as int, symbol@));
                    return Some((g, i));
                }
                i = i + 1;
            }
            g = g + 1;
        }
        None
    }

    /// The record keyed by `symbol`, if any.
    pub fn get_record(&self, symbol: &String) -> (r: Option<&PriceRecord>)
        requires
            self.wf(),
        ensures
            r is None <==> !has_symbol(self@.groups, symbol@),
            r matches Some(rec) ==> rec@ == self@.groups[place_of(self@.groups, symbol@).0].records[place_of(
                self@.groups,
                symbol@,
            ).1].1,
    {
        match self.find_record(symbol) {
            Some((g, i)) => {
                proof {
                    lemma_place_of(self@.groups, symbol@, g as int, i as int);
                }
                Some(&self.groups[g].records[i].record)
            },
            None => None,
        }
    }

    /// Sets the mid-price of the record keyed by `symbol`; an unknown symbol
    /// changes nothing.
    pub fn apply_quote(&mut self, symbol: &String, mid: Dec)
        requires
            old(self).wf(),
            mid.wf(),
        ensures
            final(self).wf(),
            final(self)@ == (AppModel { groups: quoted(old(self)@.groups, symbol@, mid), ..old(self)@ }),
    {
        if let Some((g, i)) = self.find_record(symbol) {
            let ghost gs = self@.groups;
            proof {
                lemma_place_of(gs, symbol@, g as int, i as int);
                lemma_with_record(gs, self@.balances, g as int, i as int, RecordModel { current: mid, ..gs[g as int].records[i as int].1 });
            }
            let mut grp = self.groups.remove(g);
            let mut pos = grp.records.remove(i);
            pos.record.current = mid;
            grp.records.insert(i, pos);
            self.groups.insert(g, grp);
            proof {
                assert(self@.groups[g as int].records =~= quoted(gs, symbol@, mid)[g as int].records);
                assert(self@.groups =~= quoted(gs, symbol@, mid));
            }
        }
    }

    /// Replaces the Greeks of the record keyed by `symbol`; an unknown symbol
    /// changes nothing.
    pub fn apply_greeks(&mut self, symbol: &String, greeks: Greeks)
        requires
            old(self).wf(),
            greeks.theta.wf(),
            greeks.delta.wf(),
        ensures
            final(self).wf(),
            final(self)@ == (AppModel { groups: greeked(old(self)@.groups, symbol@, greeks), ..old(self)@ }),
    {
        if let Some((g, i)) = self.find_record(symbol) {
            let ghost gs = self@.groups;
            proof {
                lemma_place_of(gs, symbol@, g as int, i as int);
                lemma_with_record(gs, self@.balances, g as int, i as int, RecordModel { greeks: greeks, ..gs[g as int].records[i as int].1 });
            }
            let mut grp = self.groups.remove(g);
            let mut pos = grp.records.remove(i);
            pos.record.greeks = greeks;
            grp.records.insert(i, pos);
            self.groups.insert(g, grp);
            proof {
                assert(self@.groups[g as int].records =~= greeked(gs, symbol@, greeks)[g as int].records);
                assert(self@.groups =~= greeked(gs, symbol@, greeks));
            }
        }
    }
}

} // verus!
