use crate::decimal::{round_dp, rounded, Dec};
use crate::keys::{
    keys_sorted, lemma_insert_at_slot, lemma_sorted_distinct, search_key, slot_of, texts,
};
use crate::portfolio::{
    balance_keys, clamped, full_start, group_keys, lemma_full_start_grows, lemma_full_start_insert,
    lemma_full_start_update, lines_of, portfolio_wf, record_keys, symbols_unique, App, AppModel,
    Balance, Direction, GroupModel, Greeks, Position, PriceRecord, RecordModel, UnderlyingGroup,
};
use crate::updates::{balanced, has_symbol, holds_symbol};
use vstd::prelude::*;

verus! {

/// The groups after a new position: it joins the group of its underlying in
/// streamer-symbol order, or starts a closed group of its own in underlying order.
pub open spec fn with_position(
    gs: Seq<GroupModel>,
    underlying: Seq<char>,
    sym: Seq<char>,
    rec: RecordModel,
) -> Seq<GroupModel> {
    if exists|k: int| 0 <= k < gs.len() && gs[k].underlying == underlying {
        gs.map_values(
            |g: GroupModel|
                if g.underlying == underlying {
                    GroupModel {
                        records: g.records.insert(slot_of(record_keys(g), sym), (sym, rec)),
                        ..g
                    }
                } else {
                    g
                },
        )
    } else {
        gs.insert(
            slot_of(group_keys(gs), underlying),
            GroupModel { underlying: underlying, open: false, records: seq![(sym, rec)] },
        )
    }
}

impl PriceRecord {
    /// A position as downloaded: the open and close prices rounded to two
    /// places, the close price standing as the current one until a quote
    /// comes, and both Greeks zero.
    pub fn new(
        symbol: String,
        average_open: Dec,
        close: Dec,
        amount: Dec,
        multiplier: Dec,
        direction: Direction,
    ) -> (r: PriceRecord)
        requires
            average_open.wf(),
            close.wf(),
            amount.wf(),
            multiplier.wf(),
        ensures
            r@ == (RecordModel {
                symbol: symbol@,
                open: Dec { mantissa: rounded(average_open@, 2).0 as i128, scale: rounded(average_open@, 2).1 as u32 },
                current: Dec { mantissa: rounded(close@, 2).0 as i128, scale: rounded(close@, 2).1 as u32 },
                amount: amount,
                multiplier: multiplier,
                direction: direction,
                greeks: Greeks::zero_spec(),
            }),
            r.open@ == rounded(average_open@, 2),
            r.current@ == rounded(close@, 2),
            r.open.wf() && r.current.wf(),
    {
        PriceRecord {
            symbol,
            open: round_dp(average_open, 2),
            current: round_dp(close, 2),
            amount,
            multiplier,
            direction,
            greeks: Greeks::zero(),
        }
    }
}

impl App {
    /// A dashboard with no positions and no balances.
    pub fn new() -> (r: App)
        ensures
            r.wf(),
            r@.groups.len() == 0,
            r@.balances.len() == 0,
            r@.selected is None,
            r@.num_lines == 0,
    {
        App { selected: None, groups: Vec::new(), num_lines: 0, balances: Vec::new() }
    }

    fn account_keys(&self) -> (r: Vec<String>)
        ensures
            texts(r@) == balance_keys(self@.balances),
    {
        let mut r: Vec<String> = Vec::new();
        let mut i: usize = 0;
        while i < self.balances.len()
            invariant
                i <= self.balances@.len(),
                r@.len() == i,
                forall|j: int| 0 <= j < i ==> (#[trigger] r@[j])@ == balance_keys(self@.balances)[j],
            decreases self.balances@.len() - i,
        {
            let k = self.balances[i].account.clone();
            assert(balance_keys(self@.balances)[i as int] == k@);
            r.push(k);
            i = i + 1;
        }
        assert(texts(r@) =~= balance_keys(self@.balances));
        r
    }

    fn underlying_keys(&self) -> (r: Vec<String>)
        ensures
            texts(r@) == group_keys(self@.groups),
    {
        let mut r: Vec<String> = Vec::new();
        let mut i: usize = 0;
        while i < self.groups.len()
            invariant
                i <= self.groups@.len(),
                r@.len() == i,
                forall|j: int| 0 <= j < i ==> (#[trigger] r@[j])@ == group_keys(self@.groups)[j],
            decreases self.groups@.len() - i,
        {
            let k = self.groups[i].underlying.clone();
            assert(group_keys(self@.groups)[i as int] == k@);
            r.push(k);
            i = i + 1;
        }
        assert(texts(r@) =~= group_keys(self@.groups));
        r
    }

    /// Overwrites the cash balance of `account`, adding the account in its
    /// place where it is new.
    pub fn apply_balance(&mut self, account: String, cash: Dec)
        requires
            old(self).wf(),
            cash.wf(),
        ensures
            final(self).wf(),
            final(self)@ == (AppModel {
                balances: balanced(old(self)@.balances, account@, cash),
                ..old(self)@
            }),
    {
        let ghost bs = self@.balances;
        let keys = self.account_keys();
        match search_key(&keys, &account) {
            Ok(i) => {
                proof {
                    assert(texts(keys@)[i as int] == keys@[i as int]@);
                    assert(texts(keys@) == balance_keys(bs));
                    assert(texts(keys@).len() == keys@.len());
                    assert(bs.len() == keys@.len());
                    assert(balance_keys(bs).len() == bs.len());
                    assert(balance_keys(bs)[i as int] == bs[i as int].0);
                    assert(bs[i as int].0 == account@);
                    crate::updates::lemma_balanced_known(bs, account@, cash, i as int);
                }
                self.balances.remove(i);
                self.balances.insert(i, Balance { account, cash });
                proof {
                    assert(self@.balances =~= balanced(bs, account@, cash));
                    assert(balance_keys(self@.balances) =~= balance_keys(bs));
                }
            },
            Err(p) => {
                proof {
                    lemma_insert_at_slot(balance_keys(bs), account@, p as int);
                    assert forall|j: int| 0 <= j < bs.len() implies bs[j].0 != account@ by {
                        assert(balance_keys(bs)[j] == bs[j].0);
                    }
                }
                self.balances.insert(p, Balance { account, cash });
                proof {
                    assert(self@.balances =~= balanced(bs, account@, cash));
                    assert(balance_keys(self@.balances) =~= balance_keys(bs).insert(p as int, account@));
                }
            },
        }
    }
}

/// Adding a record under a new symbol, with every old record moved to a
/// place of its own, keeps streamer symbols unique.
proof fn lemma_unique_after_add(
    gs: Seq<GroupModel>,
    ns: Seq<GroupModel>,
    g0: int,
    i0: int,
    sym: Seq<char>,
    f: spec_fn(int, int) -> (int, int),
)
    requires
        symbols_unique(gs),
        !has_symbol(gs, sym),
        holds_symbol(ns, g0, i0, sym),
        forall|g: int, i: int|
            0 <= g < ns.len() && 0 <= i < ns[g].records.len() && !(g == g0 && i == i0)
                ==> holds_symbol(gs, f(g, i).0, f(g, i).1, #[trigger] ns[g].records[i].0),
        forall|g1: int, i1: int, g2: int, i2: int|
            0 <= g1 < ns.len() && 0 <= i1 < ns[g1].records.len() && !(g1 == g0 && i1 == i0) && 0
                <= g2 < ns.len() && 0 <= i2 < ns[g2].records.len() && !(g2 == g0 && i2 == i0)
                && #[trigger] f(g1, i1) == #[trigger] f(g2, i2) ==> g1 == g2 && i1 == i2,
    ensures
        symbols_unique(ns),
{
    assert forall|g1: int, i1: int, g2: int, i2: int|
        0 <= g1 < ns.len() && 0 <= g2 < ns.len() && 0 <= i1 < ns[g1].records.len() && 0
            <= i2 < ns[g2].records.len() && #[trigger] ns[g1].records[i1].0
            == #[trigger] ns[g2].records[i2].0 implies g1 == g2 && i1 == i2 by {
        let new1 = g1 == g0 && i1 == i0;
        let new2 = g2 == g0 && i2 == i0;
        if new1 && !new2 {
            assert(holds_symbol(gs, f(g2, i2).0, f(g2, i2).1, ns[g2].records[i2].0));
        } else if !new1 && new2 {
            assert(holds_symbol(gs, f(g1, i1).0, f(g1, i1).1, ns[g1].records[i1].0));
        } else if !new1 && !new2 {
            let a = f(g1, i1);
            let b = f(g2, i2);
            assert(holds_symbol(gs, a.0, a.1, ns[g1].records[i1].0));
            assert(holds_symbol(gs, b.0, b.1, ns[g2].records[i2].0));
            assert(gs[a.0].records[a.1].0 == gs[b.0].records[b.1].0);
        }
    }
}

fn stream_keys(g: &UnderlyingGroup) -> (r: Vec<String>)
    ensures
        texts(r@) == record_keys(g@),
{
    let mut r: Vec<String> = Vec::new();
    let mut i: usize = 0;
    while i < g.records.len()
        invariant
            i <= g.records@.len(),
            r@.len() == i,
            forall|j: int| 0 <= j < i ==> (#[trigger] r@[j])@ == record_keys(g@)[j],
        decreases g.records@.len() - i,
    {
        let k = g.records[i].stream_symbol.clone();
        assert(record_keys(g@)[i as int] == k@);
        r.push(k);
        i = i + 1;
    }
    assert(texts(r@) =~= record_keys(g@));
    r
}

impl App {
    /// Rows the group table would have with every group open.
    fn full_count(&self) -> (r: usize)
        requires
            self.wf(),
        ensures
            r == full_start(self@.groups, self@.groups.len() as int),
    {
        let ghost gs = self@.groups;
        let mut n: usize = 0;
        let mut k: usize = 0;
        while k < self.groups.len()
            invariant
                gs == self@.groups,
                self.wf(),
                k <= gs.len(),
                n == full_start(gs, k as int),
            decreases gs.len() - k,
        {
            proof {
                lemma_full_start_grows(gs, k + 1, gs.len() as int);
            }
            n = n + 1 + self.groups[k].records.len();
            k = k + 1;
        }
        n
    }

    /// Adds a position under its underlying, in streamer-symbol order; a
    /// new underlying starts a closed group in underlying order. A streamer
    /// symbol already held, or a table too large to count, is refused and
    /// changes nothing.
    pub fn add_position(&mut self, underlying: String, stream_symbol: String, record: PriceRecord) -> (r:
        bool)
        requires
            old(self).wf(),
            record@.wf(),
        ensures
            r == (!has_symbol(old(self)@.groups, stream_symbol@) && full_start(
                old(self)@.groups,
                old(self)@.groups.len() as int,
            ) + 2 <= usize::MAX),
            final(self).wf(),
            !r ==> final(self)@ == old(self)@,
            r ==> final(self)@ == (AppModel {
                groups: with_position(old(self)@.groups, underlying@, stream_symbol@, record@),
                num_lines: lines_of(
                    with_position(old(self)@.groups, underlying@, stream_symbol@, record@),
                ) as nat,
                selected: clamped(
                    old(self).selected,
                    lines_of(with_position(old(self)@.groups, underlying@, stream_symbol@, record@))
                        as nat,
                ),
                ..old(self)@
            }),
    {
        if self.find_record(&stream_symbol).is_some() {
            return false;
        }
        let count = self.full_count();
        if count > usize::MAX - 2 {
            return false;
        }
        let ghost gs = self@.groups;
        let ghost bs = self@.balances;
        let ghost rec = record@;
        let ghost sym = stream_symbol@;
        let ghost u = underlying@;
        let ghost ns = with_position(gs, u, sym, rec);
        let keys = self.underlying_keys();
        proof {
            assert(texts(keys@).len() == keys@.len());
            assert(group_keys(gs).len() == gs.len());
        }
        match search_key(&keys, &underlying) {
            Ok(k) => {
                proof {
                    assert(texts(keys@)[k as int] == keys@[k as int]@);
                    assert(group_keys(gs)[k as int] == gs[k as int].underlying);
                }
                let grp0 = &self.groups[k];
                let rkeys = stream_keys(grp0);
                proof {
                    assert(gs[k as int].underlying == u);
                }
                proof {
                    assert(texts(rkeys@).len() == rkeys@.len());
                    assert(record_keys(gs[k as int]).len() == gs[k as int].records.len());
                }
                match search_key(&rkeys, &stream_symbol) {
                    Ok(i) => {
                        proof {
                            assert(texts(rkeys@)[i as int] == rkeys@[i as int]@);
                            assert(record_keys(gs[k as int])[i as int] == gs[k as int].records[i as int].0);
                            assert(holds_symbol(gs, k as int, i as int, sym));
                        }
                        return false;
                    },
                    Err(p) => {
                        let mut grp = self.groups.remove(k);
                        grp.records.insert(p, Position { stream_symbol, record });
                        self.groups.insert(k, grp);
                        proof {
                            let old_g = gs[k as int];
                            let ks = record_keys(old_g);
                            lemma_insert_at_slot(ks, sym, p as int);
                            assert forall|j: int| 0 <= j < gs.len() && j != k implies gs[j].underlying != u by {
                                assert(group_keys(gs)[j] == gs[j].underlying);
                                assert(group_keys(gs)[k as int] == gs[k as int].underlying);
                                if gs[j].underlying == u {
                                    lemma_sorted_distinct(group_keys(gs), j, k as int);
                                }
                            }
                            assert(self@.groups[k as int].records =~= old_g.records.insert(p as int, (sym, rec)));
                            assert(ns[k as int] == GroupModel { records: old_g.records.insert(p as int, (sym, rec)), ..old_g });
                            assert(self@.groups =~= ns);
                            assert(record_keys(ns[k as int]) =~= ks.insert(p as int, sym));
                            assert(group_keys(ns) =~= group_keys(gs));
                            assert(ns =~= gs.update(k as int, ns[k as int]));
                            lemma_full_start_update(gs, k as int, ns[k as int], gs.len() as int);
                            assert forall|j: int| 0 <= j < ns.len() implies crate::keys::keys_sorted(
                                #[trigger] record_keys(ns[j]),
                            ) by {
                                if j != k {
                                    assert(ns[j] == gs[j]);
                                }
                            }
                            assert forall|j: int, i: int|
                                0 <= j < ns.len() && 0 <= i < ns[j].records.len() implies (
                                #[trigger] ns[j].records[i]).1.wf() by {
                                if j != k {
                                    assert(ns[j] == gs[j]);
                                } else if i < p {
                                    assert(ns[j].records[i] == gs[j].records[i]);
                                } else if i > p {
                                    assert(ns[j].records[i] == gs[j].records[i - 1]);
                                }
                            }
                            let f = |g: int, i: int| if g == k && i > p { (g, i - 1) } else { (g, i) };
                            lemma_unique_after_add(gs, ns, k as int, p as int, sym, f);
                            assert(portfolio_wf(ns, bs));
                        }
                    },
                }
            },
            Err(p) => {
                let mut recs: Vec<Position> = Vec::new();
                recs.push(Position { stream_symbol, record });
                self.groups.insert(p, UnderlyingGroup { underlying, open: false, records: recs });
                proof {
                    let ng = GroupModel { underlying: u, open: false, records: seq![(sym, rec)] };
                    assert forall|j: int| 0 <= j < gs.len() implies gs[j].underlying != u by {
                        assert(group_keys(gs)[j] == gs[j].underlying);
                    }
                    lemma_insert_at_slot(group_keys(gs), u, p as int);
                    assert(self@.groups[p as int].records =~= seq![(sym, rec)]);
                    assert(self@.groups =~= gs.insert(p as int, ng));
                    assert(self@.groups =~= ns);
                    assert(ns == gs.insert(p as int, ng));
                    assert(group_keys(ns) =~= group_keys(gs).insert(p as int, u));
                    assert(record_keys(ng) =~= seq![sym]);
                    lemma_full_start_insert(gs, p as int, ng, (gs.len() + 1) as int);
                    let f = |g: int, i: int| if g > p { (g - 1, i) } else { (g, i) };
                    lemma_unique_after_add(gs, ns, p as int, 0, sym, f);
                    assert(portfolio_wf(ns, bs));
                }
            },
        }
        self.update_num_lines();
        true
    }
}

} // verus!
