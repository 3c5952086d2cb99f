use crate::decimal::Dec;
use crate::keys::keys_sorted;
use vstd::prelude::*;

verus! {

/// Which way a position is held; only `Short` counts negatively.
#[derive(Clone, Copy, Debug, PartialEq, Eq, Structural)]
pub enum Direction {
    Long,
    Short,
    Zero,
}

/// One Greek as streamed: a number, or a floating-point value that no
/// decimal holds.
#[derive(Clone, Copy, Debug, PartialEq, Eq, Structural)]
pub enum Greek {
    Value(Dec),
    NotANumber,
    PosInfinity,
    NegInfinity,
}

#[derive(Clone, Copy, Debug, PartialEq, Eq, Structural)]
pub struct Greeks {
    pub theta: Greek,
    pub delta: Greek,
}

impl Greek {
    pub open spec fn wf(&self) -> bool {
        self matches Greek::Value(d) ==> d.wf()
    }
}

impl Greeks {
    pub open spec fn zero_spec() -> Greeks {
        Greeks {
            theta: Greek::Value(Dec { mantissa: 0, scale: 0 }),
            delta: Greek::Value(Dec { mantissa: 0, scale: 0 }),
        }
    }

    /// Both Greeks zero, as before any Greeks event.
    pub fn zero() -> (r: Greeks)
        ensures
            r == Greeks::zero_spec(),
    {
        Greeks { theta: Greek::Value(Dec::zero()), delta: Greek::Value(Dec::zero()) }
    }
}

/// One open position.
pub struct PriceRecord {
    pub symbol: String,
    pub open: Dec,
    pub current: Dec,
    pub amount: Dec,
    pub multiplier: Dec,
    pub direction: Direction,
    pub greeks: Greeks,
}

/// What a `PriceRecord` holds, with its symbol as characters.
pub struct RecordModel {
    pub symbol: Seq<char>,
    pub open: Dec,
    pub current: Dec,
    pub amount: Dec,
    pub multiplier: Dec,
    pub direction: Direction,
    pub greeks: Greeks,
}

impl View for PriceRecord {
    type V = RecordModel;

    open spec fn view(&self) -> RecordModel {
        RecordModel {
            symbol: self.symbol@,
            open: self.open,
            current: self.current,
            amount: self.amount,
            multiplier: self.multiplier,
            direction: self.direction,
            greeks: self.greeks,
        }
    }
}

impl RecordModel {
    /// Every number is in range; quantities and the open price are not negative.
    pub open spec fn wf(&self) -> bool {
        &&& self.open.wf() && self.current.wf() && self.amount.wf() && self.multiplier.wf()
        &&& self.open.non_negative() && self.amount.non_negative() && self.multiplier.non_negative()
        &&& self.greeks.theta.wf() && self.greeks.delta.wf()
    }
}

/// A position keyed by the symbol the market-data feed knows it by.
pub struct Position {
    pub stream_symbol: String,
    pub record: PriceRecord,
}

impl View for Position {
    type V = (Seq<char>, RecordModel);

    open spec fn view(&self) -> (Seq<char>, RecordModel) {
        (self.stream_symbol@, self.record@)
    }
}

/// The positions under one underlying symbol, in streamer-symbol order.
pub struct UnderlyingGroup {
    pub underlying: String,
    pub open: bool,
    pub records: Vec<Position>,
}

pub struct GroupModel {
    pub underlying: Seq<char>,
    pub open: bool,
    pub records: Seq<(Seq<char>, RecordModel)>,
}

impl View for UnderlyingGroup {
    type V = GroupModel;

    open spec fn view(&self) -> GroupModel {
        GroupModel {
            underlying: self.underlying@,
            open: self.open,
            records: self.records@.map_values(|p: Position| p@),
        }
    }
}

/// The cash balance of one account.
pub struct Balance {
    pub account: String,
    pub cash: Dec,
}

impl View for Balance {
    type V = (Seq<char>, Dec);

    open spec fn view(&self) -> (Seq<char>, Dec) {
        (self.account@, self.cash)
    }
}

/// The whole dashboard state: groups in underlying order, balances in
/// account order, and the selected row of the group table.
pub struct App {
    pub selected: Option<usize>,
    pub groups: Vec<UnderlyingGroup>,
    pub num_lines: usize,
    pub balances: Vec<Balance>,
}

pub struct AppModel {
    pub selected: Option<usize>,
    pub num_lines: nat,
    pub groups: Seq<GroupModel>,
    pub balances: Seq<(Seq<char>, Dec)>,
}

impl View for App {
    type V = AppModel;

    open spec fn view(&self) -> AppModel {
        AppModel {
            selected: self.selected,
            num_lines: self.num_lines as nat,
            groups: self.groups@.map_values(|g: UnderlyingGroup| g@),
            balances: self.balances@.map_values(|b: Balance| b@),
        }
    }
}

/// Rows that a group takes in the table: its header, and its records when open.
pub open spec fn rows_of(g: GroupModel) -> int {
    1 + if g.open {
        g.records.len() as int
    } else {
        0
    }
}

/// The row of the header of group `k`: the rows of the groups before it.
pub open spec fn row_start(gs: Seq<GroupModel>, k: int) -> int
    decreases k,
{
    if k <= 0 {
        0
    } else {
        row_start(gs, k - 1) + rows_of(gs[k - 1])
    }
}

/// Rows of the groups in the table.
pub open spec fn lines_of(gs: Seq<GroupModel>) -> int {
    row_start(gs, gs.len() as int)
}

/// Rows of the first `k` groups were every one of them open.
pub open spec fn full_start(gs: Seq<GroupModel>, k: int) -> int
    decreases k,
{
    if k <= 0 {
        0
    } else {
        full_start(gs, k - 1) + 1 + gs[k - 1].records.len()
    }
}

pub open spec fn record_keys(g: GroupModel) -> Seq<Seq<char>> {
    g.records.map_values(|p: (Seq<char>, RecordModel)| p.0)
}

pub open spec fn group_keys(gs: Seq<GroupModel>) -> Seq<Seq<char>> {
    gs.map_values(|g: GroupModel| g.underlying)
}

pub open spec fn balance_keys(bs: Seq<(Seq<char>, Dec)>) -> Seq<Seq<char>> {
    bs.map_values(|b: (Seq<char>, Dec)| b.0)
}

/// No streamer symbol appears twice in the whole portfolio.
pub open spec fn symbols_unique(gs: Seq<GroupModel>) -> bool {
    forall|g1: int, i1: int, g2: int, i2: int|
        0 <= g1 < gs.len() && 0 <= g2 < gs.len() && 0 <= i1 < gs[g1].records.len() && 0
            <= i2 < gs[g2].records.len() && #[trigger] gs[g1].records[i1].0
            == #[trigger] gs[g2].records[i2].0 ==> g1 == g2 && i1 == i2
}

/// Everything about the groups and balances that the table relies on.
pub open spec fn portfolio_wf(gs: Seq<GroupModel>, bs: Seq<(Seq<char>, Dec)>) -> bool {
    &&& keys_sorted(group_keys(gs))
    &&& forall|k: int| 0 <= k < gs.len() ==> keys_sorted(#[trigger] record_keys(gs[k]))
    &&& forall|k: int, i: int|
        0 <= k < gs.len() && 0 <= i < gs[k].records.len() ==> (#[trigger] gs[k].records[i]).1.wf()
    &&& symbols_unique(gs)
    &&& full_start(gs, gs.len() as int) <= usize::MAX
    &&& keys_sorted(balance_keys(bs))
    &&& forall|i: int| 0 <= i < bs.len() ==> (#[trigger] bs[i]).1.wf()
}

/// The selection after a step down: wraps from the last row to the first.
pub open spec fn next_selection(sel: Option<usize>, n: nat) -> Option<usize> {
    if n == 0 {
        sel
    } else {
        match sel {
            None => Some(0),
            Some(i) => if i + 1 >= n {
                Some(0)
            } else {
                Some((i + 1) as usize)
            },
        }
    }
}

/// The selection after a step up: wraps from the first row to the last.
pub open spec fn previous_selection(sel: Option<usize>, n: nat) -> Option<usize> {
    if n == 0 {
        sel
    } else {
        match sel {
            None => Some(0),
            Some(i) => if i == 0 {
                Some((n - 1) as usize)
            } else {
                Some((i - 1) as usize)
            },
        }
    }
}

/// The selection kept within `n` rows: cleared where there are none.
pub open spec fn clamped(sel: Option<usize>, n: nat) -> Option<usize> {
    match sel {
        Some(i) => if i < n {
            Some(i)
        } else if n == 0 {
            None
        } else {
            Some((n - 1) as usize)
        },
        None => None,
    }
}

/// The groups after toggling at row `sel`: the group whose header is that
/// row, if any, is opened or closed.
pub open spec fn flipped_at(gs: Seq<GroupModel>, sel: int) -> Seq<GroupModel> {
    gs.map(
        |k: int, g: GroupModel|
            if row_start(gs, k) == sel {
                GroupModel { open: !g.open, ..g }
            } else {
                g
            },
    )
}

impl AppModel {
    pub open spec fn wf(&self) -> bool {
        &&& portfolio_wf(self.groups, self.balances)
        &&& self.num_lines == lines_of(self.groups)
        &&& self.selected matches Some(s) ==> s < self.num_lines
    }
}

pub proof fn lemma_row_start_grows(gs: Seq<GroupModel>, k: int, m: int)
    requires
        0 <= k <= m <= gs.len(),
    ensures
        row_start(gs, k) + (m - k) <= row_start(gs, m),
        row_start(gs, m) <= full_start(gs, m),
        0 <= row_start(gs, k),
    decreases m,
{
    if m > 0 {
        lemma_row_start_grows(gs, if k < m { k } else { m - 1 }, m - 1);
    }
}

pub proof fn lemma_full_start_grows(gs: Seq<GroupModel>, k: int, m: int)
    requires
        0 <= k <= m <= gs.len(),
    ensures
        full_start(gs, k) <= full_start(gs, m),
    decreases m,
{
    if k < m {
        lemma_full_start_grows(gs, k, m - 1);
    }
}

pub proof fn lemma_row_start_prefix(a: Seq<GroupModel>, b: Seq<GroupModel>, k: int)
    requires
        0 <= k <= a.len(),
        k <= b.len(),
        forall|j: int| 0 <= j < k ==> rows_of(#[trigger] a[j]) == rows_of(b[j]),
    ensures
        row_start(a, k) == row_start(b, k),
    decreases k,
{
    if k > 0 {
        lemma_row_start_prefix(a, b, k - 1);
    }
}

pub proof fn lemma_full_start_same(a: Seq<GroupModel>, b: Seq<GroupModel>, k: int)
    requires
        0 <= k <= a.len(),
        k <= b.len(),
        forall|j: int| 0 <= j < k ==> (#[trigger] a[j]).records.len() == b[j].records.len(),
    ensures
        full_start(a, k) == full_start(b, k),
    decreases k,
{
    if k > 0 {
        lemma_full_start_same(a, b, k - 1);
    }
}

/// Toggling flips the group whose header is at the selected row, and no other.
pub proof fn lemma_flipped_at_header(gs: Seq<GroupModel>, sel: int, k: int)
    requires
        0 <= k < gs.len(),
        row_start(gs, k) == sel,
    ensures
        forall|j: int| 0 <= j < gs.len() && j != k ==> row_start(gs, j) != sel,
{
    assert forall|j: int| 0 <= j < gs.len() && j != k implies row_start(gs, j) != sel by {
        if j < k {
            lemma_row_start_grows(gs, j, k);
        } else {
            lemma_row_start_grows(gs, k, j);
        }
    }
}

/// Two group lists that differ at most in the numbers inside their records.
pub open spec fn same_shape(a: Seq<GroupModel>, b: Seq<GroupModel>) -> bool {
    &&& a.len() == b.len()
    &&& forall|k: int|
        0 <= k < a.len() ==> (#[trigger] a[k]).underlying == b[k].underlying && a[k].open == b[k].open
            && record_keys(a[k]) == record_keys(b[k])
}

/// Changing numbers inside records keeps the table's shape and, where the new
/// records are in range, the portfolio's invariant.
pub proof fn lemma_same_shape(a: Seq<GroupModel>, b: Seq<GroupModel>, bs: Seq<(Seq<char>, Dec)>)
    requires
        portfolio_wf(a, bs),
        same_shape(a, b),
        forall|k: int, i: int|
            0 <= k < b.len() && 0 <= i < b[k].records.len() ==> (#[trigger] b[k].records[i]).1.wf(),
    ensures
        portfolio_wf(b, bs),
        lines_of(a) == lines_of(b),
{
    assert forall|k: int| 0 <= k < a.len() implies (#[trigger] a[k]).records.len() == b[k].records.len() && rows_of(a[k]) == rows_of(b[k]) by {
        assert(record_keys(a[k]).len() == record_keys(b[k]).len());
    }
    lemma_full_start_same(a, b, a.len() as int);
    lemma_row_start_prefix(a, b, a.len() as int);
    assert(group_keys(a) =~= group_keys(b));
    assert forall|k: int| 0 <= k < b.len() implies keys_sorted(#[trigger] record_keys(b[k])) by {
        assert(record_keys(a[k]) == record_keys(b[k]));
    }
    assert forall|g1: int, i1: int, g2: int, i2: int|
        0 <= g1 < b.len() && 0 <= g2 < b.len() && 0 <= i1 < b[g1].records.len() && 0
            <= i2 < b[g2].records.len() && #[trigger] b[g1].records[i1].0
            == #[trigger] b[g2].records[i2].0 implies g1 == g2 && i1 == i2 by {
        assert(record_keys(a[g1]) == record_keys(b[g1]));
        assert(record_keys(a[g2]) == record_keys(b[g2]));
        assert(record_keys(a[g1])[i1] == a[g1].records[i1].0);
        assert(record_keys(b[g1])[i1] == b[g1].records[i1].0);
        assert(record_keys(a[g2])[i2] == a[g2].records[i2].0);
        assert(record_keys(b[g2])[i2] == b[g2].records[i2].0);
    }
}

pub proof fn lemma_full_start_update(gs: Seq<GroupModel>, k: int, g: GroupModel, m: int)
    requires
        0 <= k < gs.len(),
        0 <= m <= gs.len(),
    ensures
        full_start(gs.update(k, g), m) == full_start(gs, m) + if k < m {
            g.records.len() - gs[k].records.len()
        } else {
            0
        },
    decreases m,
{
    if m > 0 {
        lemma_full_start_update(gs, k, g, m - 1);
    }
}

pub proof fn lemma_full_start_insert(gs: Seq<GroupModel>, p: int, g: GroupModel, m: int)
    requires
        0 <= p <= gs.len(),
        0 <= m <= gs.len() + 1,
    ensures
        full_start(gs.insert(p, g), m) == if m <= p {
            full_start(gs, m)
        } else {
            full_start(gs, m - 1) + 1 + g.records.len()
        },
    decreases m,
{
    if m > 0 {
        lemma_full_start_insert(gs, p, g, m - 1);
    }
}

} // verus!
