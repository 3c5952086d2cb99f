use crate::decimal::Dec;
use crate::portfolio::{flipped_at, lines_of, next_selection, previous_selection, App, AppModel, Greeks};
use crate::updates::{balanced, greeked, quoted};
use vstd::prelude::*;

verus! {

/// The keys the dashboard acts on.
#[derive(Clone, Copy, Debug, PartialEq, Eq, Structural)]
pub enum Key {
    Quit,
    Down,
    Up,
    Space,
    Other,
}

/// One input to the dashboard's loop.
pub enum Event {
    /// A quote; `mid` is `None` where the mid-price is no decimal.
    Quote { symbol: String, mid: Option<Dec> },
    Greeks { symbol: String, greeks: Greeks },
    Balance { account: String, cash: Dec },
    /// Any other market-data or account event.
    Ignored,
    Key(Key),
    /// The keyboard stream has ended.
    InputClosed,
}

/// What the loop does after an event.
#[derive(Clone, Copy, Debug, PartialEq, Eq, Structural)]
pub enum Action {
    Redraw,
    Quit,
}

impl Event {
    pub open spec fn wf(&self) -> bool {
        match *self {
            Event::Quote { mid, .. } => mid matches Some(d) ==> d.wf(),
            Event::Greeks { greeks, .. } => greeks.theta.wf() && greeks.delta.wf(),
            Event::Balance { cash, .. } => cash.wf(),
            _ => true,
        }
    }
}

/// The state after an event, and whether the loop goes on.
pub open spec fn step(m: AppModel, e: Event) -> (AppModel, Action) {
    match e {
        Event::Quote { symbol, mid } => match mid {
            Some(d) => (AppModel { groups: quoted(m.groups, symbol@, d), ..m }, Action::Redraw),
            None => (m, Action::Redraw),
        },
        Event::Greeks { symbol, greeks } => (
            AppModel { groups: greeked(m.groups, symbol@, greeks), ..m },
            Action::Redraw,
        ),
        Event::Balance { account, cash } => (
            AppModel { balances: balanced(m.balances, account@, cash), ..m },
            Action::Redraw,
        ),
        Event::Ignored => (m, Action::Redraw),
        Event::Key(k) => match k {
            Key::Quit => (m, Action::Quit),
            Key::Down => (
                AppModel { selected: next_selection(m.selected, m.num_lines), ..m },
                Action::Redraw,
            ),
            Key::Up => (
                AppModel { selected: previous_selection(m.selected, m.num_lines), ..m },
                Action::Redraw,
            ),
            Key::Space => match m.selected {
                Some(s) => (
                    AppModel {
                        groups: flipped_at(m.groups, s as int),
                        num_lines: lines_of(flipped_at(m.groups, s as int)) as nat,
                        ..m
                    },
                    Action::Redraw,
                ),
                None => (m, Action::Redraw),
            },
            Key::Other => (m, Action::Redraw),
        },
        Event::InputClosed => (m, Action::Quit),
    }
}

impl App {
    /// Applies one event to the dashboard and says whether to draw again or stop.
    pub fn handle(&mut self, event: Event) -> (r: Action)
        requires
            old(self).wf(),
            event.wf(),
        ensures
            final(self).wf(),
            (final(self)@, r) == step(old(self)@, event),
    {
        match event {
            Event::Quote { symbol, mid } => {
                if let Some(d) = mid {
                    self.apply_quote(&symbol, d);
                }
                Action::Redraw
            },
            Event::Greeks { symbol, greeks } => {
                self.apply_greeks(&symbol, greeks);
                Action::Redraw
            },
            Event::Balance { account, cash } => {
                self.apply_balance(account, cash);
                Action::Redraw
            },
            Event::Ignored => Action::Redraw,
            Event::Key(k) => match k {
                Key::Quit => Action::Quit,
                Key::Down => {
                    self.next();
                    Action::Redraw
                },
                Key::Up => {
                    self.previous();
                    Action::Redraw
                },
                Key::Space => {
                    self.toggle_group();
                    Action::Redraw
                },
                Key::Other => Action::Redraw,
            },
            Event::InputClosed => Action::Quit,
        }
    }
}

} // verus!
