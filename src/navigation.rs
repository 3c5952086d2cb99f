use crate::portfolio::{
    clamped, flipped_at, lemma_flipped_at_header, lemma_full_start_grows, lemma_full_start_same,
    lemma_row_start_grows, lemma_row_start_prefix, lines_of, next_selection, portfolio_wf,
    previous_selection, row_start, App, AppModel,
};
use vstd::prelude::*;

verus! {

impl App {
    pub open spec fn wf(&self) -> bool {
        self@.wf()
    }

    /// Counts the rows of the group table again, and keeps the selection
    /// within them.
    pub fn update_num_lines(&mut self)
        requires
            portfolio_wf(old(self)@.groups, old(self)@.balances),
        ensures
            final(self)@ == (AppModel {
                num_lines: lines_of(old(self)@.groups) as nat,
                selected: clamped(old(self).selected, lines_of(old(self)@.groups) as nat),
                ..old(self)@
            }),
            final(self).wf(),
    {
        let ghost gm = self@.groups;
        let mut n: usize = 0;
        let mut k: usize = 0;
        while k < self.groups.len()
            invariant
                gm == self@.groups,
                portfolio_wf(gm, self@.balances),
                0 <= k <= gm.len(),
                n == row_start(gm, k as int),
            decreases gm.len() - k,
        {
            proof {
                lemma_row_start_grows(gm, 0, k + 1);
                lemma_full_start_grows(gm, k + 1, gm.len() as int);
            }
            let g = &self.groups[k];
            n = n + 1;
            if g.open {
                n = n + g.records.len();
            }
            k = k + 1;
        }
        self.num_lines = n;
        match self.selected {
            Some(s) => {
                if s >= n {
                    if n == 0 {
                        self.selected = None;
                    } else {
                        self.selected = Some(n - 1);
                    }
                }
            },
            None => {},
        }
    }

    /// Steps the selection one row down, wrapping to the first row.
    pub fn next(&mut self)
        requires
            old(self).wf(),
        ensures
            final(self).wf(),
            final(self)@ == (AppModel {
                selected: next_selection(old(self).selected, old(self).num_lines as nat),
                ..old(self)@
            }),
    {
        if self.num_lines == 0 {
            return ;
        }
        let i = match self.selected {
            Some(i) => {
                if i >= self.num_lines - 1 {
                    0
                } else {
                    i + 1
                }
            },
            None => 0,
        };
        self.selected = Some(i);
    }

    /// Steps the selection one row up, wrapping to the last row.
    pub fn previous(&mut self)
        requires
            old(self).wf(),
        ensures
            final(self).wf(),
            final(self)@ == (AppModel {
                selected: previous_selection(old(self).selected, old(self).num_lines as nat),
                ..old(self)@
            }),
    {
        if self.num_lines == 0 {
            return ;
        }
        let i = match self.selected {
            Some(i) => {
                if i == 0 {
                    self.num_lines - 1
                } else {
                    i - 1
                }
            },
            None => 0,
        };
        self.selected = Some(i);
    }

    /// Opens or closes the group whose header row is selected; a selected
    /// record row, or no selection, changes nothing.
    pub fn toggle_group(&mut self)
        requires
            old(self).wf(),
        ensures
            final(self).wf(),
            match old(self).selected {
                None => final(self)@ == old(self)@,
                Some(s) => final(self)@ == (AppModel {
                    groups: flipped_at(old(self)@.groups, s as int),
                    num_lines: lines_of(flipped_at(old(self)@.groups, s as int)) as nat,
                    ..old(self)@
                }),
            },
    {
        let sel = match self.selected {
            Some(s) => s,
            None => return ,
        };
        let ghost gm = self@.groups;
        let mut i: usize = 0;
        let mut k: usize = 0;
        while k < self.groups.len() && i != sel
            invariant
                gm == self@.groups,
                self@ == old(self)@,
                old(self).wf(),
                self.selected == Some(sel),
                0 <= k <= gm.len(),
                i == row_start(gm, k as int),
                forall|j: int| 0 <= j < k ==> row_start(gm, j) != sel,
            decreases gm.len() - k,
        {
            proof {
                lemma_row_start_grows(gm, 0, k + 1);
                lemma_full_start_grows(gm, k + 1, gm.len() as int);
            }
            let g = &self.groups[k];
            i = i + 1;
            if g.open {
                i = i + g.records.len();
            }
            k = k + 1;
        }
        let ghost fl = flipped_at(gm, sel as int);
        if k < self.groups.len() {
            proof {
                lemma_flipped_at_header(gm, sel as int, k as int);
            }
            let mut g = self.groups.remove(k);
            g.open = !g.open;
            self.groups.insert(k, g);
            proof {
                assert(self@.groups =~= fl);
                lemma_row_start_prefix(gm, fl, k as int);
                lemma_row_start_grows(fl, k as int, fl.len() as int);
                lemma_full_start_same(gm, fl, gm.len() as int);
            }
        } else {
            proof {
                assert(fl =~= gm);
            }
        }
        proof {
            assert(crate::portfolio::group_keys(fl) =~= crate::portfolio::group_keys(gm));
            assert forall|j: int| 0 <= j < fl.len() implies crate::keys::keys_sorted(
                #[trigger] crate::portfolio::record_keys(fl[j]),
            ) by {
                assert(fl[j].records == gm[j].records);
                assert(crate::portfolio::record_keys(fl[j]) == crate::portfolio::record_keys(gm[j]));
            }
            assert(crate::portfolio::symbols_unique(fl));
            assert(portfolio_wf(fl, self@.balances));
        }
        self.update_num_lines();
    }
}

} // verus!
