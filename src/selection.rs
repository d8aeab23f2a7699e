use vstd::prelude::*;
use vstd::arithmetic::div_mod::{lemma_mod_add_multiples_vanish, lemma_mod_self_0, lemma_small_mod};

verus! {

/// The row that follows `sel` in a circular list of `max` rows.
pub open spec fn next_of(sel: Option<usize>, max: nat) -> Option<usize> {
    if max == 0 {
        None
    } else {
        match sel {
            Some(i) => if i >= max - 1 { Some(0usize) } else { Some((i + 1) as usize) },
            None => Some(0usize),
        }
    }
}

/// The row that precedes `sel` in a circular list of `max` rows.
pub open spec fn previous_of(sel: Option<usize>, max: nat) -> Option<usize> {
    if max == 0 {
        None
    } else {
        match sel {
            Some(i) => if i == 0 { Some((max - 1) as usize) } else { Some((i - 1) as usize) },
            None => Some(0usize),
        }
    }
}

/// A selection is consistent with a list of `max` rows when it is empty exactly
/// when the list is, and otherwise points inside the list.
pub open spec fn fits(sel: Option<usize>, max: nat) -> bool {
    match sel {
        Some(i) => i < max,
        None => max == 0,
    }
}

/// Which row of a list is highlighted, if any.
#[derive(Clone, Copy, Debug, PartialEq, Eq, Structural)]
pub struct Selection {
    pub selected: Option<usize>,
}

impl Selection {
    /// A selection with nothing highlighted.
    pub fn new() -> (r: Selection)
        ensures
            r.selected is None,
    {
        Selection { selected: None }
    }

    /// Highlights the first of `max` rows, or nothing when there are none.
    pub fn first(&mut self, max: usize)
        ensures
            final(self).selected == (if max == 0 { None } else { Some(0usize) }),
            fits(final(self).selected, max as nat),
    {
        if max == 0 {
            self.selected = None;
        } else {
            self.selected = Some(0);
        }
    }

    /// The highlighted row.
    pub fn selected(&self) -> (r: Option<usize>)
        ensures
            r == self.selected,
    {
        self.selected
    }

    /// Moves down one row among `max`, from the last back to the first.
    pub fn next(&mut self, max: usize)
        ensures
            final(self).selected == next_of(old(self).selected, max as nat),
            fits(final(self).selected, max as nat),
            max > 0 && old(self).selected is Some && old(self).selected->0 < max
                ==> final(self).selected == Some(((old(self).selected->0 + 1) % (max as int)) as usize),
    {
        if max == 0 {
            self.selected = None;
        } else {
            let i: usize = match self.selected {
                Some(i) => if i >= max - 1 {
                    proof {
                        if i < max {
                            lemma_mod_self_0(max as int);
                        }
                    }
                    0
                } else {
                    proof {
                        lemma_small_mod((i + 1) as nat, max as nat);
                    }
                    i + 1
                },
                None => 0,
            };
            self.selected = Some(i);
        }
    }

    /// Moves up one row among `max`, from the first round to the last.
    pub fn previous(&mut self, max: usize)
        ensures
            final(self).selected == previous_of(old(self).selected, max as nat),
            old(self).selected is None || old(self).selected->0 <= max ==> fits(final(self).selected, max as nat),
            max > 0 && old(self).selected is Some && old(self).selected->0 < max
                ==> final(self).selected == Some(((old(self).selected->0 - 1 + max) % (max as int)) as usize),
    {
        if max == 0 {
            self.selected = None;
        } else {
            let i: usize = match self.selected {
                Some(i) => if i == 0 {
                    proof {
                        lemma_small_mod((max - 1) as nat, max as nat);
                    }
                    max - 1
                } else {
                    proof {
                        if i < max {
                            lemma_mod_add_multiples_vanish(i - 1, max as int);
                            lemma_small_mod((i - 1) as nat, max as nat);
                        }
                    }
                    i - 1
                },
                None => 0,
            };
            self.selected = Some(i);
        }
    }

    /// Clears the highlight.
    pub fn unselect(&mut self)
        ensures
            final(self).selected is None,
    {
        self.selected = None;
    }
}

} // verus!
