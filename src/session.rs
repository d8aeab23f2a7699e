use vstd::prelude::*;

use crate::matcher::{entry_matches, lemma_empty_query_matches, Entry};
use crate::selection::{fits, next_of, previous_of, Selection};

verus! {

/// A key press, as far as the search screen tells keys apart.
#[derive(Clone, Copy, Debug, PartialEq, Eq, Structural)]
pub enum Key {
    Esc,
    Char(char),
    Backspace,
    Up,
    Down,
    Enter,
    Other,
}

/// What the search screen does after a key press.
#[derive(Debug)]
pub enum Outcome {
    /// Stay on the screen and draw it again.
    Continue,
    /// The user left without choosing.
    Cancelled,
    /// The user chose the entry whose command this is.
    Committed(String),
}

/// `r` ends the search with a command whose text is `cmd`.
pub open spec fn commits(r: Outcome, cmd: Seq<char>) -> bool {
    match r {
        Outcome::Committed(s) => s@ == cmd,
        _ => false,
    }
}

/// The positions of `idx`, in their order, whose entries of `catalog` satisfy `q`
/// (a position past the end of the catalog is dropped).
pub open spec fn kept(catalog: Seq<Entry>, q: Seq<char>, idx: Seq<usize>) -> Seq<usize>
    decreases idx.len(),
{
    if idx.len() == 0 {
        Seq::empty()
    } else {
        let rest = kept(catalog, q, idx.drop_last());
        let i = idx.last();
        if i < catalog.len() && entry_matches(q, catalog[i as int]) {
            rest.push(i)
        } else {
            rest
        }
    }
}

/// Every position of a catalog of `n` entries, in order.
pub open spec fn all_positions(n: nat) -> Seq<usize> {
    Seq::new(n, |i: int| i as usize)
}

/// The positions of the entries of `catalog` that satisfy `q`, in catalog order.
pub open spec fn full_view(catalog: Seq<Entry>, q: Seq<char>) -> Seq<usize> {
    kept(catalog, q, all_positions(catalog.len()))
}

/// The selection that follows any change of the filtered view: the first row,
/// or nothing when the view is empty.
pub open spec fn reset_for(n: nat) -> Option<usize> {
    if n == 0 {
        None
    } else {
        Some(0usize)
    }
}

/// Relies on String::push: the character is appended at the end.
#[verifier::external_body]
fn push_char(s: &mut String, c: char)
    ensures
        final(s)@ == old(s)@.push(c),
{
    s.push(c)
}

/// Relies on String::pop: the last character is removed and returned, or
/// `None` comes back and the text stays as it is when it is empty.
#[verifier::external_body]
fn pop_char(s: &mut String) -> (r: Option<char>)
    ensures
        old(s)@.len() == 0 ==> r is None && final(s)@ == old(s)@,
        old(s)@.len() > 0 ==> r == Some(old(s)@.last()) && final(s)@ == old(s)@.drop_last(),
{
    s.pop()
}

/// Scans the whole catalog for the entries that satisfy `query`.
pub fn filter_catalog(catalog: &Vec<Entry>, query: &str) -> (r: Vec<usize>)
    ensures
        r@ == full_view(catalog@, query@),
{
    let n = catalog.len();
    let ghost all = all_positions(n as nat);
    let mut r: Vec<usize> = Vec::new();
    let mut i: usize = 0;
    while i < n
        invariant
            n == catalog@.len(),
            all == all_positions(n as nat),
            i <= n,
            r@ == kept(catalog@, query@, all.take(i as int)),
        decreases n - i,
    {
        assert(all.take(i + 1).drop_last() =~= all.take(i as int));
        if crate::matcher::matches(query, &catalog[i]) {
            r.push(i);
        }
        i += 1;
    }
    assert(all.take(n as int) =~= all);
    r
}

/// Keeps, in order, the positions of `view` whose entries satisfy `query`.
pub fn filter_view(catalog: &Vec<Entry>, query: &str, view: &Vec<usize>) -> (r: Vec<usize>)
    ensures
        r@ == kept(catalog@, query@, view@),
{
    let mut r: Vec<usize> = Vec::new();
    let mut k: usize = 0;
    while k < view.len()
        invariant
            k <= view@.len(),
            r@ == kept(catalog@, query@, view@.take(k as int)),
        decreases view@.len() - k,
    {
        assert(view@.take(k + 1).drop_last() =~= view@.take(k as int));
        let i = view[k];
        if i < catalog.len() && crate::matcher::matches(query, &catalog[i]) {
            r.push(i);
        }
        k += 1;
    }
    assert(view@.take(view@.len() as int) =~= view@);
    r
}

/// `s` lists positions in strictly increasing order.
pub open spec fn increasing(s: Seq<usize>) -> bool {
    forall|a: int, b: int| 0 <= a < b < s.len() ==> s[a] < s[b]
}

/// What `kept` leaves are positions of the catalog drawn from `idx`, and it keeps
/// their order.
pub proof fn lemma_kept_within(catalog: Seq<Entry>, q: Seq<char>, idx: Seq<usize>)
    ensures
        forall|k: int| 0 <= k < kept(catalog, q, idx).len() ==> {
            &&& #[trigger] kept(catalog, q, idx)[k] < catalog.len()
            &&& idx.contains(kept(catalog, q, idx)[k])
        },
        increasing(idx) ==> increasing(kept(catalog, q, idx)),
    decreases idx.len(),
{
    if idx.len() > 0 {
        let rest = idx.drop_last();
        lemma_kept_within(catalog, q, rest);
        let kr = kept(catalog, q, rest);
        assert forall|k: int| 0 <= k < kr.len() implies idx.contains(#[trigger] kr[k]) by {
            let j = choose|j: int| 0 <= j < rest.len() && rest[j] == kr[k];
            assert(idx[j] == kr[k]);
        }
        if increasing(idx) {
            assert(increasing(rest));
            assert forall|k: int| 0 <= k < kr.len() implies #[trigger] kr[k] < idx.last() by {
                let j = choose|j: int| 0 <= j < rest.len() && rest[j] == kr[k];
                assert(idx[j] == kr[k]);
            }
        }
    }
}

/// A catalog's positions come in increasing order.
pub proof fn lemma_all_positions_increasing(n: nat)
    requires
        n <= usize::MAX,
    ensures
        increasing(all_positions(n)),
{
    let all = all_positions(n);
    assert forall|a: int, b: int| 0 <= a < b < all.len() implies all[a] < all[b] by {
        assert(all[a] == a && all[b] == b);
    }
}

/// Filtering a view that was already filtered by the same query leaves it as it
/// is; so recomputing the view twice for one query gives one view.
pub proof fn lemma_filter_idempotent(catalog: Seq<Entry>, q: Seq<char>, idx: Seq<usize>)
    ensures
        kept(catalog, q, kept(catalog, q, idx)) == kept(catalog, q, idx),
    decreases idx.len(),
{
    if idx.len() > 0 {
        let rest = idx.drop_last();
        lemma_filter_idempotent(catalog, q, rest);
        let kr = kept(catalog, q, rest);
        let i = idx.last();
        if i < catalog.len() && entry_matches(q, catalog[i as int]) {
            assert(kr.push(i).drop_last() =~= kr);
        }
    }
}

/// With the empty query, filtering keeps every position of the catalog, in order.
pub proof fn lemma_empty_query_keeps_all(catalog: Seq<Entry>, n: nat)
    requires
        n <= catalog.len(),
        n <= usize::MAX,
    ensures
        kept(catalog, Seq::<char>::empty(), all_positions(n)) == all_positions(n),
    decreases n,
{
    if n > 0 {
        let all = all_positions(n);
        assert(all.drop_last() =~= all_positions((n - 1) as nat));
        lemma_empty_query_keeps_all(catalog, (n - 1) as nat);
        lemma_empty_query_matches(catalog[n - 1]);
        assert(all_positions((n - 1) as nat).push((n - 1) as usize) =~= all);
    }
}

/// The interactive search over a catalog: the query typed so far, the positions
/// of the catalog that are shown for it, and the highlighted row among them.
pub struct Session {
    pub catalog: Vec<Entry>,
    pub query: String,
    pub view: Vec<usize>,
    pub selection: Selection,
}

impl Session {
    /// The shown positions lie in the catalog in catalog order, and the
    /// highlight is on a shown row, or absent exactly when none is shown.
    pub open spec fn wf(&self) -> bool {
        &&& forall|k: int| 0 <= k < self.view@.len() ==> #[trigger] self.view@[k] < self.catalog@.len()
        &&& increasing(self.view@)
        &&& fits(self.selection.selected, self.view@.len())
    }

    /// Starts a search with an empty query: the whole catalog is shown, in its
    /// order, with the first entry highlighted.
    pub fn new(catalog: Vec<Entry>) -> (r: Session)
        ensures
            r.wf(),
            r.catalog@ == catalog@,
            r.query@ == Seq::<char>::empty(),
            r.view@ == all_positions(catalog@.len()),
            r.view@ == full_view(catalog@, r.query@),
            r.selection.selected == reset_for(catalog@.len()),
    {
        let n = catalog.len();
        let mut view: Vec<usize> = Vec::new();
        let mut i: usize = 0;
        while i < n
            invariant
                i <= n,
                view@ == all_positions(i as nat),
            decreases n - i,
        {
            view.push(i);
            i += 1;
            assert(view@ =~= all_positions(i as nat));
        }
        proof {
            lemma_empty_query_keeps_all(catalog@, n as nat);
        }
        let mut selection = Selection::new();
        selection.first(view.len());
        Session { catalog, query: String::new(), view, selection }
    }

    /// The highlighted row of the view.
    pub fn selected(&self) -> (r: Option<usize>)
        ensures
            r == self.selection.selected,
    {
        self.selection.selected()
    }

    /// Recomputes the view from the whole catalog, for a query that grew, and
    /// highlights its first row.
    pub fn refilter_catalog(&mut self)
        requires
            old(self).wf(),
        ensures
            final(self).wf(),
            final(self).catalog == old(self).catalog,
            final(self).query == old(self).query,
            final(self).view@ == full_view(old(self).catalog@, old(self).query@),
            final(self).selection.selected == reset_for(final(self).view@.len()),
    {
        let view = filter_catalog(&self.catalog, self.query.as_str());
        let n = self.catalog.len();
        proof {
            lemma_all_positions_increasing(n as nat);
            lemma_kept_within(self.catalog@, self.query@, all_positions(n as nat));
        }
        self.view = view;
        self.selection.first(self.view.len());
    }

    /// Drops from the current view the rows that no longer satisfy the query,
    /// for a query that shrank, and highlights the first row left.
    pub fn refilter_view(&mut self)
        requires
            old(self).wf(),
        ensures
            final(self).wf(),
            final(self).catalog == old(self).catalog,
            final(self).query == old(self).query,
            final(self).view@ == kept(old(self).catalog@, old(self).query@, old(self).view@),
            final(self).selection.selected == reset_for(final(self).view@.len()),
    {
        let view = filter_view(&self.catalog, self.query.as_str(), &self.view);
        proof {
            lemma_kept_within(self.catalog@, self.query@, self.view@);
        }
        self.view = view;
        self.selection.first(self.view.len());
    }

    /// Handles one key press. Escape cancels; Enter chooses the highlighted
    /// entry's command, if a row is highlighted; a character extends the query
    /// and the view is recomputed from the whole catalog; Backspace removes the
    /// query's last character, if any, and the current view is narrowed to what
    /// still satisfies the shorter query; Up and Down move the highlight round
    /// the view. Whenever the query changes, the first row of the new view is
    /// highlighted. Other keys change nothing.
    pub fn handle_key(&mut self, key: Key) -> (r: Outcome)
        requires
            old(self).wf(),
        ensures
            final(self).wf(),
            final(self).catalog == old(self).catalog,
            match key {
                Key::Esc => r is Cancelled && *final(self) == *old(self),
                Key::Char(c) => {
                    &&& r is Continue
                    &&& final(self).query@ == old(self).query@.push(c)
                    &&& final(self).view@ == full_view(old(self).catalog@, final(self).query@)
                    &&& final(self).selection.selected == reset_for(final(self).view@.len())
                },
                Key::Backspace => {
                    &&& r is Continue
                    &&& if old(self).query@.len() == 0 {
                        *final(self) == *old(self)
                    } else {
                        &&& final(self).query@ == old(self).query@.drop_last()
                        &&& final(self).view@ == kept(
                            old(self).catalog@,
                            final(self).query@,
                            old(self).view@,
                        )
                        &&& final(self).selection.selected == reset_for(final(self).view@.len())
                    }
                },
                Key::Up => {
                    &&& r is Continue
                    &&& final(self).query == old(self).query
                    &&& final(self).view == old(self).view
                    &&& final(self).selection.selected == previous_of(
                        old(self).selection.selected,
                        old(self).view@.len(),
                    )
                },
                Key::Down => {
                    &&& r is Continue
                    &&& final(self).query == old(self).query
                    &&& final(self).view == old(self).view
                    &&& final(self).selection.selected == next_of(
                        old(self).selection.selected,
                        old(self).view@.len(),
                    )
                },
                Key::Enter => {
                    &&& *final(self) == *old(self)
                    &&& match old(self).selection.selected {
                        Some(i) => commits(
                            r,
                            old(self).catalog@[old(self).view@[i as int] as int].command@,
                        ),
                        None => r is Continue,
                    }
                },
                Key::Other => r is Continue && *final(self) == *old(self),
            },
    {
        match key {
            Key::Esc => Outcome::Cancelled,
            Key::Char(c) => {
                push_char(&mut self.query, c);
                self.refilter_catalog();
                Outcome::Continue
            },
            Key::Backspace => {
                if self.query.unicode_len() > 0 {
                    pop_char(&mut self.query);
                    self.refilter_view();
                }
                Outcome::Continue
            },
            Key::Up => {
                self.selection.previous(self.view.len());
                Outcome::Continue
            },
            Key::Down => {
                self.selection.next(self.view.len());
                Outcome::Continue
            },
            Key::Enter => match self.selection.selected() {
                Some(i) => {
                    if i < self.view.len() && self.view[i] < self.catalog.len() {
                        Outcome::Committed(self.catalog[self.view[i]].command.clone())
                    } else {
                        Outcome::Continue
                    }
                },
                None => Outcome::Continue,
            },
            Key::Other => Outcome::Continue,
        }
    }
}

} // verus!
