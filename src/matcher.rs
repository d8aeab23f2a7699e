use vstd::prelude::*;

verus! {

/// One record of the catalog: a named shell command with a description and tags.
pub struct Entry {
    pub name: String,
    pub description: String,
    pub command: String,
    pub tags: Vec<String>,
}

/// The texts held in a sequence of character vectors.
pub open spec fn views(v: Seq<Vec<char>>) -> Seq<Seq<char>> {
    v.map_values(|w: Vec<char>| w@)
}

/// Splitting `s` on the space character, read left to right: the words already
/// closed by a space, and the word still being read.
pub open spec fn split_state(s: Seq<char>) -> (Seq<Seq<char>>, Seq<char>)
    decreases s.len(),
{
    if s.len() == 0 {
        (Seq::empty(), Seq::empty())
    } else {
        let (done, cur) = split_state(s.drop_last());
        if s.last() == ' ' {
            (done.push(cur), Seq::empty())
        } else {
            (done, cur.push(s.last()))
        }
    }
}

/// The pieces of `s` between space characters, empty pieces included: the empty
/// text gives one empty piece, and each space adds one piece.
pub open spec fn split_spaces(s: Seq<char>) -> Seq<Seq<char>> {
    split_state(s).0.push(split_state(s).1)
}

/// The texts that a query token may be a prefix of: every tag of the entry,
/// then every space-separated word of its name.
pub open spec fn candidates(e: Entry) -> Seq<Seq<char>> {
    e.tags@.map_values(|t: String| t@) + split_spaces(e.name@)
}

/// `t` starts at least one of `cands`.
pub open spec fn prefixes_some(t: Seq<char>, cands: Seq<Seq<char>>) -> bool {
    exists|j: int| 0 <= j < cands.len() && #[trigger] t.is_prefix_of(cands[j])
}

/// Every space-separated token of `query` is a prefix of a tag of `e` or of a
/// word of its name.
pub open spec fn entry_matches(query: Seq<char>, e: Entry) -> bool {
    let toks = split_spaces(query);
    forall|i: int| 0 <= i < toks.len() ==> prefixes_some(#[trigger] toks[i], candidates(e))
}

/// The empty query is satisfied by every entry: it is one empty token, and the
/// first word of a name, like any text, starts with the empty text.
pub proof fn lemma_empty_query_matches(e: Entry)
    ensures
        entry_matches(Seq::<char>::empty(), e),
{
    let toks = split_spaces(Seq::<char>::empty());
    let cands = candidates(e);
    let j = e.tags@.len() as int;
    assert(toks.len() == 1 && toks[0] =~= Seq::<char>::empty());
    assert(Seq::<char>::empty().is_prefix_of(cands[j]));
}

/// The characters of `s`, one by one.
fn chars_of(s: &str) -> (r: Vec<char>)
    ensures
        r@ == s@,
{
    let n = s.unicode_len();
    let mut r: Vec<char> = Vec::new();
    let mut i: usize = 0;
    while i < n
        invariant
            n == s@.len(),
            i <= n,
            r@ == s@.take(i as int),
        decreases n - i,
    {
        let c = s.get_char(i);
        r.push(c);
        i += 1;
        assert(r@ =~= s@.take(i as int));
    }
    assert(r@ =~= s@);
    r
}

/// The pieces of `s` between space characters.
pub fn split_words(s: &str) -> (r: Vec<Vec<char>>)
    ensures
        views(r@) == split_spaces(s@),
{
    let n = s.unicode_len();
    let mut done: Vec<Vec<char>> = Vec::new();
    let mut cur: Vec<char> = Vec::new();
    let mut i: usize = 0;
    while i < n
        invariant
            n == s@.len(),
            i <= n,
            (views(done@), cur@) == split_state(s@.take(i as int)),
        decreases n - i,
    {
        let c = s.get_char(i);
        let ghost before = s@.take(i as int);
        assert(s@.take(i + 1).drop_last() =~= before);
        if c == ' ' {
            let ghost prev = views(done@);
            let word = cur;
            done.push(word);
            assert(views(done@) =~= prev.push(word@));
            cur = Vec::new();
        } else {
            cur.push(c);
        }
        i += 1;
    }
    assert(s@.take(n as int) =~= s@);
    let ghost prev = views(done@);
    let last = cur;
    done.push(last);
    assert(views(done@) =~= prev.push(last@));
    done
}

/// Whether `cand` begins with `t`.
fn starts_with(cand: &Vec<char>, t: &Vec<char>) -> (r: bool)
    ensures
        r == t@.is_prefix_of(cand@),
{
    if t.len() > cand.len() {
        return false;
    }
    let mut i: usize = 0;
    while i < t.len()
        invariant
            t@.len() <= cand@.len(),
            i <= t@.len(),
            forall|k: int| 0 <= k < i ==> t@[k] == cand@[k],
        decreases t@.len() - i,
    {
        if t[i] != cand[i] {
            assert(t@[i as int] != cand@.subrange(0, t@.len() as int)[i as int]);
            return false;
        }
        i += 1;
    }
    assert(t@ =~= cand@.subrange(0, t@.len() as int));
    true
}

/// The texts that a token of a query is held against, as `candidates` gives them.
fn candidates_of(e: &Entry) -> (r: Vec<Vec<char>>)
    ensures
        views(r@) == candidates(*e),
{
    let mut r: Vec<Vec<char>> = Vec::new();
    let mut i: usize = 0;
    while i < e.tags.len()
        invariant
            i <= e.tags@.len(),
            views(r@) == e.tags@.map_values(|t: String| t@).take(i as int),
        decreases e.tags@.len() - i,
    {
        let ghost prev = views(r@);
        let t = chars_of(e.tags[i].as_str());
        r.push(t);
        i += 1;
        assert(views(r@) =~= e.tags@.map_values(|t: String| t@).take(i as int)) by {
            assert(views(r@) =~= prev.push(t@));
        }
    }
    let words = split_words(e.name.as_str());
    let mut k: usize = 0;
    let ghost tags = e.tags@.map_values(|t: String| t@);
    assert(tags.take(e.tags@.len() as int) =~= tags);
    while k < words.len()
        invariant
            k <= words@.len(),
            views(words@) == split_spaces(e.name@),
            views(r@) == tags + views(words@).take(k as int),
        decreases words@.len() - k,
    {
        let ghost prev = views(r@);
        let w = words[k].clone();
        r.push(w);
        k += 1;
        assert(views(r@) =~= tags + views(words@).take(k as int)) by {
            assert(views(r@) =~= prev.push(w@));
        }
    }
    assert(views(words@).take(words@.len() as int) =~= views(words@));
    r
}

/// Whether `t` is a prefix of one of `cands`.
fn prefixes_any(t: &Vec<char>, cands: &Vec<Vec<char>>) -> (r: bool)
    ensures
        r == prefixes_some(t@, views(cands@)),
{
    let mut j: usize = 0;
    while j < cands.len()
        invariant
            j <= cands@.len(),
            forall|k: int| 0 <= k < j ==> !t@.is_prefix_of(#[trigger] views(cands@)[k]),
        decreases cands@.len() - j,
    {
        if starts_with(&cands[j], t) {
            assert(t@.is_prefix_of(views(cands@)[j as int]));
            return true;
        }
        j += 1;
    }
    false
}

/// Whether `entry` satisfies `query`: every space-separated token of the query
/// is a prefix of one of the entry's tags or of one of the words of its name.
pub fn matches(query: &str, entry: &Entry) -> (r: bool)
    ensures
        r == entry_matches(query@, *entry),
{
    let toks = split_words(query);
    let cands = candidates_of(entry);
    let mut i: usize = 0;
    while i < toks.len()
        invariant
            i <= toks@.len(),
            views(toks@) == split_spaces(query@),
            views(cands@) == candidates(*entry),
            forall|k: int| 0 <= k < i ==> prefixes_some(#[trigger] views(toks@)[k], candidates(*entry)),
        decreases toks@.len() - i,
    {
        if !prefixes_any(&toks[i], &cands) {
            assert(!prefixes_some(views(toks@)[i as int], candidates(*entry)));
            return false;
        }
        i += 1;
    }
    true
}

} // verus!
