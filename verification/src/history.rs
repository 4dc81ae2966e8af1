//! The query history: an append-only, deduplicated, order-preserving list of
//! previously generated query strings.

use vstd::prelude::*;
use crate::fields::str_eq;

verus! {

/// No string appears twice in the sequence.
pub open spec fn no_dups(h: Seq<Seq<char>>) -> bool {
    forall|i: int, j: int| 0 <= i < j < h.len() ==> h[i] != h[j]
}

/// What `append` leaves in the history: unchanged for an empty or already
/// present candidate, else the candidate appended at the end.
pub open spec fn append_spec(h: Seq<Seq<char>>, q: Seq<char>) -> Seq<Seq<char>> {
    if q.len() == 0 || h.contains(q) {
        h
    } else {
        h.push(q)
    }
}

/// How many entries of `h` equal `q`.
pub open spec fn occurrences(h: Seq<Seq<char>>, q: Seq<char>) -> int
    decreases h.len(),
{
    if h.len() == 0 {
        0
    } else {
        occurrences(h.drop_last(), q) + if h.last() == q {
            1int
        } else {
            0int
        }
    }
}

/// `s` with every entry that already appeared earlier removed: first
/// occurrences are kept, in order.
pub open spec fn dedup_first(s: Seq<Seq<char>>) -> Seq<Seq<char>>
    decreases s.len(),
{
    if s.len() == 0 {
        Seq::<Seq<char>>::empty()
    } else if s.drop_last().contains(s.last()) {
        dedup_first(s.drop_last())
    } else {
        dedup_first(s.drop_last()).push(s.last())
    }
}

pub proof fn lemma_dedup_first_membership(s: Seq<Seq<char>>, x: Seq<char>)
    ensures
        dedup_first(s).contains(x) == s.contains(x),
    decreases s.len(),
{
    if s.len() > 0 {
        lemma_dedup_first_membership(s.drop_last(), x);
        assert(s.contains(x) == (s.drop_last().contains(x) || s.last() == x)) by {
            if s.contains(x) {
                let i = choose|i: int| 0 <= i < s.len() && s[i] == x;
                if i < s.len() - 1 {
                    assert(s.drop_last()[i] == x);
                }
            }
            if s.drop_last().contains(x) {
                let i = choose|i: int| 0 <= i < s.len() - 1 && s.drop_last()[i] == x;
                assert(s[i] == x);
            }
            if s.last() == x {
                assert(s[s.len() - 1] == x);
            }
        }
        if !s.drop_last().contains(s.last()) {
            let d = dedup_first(s.drop_last()).push(s.last());
            assert(dedup_first(s) == d);
            assert(d.contains(x) == (dedup_first(s.drop_last()).contains(x) || s.last() == x))
                by {
                if d.contains(x) {
                    let i = choose|i: int| 0 <= i < d.len() && d[i] == x;
                    if i < d.len() - 1 {
                        assert(dedup_first(s.drop_last())[i] == x);
                    }
                }
                if dedup_first(s.drop_last()).contains(x) {
                    let i = choose|i: int|
                        0 <= i < dedup_first(s.drop_last()).len()
                            && dedup_first(s.drop_last())[i] == x;
                    assert(d[i] == x);
                }
                if s.last() == x {
                    assert(d[d.len() - 1] == x);
                }
            }
        }
    }
}

pub proof fn lemma_dedup_first_no_dups(s: Seq<Seq<char>>)
    ensures
        no_dups(dedup_first(s)),
    decreases s.len(),
{
    if s.len() > 0 {
        lemma_dedup_first_no_dups(s.drop_last());
        if !s.drop_last().contains(s.last()) {
            lemma_dedup_first_membership(s.drop_last(), s.last());
            let d = dedup_first(s.drop_last()).push(s.last());
            assert forall|i: int, j: int| 0 <= i < j < d.len() implies d[i] != d[j] by {
                if j == d.len() - 1 {
                    assert(d[i] == dedup_first(s.drop_last())[i]);
                    assert(dedup_first(s.drop_last()).contains(d[i]));
                }
            }
        }
    }
}

/// The deduplicated, order-preserving history of generated queries. The
/// entries are unique; persistence is left to the caller, which writes the
/// serialized form after each successful append.
pub struct History {
    pub entries: Vec<String>,
}

impl View for History {
    type V = Seq<Seq<char>>;

    open spec fn view(&self) -> Seq<Seq<char>> {
        self.entries.deep_view()
    }
}

impl History {
    /// The history invariant: no query string appears twice.
    pub open spec fn well_formed(&self) -> bool {
        no_dups(self@)
    }

    /// An empty history.
    pub fn new() -> (r: Self)
        ensures
            r@ == Seq::<Seq<char>>::empty(),
            r.well_formed(),
    {
        let r = History { entries: Vec::new() };
        proof {
            assert(r@ =~= Seq::<Seq<char>>::empty());
        }
        r
    }

    /// A history built from stored entries: first occurrences are kept in
    /// order, later duplicates are dropped, so the invariant holds whatever
    /// was on disk.
    pub fn from_entries(stored: Vec<String>) -> (r: Self)
        ensures
            r@ == dedup_first(stored.deep_view()),
            r.well_formed(),
    {
        let mut h = History { entries: Vec::new() };
        let ghost dv = stored.deep_view();
        let mut i: usize = 0;
        proof {
            assert(h@ =~= Seq::<Seq<char>>::empty());
            assert(dv.take(0) =~= Seq::<Seq<char>>::empty());
        }
        while i < stored.len()
            invariant
                dv == stored.deep_view(),
                i <= stored@.len(),
                h@ == dedup_first(dv.take(i as int)),
            decreases stored@.len() - i,
        {
            proof {
                assert(dv.take(i + 1).drop_last() =~= dv.take(i as int));
                assert(dv.take(i + 1).last() == dv[i as int]);
                lemma_dedup_first_membership(dv.take(i as int), dv[i as int]);
            }
            let present = h.contains(stored[i].as_str());
            if !present {
                let ghost before = h@;
                h.entries.push(stored[i].clone());
                proof {
                    assert(h@ =~= before.push(dv[i as int]));
                }
            }
            i += 1;
        }
        proof {
            assert(dv.take(stored@.len() as int) =~= dv);
            lemma_dedup_first_no_dups(dv);
        }
        h
    }

    /// Whether a query string is already present, by exact string equality.
    pub fn contains(&self, q: &str) -> (r: bool)
        ensures
            r == self@.contains(q@),
    {
        let mut i: usize = 0;
        while i < self.entries.len()
            invariant
                i <= self.entries@.len(),
                forall|k: int| 0 <= k < i ==> self@[k] != q@,
            decreases self.entries@.len() - i,
        {
            if str_eq(self.entries[i].as_str(), q) {
                proof {
                    assert(self@[i as int] == q@);
                }
                return true;
            }
            i += 1;
        }
        false
    }

    /// The number of stored queries.
    pub fn len(&self) -> (r: usize)
        ensures
            r == self@.len(),
    {
        self.entries.len()
    }

    /// The entry at `i`, when there is one.
    pub fn get(&self, i: usize) -> (r: Option<&String>)
        ensures
            match r {
                Some(s) => i < self@.len() && s@ == self@[i as int],
                None => i >= self@.len(),
            },
    {
        if i < self.entries.len() {
            Some(&self.entries[i])
        } else {
            None
        }
    }

    /// Appends a candidate query: a no-op on an empty or already present
    /// candidate, else the candidate goes to the end. Returns whether the
    /// history changed (so the caller knows to persist it).
    pub fn append(&mut self, candidate: &str) -> (changed: bool)
        requires
            old(self).well_formed(),
        ensures
            final(self)@ == append_spec(old(self)@, candidate@),
            final(self).well_formed(),
            changed == (candidate@.len() > 0 && !old(self)@.contains(candidate@)),
    {
        if candidate.is_empty() {
            return false;
        }
        if self.contains(candidate) {
            return false;
        }
        let ghost before = self@;
        self.entries.push(candidate.to_owned());
        proof {
            assert(self@ =~= before.push(candidate@));
            assert forall|i: int, j: int| 0 <= i < j < self@.len() implies self@[i] != self@[j]
                by {
                if j == self@.len() - 1 {
                    assert(before.contains(self@[i]));
                }
            }
        }
        true
    }
}

/// The serialized text that persists a history with these entries.
pub uninterp spec fn json_of(h: Seq<Seq<char>>) -> Seq<char>;

/// The entries stored in a persisted history text, when it parses as one.
pub uninterp spec fn parsed_history(s: Seq<char>) -> Option<Seq<Seq<char>>>;

/// Relies on `serde_json::to_string_pretty`: on a list of strings it cannot
/// fail (its documented errors arise only from a failing `Serialize` impl or
/// a map with non-string keys, and it writes to an in-memory buffer), its
/// output is a function of the entries alone, and the text parses back, by
/// `serde_json::from_str`, to the same entries.
#[verifier::external_body]
fn entries_to_json(entries: &Vec<String>) -> (r: String)
    ensures
        r@ == json_of(entries.deep_view()),
        parsed_history(r@) == Some(entries.deep_view()),
{
    serde_json::to_string_pretty(entries).unwrap()
}

/// Relies on `serde_json::from_str::<Vec<String>>`: whether a text parses as
/// a list of strings, and what it holds, is a function of the text alone.
#[verifier::external_body]
fn json_to_entries(s: &str) -> (r: Option<Vec<String>>)
    ensures
        match r {
            Some(v) => parsed_history(s@) == Some(v.deep_view()),
            None => parsed_history(s@) is None,
        },
{
    serde_json::from_str::<Vec<String>>(s).ok()
}

impl History {
    /// The text to persist after an append: the entries serialized as an
    /// array of strings. The text parses back to the same entries, so a
    /// well-formed history survives a save-then-load round trip (see
    /// [`lemma_dedup_first_of_unique`]).
    pub fn to_json(&self) -> (r: String)
        ensures
            r@ == json_of(self@),
            parsed_history(r@) == Some(self@),
    {
        entries_to_json(&self.entries)
    }

    /// A history recovered from whatever was persisted: no content, or
    /// content that does not parse, gives the empty history; parsed entries
    /// keep their first occurrences in order.
    pub fn load_from(content: Option<&str>) -> (r: History)
        ensures
            r.well_formed(),
            match content {
                Some(s) => match parsed_history(s@) {
                    Some(v) => r@ == dedup_first(v),
                    None => r@ == Seq::<Seq<char>>::empty(),
                },
                None => r@ == Seq::<Seq<char>>::empty(),
            },
    {
        match content {
            None => History::new(),
            Some(s) => match json_to_entries(s) {
                None => History::new(),
                Some(v) => History::from_entries(v),
            },
        }
    }
}

/// A sequence without duplicates is already its own deduplication, so
/// loading what `to_json` saved restores a well-formed history unchanged.
pub proof fn lemma_dedup_first_of_unique(s: Seq<Seq<char>>)
    requires
        no_dups(s),
    ensures
        dedup_first(s) == s,
    decreases s.len(),
{
    if s.len() > 0 {
        assert(!s.drop_last().contains(s.last())) by {
            if s.drop_last().contains(s.last()) {
                let i = choose|i: int| 0 <= i < s.len() - 1 && s.drop_last()[i] == s.last();
                assert(s[i] == s[s.len() - 1]);
            }
        }
        assert forall|i: int, j: int|
            0 <= i < j < s.drop_last().len() implies s.drop_last()[i] != s.drop_last()[j] by {
            assert(s[i] == s.drop_last()[i] && s[j] == s.drop_last()[j]);
        }
        lemma_dedup_first_of_unique(s.drop_last());
        assert(s.drop_last().push(s.last()) =~= s);
    }
}

proof fn lemma_occurrences_zero(h: Seq<Seq<char>>, q: Seq<char>)
    requires
        !h.contains(q),
    ensures
        occurrences(h, q) == 0,
    decreases h.len(),
{
    if h.len() > 0 {
        assert(!h.drop_last().contains(q)) by {
            if h.drop_last().contains(q) {
                let i = choose|i: int| 0 <= i < h.len() - 1 && h.drop_last()[i] == q;
                assert(h[i] == q);
            }
        }
        lemma_occurrences_zero(h.drop_last(), q);
        assert(h.last() != q) by {
            if h.last() == q {
                assert(h[h.len() - 1] == q);
            }
        }
    }
}

proof fn lemma_occurrences_unique(h: Seq<Seq<char>>, q: Seq<char>)
    requires
        no_dups(h),
        h.contains(q),
    ensures
        occurrences(h, q) == 1,
    decreases h.len(),
{
    if h.last() == q {
        assert(!h.drop_last().contains(q)) by {
            if h.drop_last().contains(q) {
                let i = choose|i: int| 0 <= i < h.len() - 1 && h.drop_last()[i] == q;
                assert(h[i] == h[h.len() - 1]);
            }
        }
        lemma_occurrences_zero(h.drop_last(), q);
    } else {
        assert(h.drop_last().contains(q)) by {
            let i = choose|i: int| 0 <= i < h.len() && h[i] == q;
            assert(h.drop_last()[i] == q);
        }
        lemma_occurrences_unique(h.drop_last(), q);
    }
}

/// Appending the same non-empty candidate twice leaves it in the history
/// exactly once: `append` is idempotent under repetition.
pub proof fn lemma_append_idempotent(h: Seq<Seq<char>>, q: Seq<char>)
    requires
        no_dups(h),
        q.len() > 0,
    ensures
        append_spec(append_spec(h, q), q) == append_spec(h, q),
        occurrences(append_spec(append_spec(h, q), q), q) == 1,
{
    let h1 = append_spec(h, q);
    if h.contains(q) {
        lemma_occurrences_unique(h, q);
    } else {
        assert(h1 == h.push(q));
        assert(h1.contains(q)) by {
            assert(h1[h1.len() - 1] == q);
        }
        lemma_occurrences_zero(h, q);
        assert(h1.drop_last() =~= h);
    }
}

/// Appending the empty string never changes the history.
pub proof fn lemma_append_empty(h: Seq<Seq<char>>, q: Seq<char>)
    requires
        q.len() == 0,
    ensures
        append_spec(h, q) == h,
{
}

} // verus!
