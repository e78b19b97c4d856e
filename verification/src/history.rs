//! A bounded, deduplicated history of recently generated passwords: new
//! entries go in front, a repeated entry is repositioned rather than
//! duplicated, and when the capacity is exceeded the least recently
//! recorded entry is evicted.

use vstd::prelude::*;

verus! {

/// The most entries the history keeps.
pub const HISTORY_CAPACITY: usize = 10;

/// `s` with every occurrence of `p` removed, order kept.
pub open spec fn without(s: Seq<Seq<char>>, p: Seq<char>) -> Seq<Seq<char>>
    decreases s.len(),
{
    if s.len() == 0 {
        Seq::empty()
    } else if s.last() == p {
        without(s.drop_last(), p)
    } else {
        without(s.drop_last(), p) + seq![s.last()]
    }
}

/// `s` truncated to the history capacity.
pub open spec fn capped(s: Seq<Seq<char>>) -> Seq<Seq<char>> {
    if s.len() <= HISTORY_CAPACITY {
        s
    } else {
        s.take(HISTORY_CAPACITY as int)
    }
}

/// What recording `p` leaves: `p` as the most recent entry, the earlier
/// entries with `p` removed behind it, and the oldest entry evicted if the
/// capacity would be exceeded.
pub open spec fn record_spec(s: Seq<Seq<char>>, p: Seq<char>) -> Seq<Seq<char>> {
    capped(seq![p] + without(s, p))
}

/// `s` with every entry after its first occurrence dropped, order kept.
pub open spec fn dedup_first(s: Seq<Seq<char>>) -> Seq<Seq<char>>
    decreases s.len(),
{
    if s.len() == 0 {
        Seq::empty()
    } else if dedup_first(s.drop_last()).contains(s.last()) {
        dedup_first(s.drop_last())
    } else {
        dedup_first(s.drop_last()) + seq![s.last()]
    }
}

/// What restoring from `s` leaves: first occurrences kept in order,
/// truncated to the capacity.
pub open spec fn restore_spec(s: Seq<Seq<char>>) -> Seq<Seq<char>> {
    capped(dedup_first(s))
}

/// A well-formed history: within capacity and free of duplicates.
pub open spec fn canonical(s: Seq<Seq<char>>) -> bool {
    s.no_duplicates() && s.len() <= HISTORY_CAPACITY
}

/// `without` keeps exactly the other entries: an entry survives removal
/// if and only if it was there and is not the removed one.
pub proof fn lemma_without_contains(s: Seq<Seq<char>>, p: Seq<char>, x: Seq<char>)
    ensures
        without(s, p).contains(x) <==> s.contains(x) && x != p,
    decreases s.len(),
{
    if s.len() == 0 {
        assert(!s.contains(x));
    } else {
        lemma_without_contains(s.drop_last(), p, x);
        lemma_drop_last_contains(s, x);
        let w0 = without(s.drop_last(), p);
        if s.last() == p {
            assert(without(s, p) == w0);
        } else {
            assert(without(s, p) == w0 + seq![s.last()]);
            lemma_drop_last_contains_append(w0, s.last(), x);
        }
    }
}

proof fn lemma_drop_last_contains(s: Seq<Seq<char>>, x: Seq<char>)
    requires
        s.len() > 0,
    ensures
        s.contains(x) <==> s.drop_last().contains(x) || s.last() == x,
{
    if s.drop_last().contains(x) {
        let i = choose|i: int| 0 <= i < s.drop_last().len() && s.drop_last()[i] == x;
        assert(s[i] == x);
    }
    if s.last() == x {
        assert(s[s.len() - 1] == x);
    }
    if s.contains(x) {
        let i = choose|i: int| 0 <= i < s.len() && s[i] == x;
        if i < s.len() - 1 {
            assert(s.drop_last()[i] == x);
        }
    }
}

/// Removal keeps the remaining entries free of duplicates.
pub proof fn lemma_without_no_duplicates(s: Seq<Seq<char>>, p: Seq<char>)
    requires
        s.no_duplicates(),
    ensures
        without(s, p).no_duplicates(),
    decreases s.len(),
{
    if s.len() > 0 {
        assert(s.drop_last().no_duplicates());
        lemma_without_no_duplicates(s.drop_last(), p);
        if s.last() != p {
            let w0 = without(s.drop_last(), p);
            let w = w0 + seq![s.last()];
            lemma_without_contains(s.drop_last(), p, s.last());
            assert(!s.drop_last().contains(s.last())) by {
                if s.drop_last().contains(s.last()) {
                    let i = choose|i: int|
                        0 <= i < s.drop_last().len() && s.drop_last()[i] == s.last();
                    assert(s[i] == s[s.len() - 1]);
                }
            }
            assert forall|i: int, j: int|
                0 <= i < w.len() && 0 <= j < w.len() && i != j implies w[i] != w[j] by {
                if i < w.len() - 1 && j < w.len() - 1 {
                    assert(w[i] == w0[i] && w[j] == w0[j]);
                } else if j == w.len() - 1 {
                    assert(w[i] == w0[i] && w[j] == s.last());
                    if w0[i] == s.last() {
                        assert(w0.contains(s.last()));
                    }
                } else {
                    assert(w[j] == w0[j] && w[i] == s.last());
                    if w0[j] == s.last() {
                        assert(w0.contains(s.last()));
                    }
                }
            }
        }
    }
}

/// After a record, the recorded password is the most recent entry and
/// appears nowhere else: however often it is recorded, one entry stays.
pub proof fn lemma_record_unique(s: Seq<Seq<char>>, p: Seq<char>)
    ensures
        record_spec(s, p).len() >= 1,
        record_spec(s, p)[0] == p,
        forall|i: int| 1 <= i < record_spec(s, p).len() ==> record_spec(s, p)[i] != p,
{
    let full = seq![p] + without(s, p);
    assert(full[0] == p);
    assert forall|i: int| 1 <= i < record_spec(s, p).len() implies record_spec(s, p)[i] != p by {
        assert(record_spec(s, p)[i] == full[i]);
        assert(full[i] == without(s, p)[i - 1]);
        assert(without(s, p).contains(without(s, p)[i - 1]));
        lemma_without_contains(s, p, without(s, p)[i - 1]);
    }
}

proof fn lemma_without_prepend_absent(y: Seq<Seq<char>>, p: Seq<char>)
    requires
        !y.contains(p),
    ensures
        without(seq![p] + y, p) == y,
    decreases y.len(),
{
    let x = seq![p] + y;
    if y.len() == 0 {
        assert(x.drop_last() =~= Seq::<Seq<char>>::empty());
        assert(x.last() == p);
        assert(without(x.drop_last(), p) =~= y);
        assert(without(x, p) =~= y);
    } else {
        assert(x.last() == y.last());
        assert(y.last() != p) by {
            assert(y[y.len() - 1] == y.last());
            if y.last() == p {
                assert(y.contains(p));
            }
        }
        assert(x.drop_last() =~= seq![p] + y.drop_last());
        lemma_drop_last_contains(y, p);
        lemma_without_prepend_absent(y.drop_last(), p);
        assert(without(x.drop_last(), p) == y.drop_last());
        assert(without(x, p) =~= y);
    }
}

/// Recording the same password again changes nothing: however often it is
/// recorded in a row, the history it leaves is the same.
pub proof fn lemma_record_idempotent(s: Seq<Seq<char>>, p: Seq<char>)
    ensures
        record_spec(record_spec(s, p), p) == record_spec(s, p),
{
    let w = without(s, p);
    assert(!w.contains(p)) by {
        lemma_without_contains(s, p, p);
    }
    let full = seq![p] + w;
    let r1 = record_spec(s, p);
    if full.len() <= HISTORY_CAPACITY {
        assert(r1 == full);
        lemma_without_prepend_absent(w, p);
        assert(record_spec(r1, p) == capped(seq![p] + w));
    } else {
        let w9 = w.take(HISTORY_CAPACITY - 1);
        assert(r1 =~= seq![p] + w9);
        assert(!w9.contains(p)) by {
            if w9.contains(p) {
                let i = choose|i: int| 0 <= i < w9.len() && w9[i] == p;
                assert(w[i] == p);
                assert(w.contains(p));
            }
        }
        lemma_without_prepend_absent(w9, p);
        assert(record_spec(r1, p) == capped(seq![p] + w9));
        assert(capped(seq![p] + w9) == r1);
    }
}

/// A record keeps the history well formed.
pub proof fn lemma_record_canonical(s: Seq<Seq<char>>, p: Seq<char>)
    requires
        s.no_duplicates(),
    ensures
        canonical(record_spec(s, p)),
{
    let w = without(s, p);
    lemma_without_no_duplicates(s, p);
    let full = seq![p] + w;
    assert(full.no_duplicates()) by {
        assert forall|i: int, j: int|
            0 <= i < full.len() && 0 <= j < full.len() && i != j implies full[i] != full[j] by {
            lemma_without_contains(s, p, p);
            if i == 0 {
                assert(full[j] == w[j - 1]);
                assert(w.contains(w[j - 1]));
                lemma_without_contains(s, p, w[j - 1]);
            } else if j == 0 {
                assert(full[i] == w[i - 1]);
                assert(w.contains(w[i - 1]));
                lemma_without_contains(s, p, w[i - 1]);
            } else {
                assert(full[i] == w[i - 1] && full[j] == w[j - 1]);
            }
        }
    }
    lemma_capped_canonical(full);
}

proof fn lemma_capped_canonical(s: Seq<Seq<char>>)
    requires
        s.no_duplicates(),
    ensures
        canonical(capped(s)),
        forall|i: int| 0 <= i < capped(s).len() ==> capped(s)[i] == s[i],
{
    if s.len() > HISTORY_CAPACITY {
        let c = s.take(HISTORY_CAPACITY as int);
        assert forall|i: int, j: int|
            0 <= i < c.len() && 0 <= j < c.len() && i != j implies c[i] != c[j] by {
            assert(c[i] == s[i] && c[j] == s[j]);
        }
    }
}

/// Entries already recorded once are not kept twice by a restore.
pub proof fn lemma_dedup_first_no_duplicates(s: Seq<Seq<char>>)
    ensures
        dedup_first(s).no_duplicates(),
        dedup_first(s).len() <= s.len(),
        forall|x: Seq<char>| dedup_first(s).contains(x) <==> s.contains(x),
    decreases s.len(),
{
    if s.len() == 0 {
        assert forall|x: Seq<char>| dedup_first(s).contains(x) <==> s.contains(x) by {}
    } else {
        lemma_dedup_first_no_duplicates(s.drop_last());
        let d0 = dedup_first(s.drop_last());
        assert forall|x: Seq<char>| dedup_first(s).contains(x) <==> s.contains(x) by {
            lemma_drop_last_contains(s, x);
            if d0.contains(s.last()) {
                assert(dedup_first(s) == d0);
            } else {
                let d = d0 + seq![s.last()];
                lemma_drop_last_contains_append(d0, s.last(), x);
            }
        }
        if !d0.contains(s.last()) {
            let d = d0 + seq![s.last()];
            assert forall|i: int, j: int|
                0 <= i < d.len() && 0 <= j < d.len() && i != j implies d[i] != d[j] by {
                if i < d.len() - 1 && j < d.len() - 1 {
                    assert(d[i] == d0[i] && d[j] == d0[j]);
                } else if j == d.len() - 1 {
                    assert(d[i] == d0[i] && d[j] == s.last());
                    if d0[i] == s.last() {
                        assert(d0.contains(s.last()));
                    }
                } else {
                    assert(d[j] == d0[j] && d[i] == s.last());
                    if d0[j] == s.last() {
                        assert(d0.contains(s.last()));
                    }
                }
            }
        }
    }
}

proof fn lemma_drop_last_contains_append(d0: Seq<Seq<char>>, x: Seq<char>, y: Seq<char>)
    ensures
        (d0 + seq![x]).contains(y) <==> d0.contains(y) || x == y,
{
    let d = d0 + seq![x];
    lemma_drop_last_contains(d, y);
    assert(d.drop_last() =~= d0);
    assert(d.last() == x);
}

/// Restoring what a canonical history hands out is a no-op: `restore`
/// composed with `snapshot` changes nothing.
pub proof fn lemma_restore_canonical_identity(s: Seq<Seq<char>>)
    requires
        canonical(s),
    ensures
        restore_spec(s) == s,
{
    lemma_dedup_first_identity(s);
}

proof fn lemma_dedup_first_identity(s: Seq<Seq<char>>)
    requires
        s.no_duplicates(),
    ensures
        dedup_first(s) == s,
    decreases s.len(),
{
    if s.len() == 0 {
        assert(dedup_first(s) =~= s);
    } else {
        assert(s.drop_last().no_duplicates());
        lemma_dedup_first_identity(s.drop_last());
        assert(!s.drop_last().contains(s.last())) by {
            if s.drop_last().contains(s.last()) {
                let i = choose|i: int|
                    0 <= i < s.drop_last().len() && s.drop_last()[i] == s.last();
                assert(s[i] == s[s.len() - 1]);
            }
        }
        assert(dedup_first(s) =~= s);
    }
}

/// The recent-passwords collection. Its entries are ordered newest first;
/// they stay distinct and never exceed the capacity.
#[derive(Clone, Debug)]
pub struct RecentHistory {
    entries: Vec<String>,
}

impl View for RecentHistory {
    type V = Seq<Seq<char>>;

    closed spec fn view(&self) -> Seq<Seq<char>> {
        self.entries.deep_view()
    }
}

impl RecentHistory {
    /// An empty history.
    pub fn new() -> (h: Self)
        ensures
            h@ == Seq::<Seq<char>>::empty(),
            canonical(h@),
    {
        let entries: Vec<String> = Vec::new();
        let h = RecentHistory { entries };
        proof {
            assert(h@ =~= Seq::<Seq<char>>::empty());
        }
        h
    }

    /// How many passwords the history holds.
    pub fn len(&self) -> (n: usize)
        ensures
            n == self@.len(),
    {
        self.entries.len()
    }

    /// Whether `password` is one of the recorded entries.
    pub fn contains(&self, password: &String) -> (b: bool)
        ensures
            b == self@.contains(password@),
    {
        let mut i: usize = 0;
        let n = self.entries.len();
        while i < n
            invariant
                i <= n,
                n == self.entries.len(),
                forall|j: int| 0 <= j < i ==> self.entries.deep_view()[j] != password@,
            decreases n - i,
        {
            if self.entries[i].eq(password) {
                proof {
                    assert(self@[i as int] == password@);
                }
                return true;
            }
            i = i + 1;
        }
        proof {
            if self@.contains(password@) {
                let j = choose|j: int| 0 <= j < self@.len() && self@[j] == password@;
                assert(self.entries.deep_view()[j] == password@);
            }
        }
        false
    }

    /// Makes `password` the most recent entry. An existing copy is
    /// repositioned, not duplicated; if the history would then exceed its
    /// capacity, the least recently recorded entry is evicted.
    pub fn record(&mut self, password: String)
        requires
            canonical(old(self)@),
        ensures
            final(self)@ == record_spec(old(self)@, password@),
            canonical(final(self)@),
    {
        let ghost s0 = self@;
        let mut kept: Vec<String> = Vec::new();
        kept.push(password.clone());
        proof {
            assert(kept.deep_view() =~= seq![password@] + without(s0.take(0), password@));
        }
        let n = self.entries.len();
        let mut i: usize = 0;
        while i < n
            invariant
                i <= n,
                n == self.entries.len(),
                self@ == s0,
                kept.deep_view() =~= seq![password@] + without(s0.take(i as int), password@),
            decreases n - i,
        {
            let ghost prev = kept.deep_view();
            proof {
                assert(s0.take(i + 1).drop_last() =~= s0.take(i as int));
                assert(s0.take(i + 1).last() == s0[i as int]);
            }
            if !self.entries[i].eq(&password) {
                let entry = self.entries[i].clone();
                assert(entry@ == s0[i as int]);
                kept.push(entry);
                proof {
                    assert(kept.deep_view() =~= prev + seq![s0[i as int]]);
                }
            } else {
                assert(s0[i as int] == password@);
            }
            i = i + 1;
        }
        proof {
            assert(s0.take(n as int) =~= s0);
        }
        if kept.len() > HISTORY_CAPACITY {
            kept.truncate(HISTORY_CAPACITY);
            proof {
                assert(kept.deep_view() =~= capped(seq![password@] + without(s0, password@)));
            }
        }
        self.entries = kept;
        proof {
            lemma_record_canonical(s0, password@);
            assert(self@ =~= record_spec(s0, password@));
        }
    }

    /// The entries, newest first, for display or persistence.
    pub fn snapshot(&self) -> (v: Vec<String>)
        ensures
            v.deep_view() == self@,
    {
        let mut v: Vec<String> = Vec::new();
        let n = self.entries.len();
        let mut i: usize = 0;
        while i < n
            invariant
                i <= n,
                n == self.entries.len(),
                v.deep_view() =~= self.entries.deep_view().take(i as int),
            decreases n - i,
        {
            let ghost prev = v.deep_view();
            let entry = self.entries[i].clone();
            assert(entry@ == self.entries.deep_view()[i as int]);
            v.push(entry);
            proof {
                assert(v.deep_view() =~= prev + seq![self.entries.deep_view()[i as int]]);
                assert(self.entries.deep_view().take(i + 1).drop_last() =~= self.entries.deep_view()
                    .take(i as int));
                assert(v.deep_view() =~= self.entries.deep_view().take(i + 1));
            }
            i = i + 1;
        }
        proof {
            assert(self.entries.deep_view().take(n as int) =~= self@);
        }
        v
    }

    /// Replaces the history wholesale, as at startup from persisted state.
    /// Entries repeated in the payload are kept once, at their first (most
    /// recent) position, and an oversized payload is truncated to capacity.
    pub fn restore(&mut self, entries: Vec<String>)
        ensures
            final(self)@ == restore_spec(entries.deep_view()),
            canonical(final(self)@),
    {
        let ghost s = entries.deep_view();
        let mut kept: Vec<String> = Vec::new();
        proof {
            assert(kept.deep_view() =~= capped(dedup_first(s.take(0))));
        }
        let n = entries.len();
        let mut i: usize = 0;
        while i < n
            invariant
                i <= n,
                n == entries.len(),
                s == entries.deep_view(),
                kept.deep_view() =~= capped(dedup_first(s.take(i as int))),
                kept.len() <= HISTORY_CAPACITY,
                dedup_first(s.take(i as int)).no_duplicates(),
                kept.len() < HISTORY_CAPACITY ==> kept.deep_view() == dedup_first(
                    s.take(i as int),
                ),
            decreases n - i,
        {
            let ghost d0 = dedup_first(s.take(i as int));
            proof {
                assert(s.take(i + 1).drop_last() =~= s.take(i as int));
                assert(s.take(i + 1).last() == s[i as int]);
                lemma_dedup_first_no_duplicates(s.take(i + 1));
            }
            let ghost prev = kept.deep_view();
            if kept.len() < HISTORY_CAPACITY {
                let present = vec_contains(&kept, &entries[i]);
                if !present {
                    let entry = entries[i].clone();
                    assert(entry@ == s[i as int]);
                    kept.push(entry);
                    proof {
                        assert(kept.deep_view() =~= prev + seq![s[i as int]]);
                        assert(dedup_first(s.take(i + 1)) == d0 + seq![s[i as int]]);
                    }
                } else {
                    proof {
                        assert(dedup_first(s.take(i + 1)) == d0);
                    }
                }
            } else {
                proof {
                    let d1 = dedup_first(s.take(i + 1));
                    if d1 == d0 {
                    } else {
                        assert(d1 == d0 + seq![s[i as int]]);
                        assert(d1.take(HISTORY_CAPACITY as int) =~= d0.take(
                            HISTORY_CAPACITY as int,
                        ));
                    }
                }
            }
            i = i + 1;
        }
        proof {
            assert(s.take(n as int) =~= s);
        }
        self.entries = kept;
        proof {
            lemma_dedup_first_no_duplicates(s);
            lemma_capped_canonical(dedup_first(s));
        }
    }
}

/// Whether `needle`'s text equals some element of `v`.
fn vec_contains(v: &Vec<String>, needle: &String) -> (b: bool)
    ensures
        b == v.deep_view().contains(needle@),
{
    let mut i: usize = 0;
    let n = v.len();
    while i < n
        invariant
            i <= n,
            n == v.len(),
            forall|j: int| 0 <= j < i ==> v.deep_view()[j] != needle@,
        decreases n - i,
    {
        if v[i].eq(needle) {
            proof {
                assert(v.deep_view()[i as int] == needle@);
            }
            return true;
        }
        i = i + 1;
    }
    proof {
        if v.deep_view().contains(needle@) {
            let j = choose|j: int|
                0 <= j < v.deep_view().len() && v.deep_view()[j] == needle@;
        }
    }
    false
}

} // verus!
