//! Counting occurrences of text keys (protocols, destinations).
use vstd::prelude::*;

verus! {

/// The sum of the counts.
pub open spec fn counts_sum(s: Seq<(String, usize)>) -> nat
    decreases s.len(),
{
    if s.len() == 0 {
        0
    } else {
        counts_sum(s.drop_last()) + s.last().1 as nat
    }
}

/// The counts as a map from key text.
pub open spec fn counts_view(s: Seq<(String, usize)>) -> Map<Seq<char>, nat> {
    Map::new(
        |k: Seq<char>| exists|i: int| 0 <= i < s.len() && s[i].0@ == k,
        |k: Seq<char>| {
            let i = choose|i: int| 0 <= i < s.len() && s[i].0@ == k;
            s[i].1 as nat
        },
    )
}

/// No key occurs twice.
pub open spec fn keys_distinct(s: Seq<(String, usize)>) -> bool {
    forall|i: int, j: int| 0 <= i < s.len() && 0 <= j < s.len() && i != j ==> s[i].0@ != s[j].0@
}

/// The count of `k`, 0 when it was never counted.
pub open spec fn count_of(m: Map<Seq<char>, nat>, k: Seq<char>) -> nat {
    if m.contains_key(k) { m[k] } else { 0 }
}

proof fn lemma_counts_view_at(s: Seq<(String, usize)>, i: int)
    requires
        keys_distinct(s),
        0 <= i < s.len(),
    ensures
        counts_view(s).contains_key(s[i].0@),
        counts_view(s)[s[i].0@] == s[i].1,
{
    let k = s[i].0@;
    assert(exists|j: int| 0 <= j < s.len() && s[j].0@ == k);
}

proof fn lemma_counts_sum_update(s: Seq<(String, usize)>, i: int, e: (String, usize))
    requires
        0 <= i < s.len(),
    ensures
        counts_sum(s.update(i, e)) == counts_sum(s) - s[i].1 + e.1,
    decreases s.len(),
{
    if i == s.len() - 1 {
        assert(s.update(i, e).drop_last() =~= s.drop_last());
    } else {
        lemma_counts_sum_update(s.drop_last(), i, e);
        assert(s.update(i, e).drop_last() =~= s.drop_last().update(i, e));
    }
}

proof fn lemma_count_le_sum(s: Seq<(String, usize)>, i: int)
    requires
        0 <= i < s.len(),
    ensures
        s[i].1 <= counts_sum(s),
    decreases s.len(),
{
    if i < s.len() - 1 {
        lemma_count_le_sum(s.drop_last(), i);
    }
}

/// Counts per key.
pub struct Tally {
    entries: Vec<(String, usize)>,
}

impl View for Tally {
    type V = Map<Seq<char>, nat>;

    /// The count of each key that has been counted.
    closed spec fn view(&self) -> Map<Seq<char>, nat> {
        counts_view(self.entries@)
    }
}

impl Tally {
    /// No key occurs twice.
    pub closed spec fn wf(&self) -> bool {
        keys_distinct(self.entries@)
    }

    /// The sum of all counts.
    pub closed spec fn total(&self) -> nat {
        counts_sum(self.entries@)
    }

    /// Nothing counted.
    pub fn new() -> (t: Self)
        ensures
            t.wf(),
            t@ == Map::<Seq<char>, nat>::empty(),
            t.total() == 0,
    {
        let t = Tally { entries: Vec::new() };
        assert(t@ =~= Map::<Seq<char>, nat>::empty());
        t
    }

    /// Each count is at most the sum.
    pub proof fn lemma_count_le_total(&self, k: Seq<char>)
        requires
            self.wf(),
        ensures
            count_of(self@, k) <= self.total(),
    {
        if self@.contains_key(k) {
            let i = choose|i: int| 0 <= i < self.entries@.len() && self.entries@[i].0@ == k;
            lemma_counts_view_at(self.entries@, i);
            lemma_count_le_sum(self.entries@, i);
        }
    }

    fn find(&self, key: &str) -> (r: Option<usize>)
        requires
            self.wf(),
        ensures
            r matches Some(i) ==> i < self.entries@.len() && self.entries@[i as int].0@ == key@,
            r is None ==> !self@.contains_key(key@),
    {
        let wanted = String::from_str(key);
        let mut i: usize = 0;
        while i < self.entries.len()
            invariant
                i <= self.entries@.len(),
                wanted@ == key@,
                forall|j: int| 0 <= j < i ==> self.entries@[j].0@ != key@,
            decreases self.entries@.len() - i,
        {
            if self.entries[i].0 == wanted {
                return Some(i);
            }
            i = i + 1;
        }
        None
    }

    /// The count of `key` (0 when never counted).
    pub fn count(&self, key: &str) -> (c: usize)
        requires
            self.wf(),
        ensures
            c == count_of(self@, key@),
    {
        match self.find(key) {
            Some(i) => {
                proof { lemma_counts_view_at(self.entries@, i as int); }
                self.entries[i].1
            },
            None => 0,
        }
    }

    /// The largest count, and at least 1 (the scale of the bars).
    pub fn max_count(&self) -> (m: usize)
        requires
            self.wf(),
        ensures
            m >= 1,
            forall|k: Seq<char>| #[trigger] self@.contains_key(k) ==> self@[k] <= m,
            m == 1 || exists|k: Seq<char>| #[trigger] self@.contains_key(k) && self@[k] == m,
    {
        let mut m: usize = 1;
        let mut i: usize = 0;
        while i < self.entries.len()
            invariant
                i <= self.entries@.len(),
                keys_distinct(self.entries@),
                m >= 1,
                forall|j: int| 0 <= j < i ==> self.entries@[j].1 <= m,
                m == 1 || exists|j: int| 0 <= j < i && self.entries@[j].1 == m,
            decreases self.entries@.len() - i,
        {
            if self.entries[i].1 > m {
                m = self.entries[i].1;
            }
            i = i + 1;
        }
        proof {
            assert forall|k: Seq<char>| #[trigger] self@.contains_key(k) implies self@[k] <= m by {
                let j = choose|j: int| 0 <= j < self.entries@.len() && self.entries@[j].0@ == k;
                lemma_counts_view_at(self.entries@, j);
            }
            if m != 1 {
                let j = choose|j: int| 0 <= j < self.entries@.len() && self.entries@[j].1 == m;
                lemma_counts_view_at(self.entries@, j);
                assert(self@.contains_key(self.entries@[j].0@) && self@[self.entries@[j].0@] == m);
            }
        }
        m
    }

    /// Up to `n` keys with the largest counts, largest first.
    pub fn top(&self, n: usize) -> (r: Vec<(String, usize)>)
        requires
            self.wf(),
        ensures
            r@.len() <= n,
            forall|i: int| 0 <= i < r@.len() ==> #[trigger] self@.contains_key(r@[i].0@) && self@[r@[i].0@] == r@[i].1,
            forall|i: int, j: int| 0 <= i < j < r@.len() ==> r@[i].0@ != r@[j].0@ && r@[i].1 >= r@[j].1,
            forall|k: Seq<char>| #[trigger] self@.contains_key(k) && !(exists|i: int| 0 <= i < r@.len() && r@[i].0@ == k)
                ==> r@.len() == n && (n == 0 || self@[k] <= r@[n - 1].1),
    {
        let ghost s = self.entries@;
        let mut chosen: Vec<usize> = Vec::new();
        let mut round: usize = 0;
        while round < n
            invariant
                s == self.entries@,
                keys_distinct(s),
                round <= n,
                chosen@.len() == round,
                forall|a: int| 0 <= a < chosen@.len() ==> chosen@[a] < s.len(),
                forall|a: int, b: int| 0 <= a < b < chosen@.len() ==> chosen@[a] != chosen@[b] && s[chosen@[a] as int].1 >= s[chosen@[b] as int].1,
                round > 0 ==> forall|j: int| 0 <= j < s.len() && !chosen@.contains(j as usize) ==> #[trigger] s[j].1 <= s[chosen@[round - 1] as int].1,
            ensures
                chosen@.len() <= n,
                forall|a: int| 0 <= a < chosen@.len() ==> chosen@[a] < s.len(),
                forall|a: int, b: int| 0 <= a < b < chosen@.len() ==> chosen@[a] != chosen@[b] && s[chosen@[a] as int].1 >= s[chosen@[b] as int].1,
                forall|j: int| 0 <= j < s.len() && !chosen@.contains(j as usize) ==> chosen@.len() == n && (n == 0 || #[trigger] s[j].1 <= s[chosen@[n - 1] as int].1),
            decreases n - round,
        {
            let mut best: Option<usize> = None;
            let mut j: usize = 0;
            while j < self.entries.len()
                invariant
                    s == self.entries@,
                    j <= s.len(),
                    chosen@.len() == round,
                    best matches Some(b) ==> b < j && !chosen@.contains(b),
                    best is None ==> forall|x: int| 0 <= x < j ==> #[trigger] chosen@.contains(x as usize),
                    best matches Some(b) ==> forall|x: int| 0 <= x < j && !chosen@.contains(x as usize) ==> #[trigger] s[x].1 <= s[b as int].1,
                decreases s.len() - j,
            {
                let mut taken = false;
                let mut c: usize = 0;
                while c < chosen.len()
                    invariant
                        c <= chosen@.len(),
                        taken <==> (exists|a: int| 0 <= a < c && chosen@[a] == j),
                    decreases chosen@.len() - c,
                {
                    if chosen[c] == j {
                        taken = true;
                    }
                    c = c + 1;
                }
                if !taken {
                    match best {
                        None => {
                            best = Some(j);
                        },
                        Some(b) => {
                            if self.entries[j].1 > self.entries[b].1 {
                                best = Some(j);
                            }
                        },
                    }
                }
                j = j + 1;
            }
            match best {
                None => {
                    assert(forall|x: int| 0 <= x < s.len() ==> #[trigger] chosen@.contains(x as usize));
                    break;
                },
                Some(b) => {
                    let ghost before = chosen@;
                    chosen.push(b);
                    proof {
                        assert forall|x: int| 0 <= x < s.len() && !chosen@.contains(x as usize) implies #[trigger] s[x].1 <= s[chosen@[round as int] as int].1 by {
                            assert(!before.contains(x as usize)) by {
                                if before.contains(x as usize) {
                                    let a = choose|a: int| 0 <= a < before.len() && before[a] == x as usize;
                                    assert(chosen@[a] == x as usize);
                                }
                            }
                        }
                        assert forall|a: int, c: int| 0 <= a < c < chosen@.len() implies chosen@[a] != chosen@[c] && s[chosen@[a] as int].1 >= s[chosen@[c] as int].1 by {
                            if c == round {
                                assert(before[a] == chosen@[a]);
                                if chosen@[a] == b {
                                    assert(before.contains(b));
                                }
                                if round > 0 {
                                    assert(s[chosen@[a] as int].1 >= s[before[round - 1] as int].1);
                                }
                            }
                        }
                    }
                },
            }
            round = round + 1;
        }
        let mut r: Vec<(String, usize)> = Vec::new();
        let mut a: usize = 0;
        while a < chosen.len()
            invariant
                s == self.entries@,
                a <= chosen@.len(),
                r@.len() == a,
                forall|x: int| 0 <= x < chosen@.len() ==> chosen@[x] < s.len(),
                forall|x: int| 0 <= x < a ==> r@[x].0@ == s[chosen@[x] as int].0@ && r@[x].1 == s[chosen@[x] as int].1,
            decreases chosen@.len() - a,
        {
            let idx = chosen[a];
            r.push((self.entries[idx].0.clone(), self.entries[idx].1));
            a = a + 1;
        }
        let entry_count = self.entries.len();
        proof {
            assert(s.len() == entry_count);
            assert forall|i: int| 0 <= i < r@.len() implies #[trigger] self@.contains_key(r@[i].0@) && self@[r@[i].0@] == r@[i].1 by {
                lemma_counts_view_at(s, chosen@[i] as int);
            }
            assert forall|i: int, j: int| 0 <= i < j < r@.len() implies r@[i].0@ != r@[j].0@ && r@[i].1 >= r@[j].1 by {
                assert(chosen@[i] != chosen@[j]);
            }
            assert forall|k: Seq<char>| #[trigger] self@.contains_key(k) && !(exists|i: int| 0 <= i < r@.len() && r@[i].0@ == k)
                implies r@.len() == n && (n == 0 || self@[k] <= r@[n - 1].1) by {
                let j = choose|j: int| 0 <= j < s.len() && s[j].0@ == k;
                lemma_counts_view_at(s, j);
                if chosen@.contains(j as usize) {
                    let x = choose|x: int| 0 <= x < chosen@.len() && chosen@[x] == j as usize;
                    assert(r@[x].0@ == s[chosen@[x] as int].0@);
                    assert(chosen@[x] as int == j);
                    assert(r@[x].0@ == k);
                }
            }
        }
        r
    }

    /// Counts one more `key`.
    pub fn bump(&mut self, key: &str)
        requires
            old(self).wf(),
            old(self).total() < usize::MAX,
        ensures
            final(self).wf(),
            final(self)@ == old(self)@.insert(key@, count_of(old(self)@, key@) + 1),
            final(self).total() == old(self).total() + 1,
    {
        let ghost s = self.entries@;
        match self.find(key) {
            Some(i) => {
                proof {
                    lemma_counts_view_at(s, i as int);
                    lemma_count_le_sum(s, i as int);
                }
                let c = self.entries[i].1;
                let k = self.entries[i].0.clone();
                let e = (k, c + 1);
                proof { lemma_counts_sum_update(s, i as int, e); }
                self.entries.set(i, e);
                let ghost s2 = self.entries@;
                assert(s2 == s.update(i as int, e));
                assert(keys_distinct(s2));
                assert forall|k2: Seq<char>| #[trigger] counts_view(s2).contains_key(k2) == old(self)@.insert(key@, count_of(old(self)@, key@) + 1).contains_key(k2) by {
                    if counts_view(s2).contains_key(k2) {
                        let j = choose|j: int| 0 <= j < s2.len() && s2[j].0@ == k2;
                        if j != i {
                            assert(s[j].0@ == k2);
                        }
                    }
                    if counts_view(s).contains_key(k2) {
                        let j = choose|j: int| 0 <= j < s.len() && s[j].0@ == k2;
                        assert(s2[j].0@ == k2);
                    }
                }
                assert forall|k2: Seq<char>| #[trigger] counts_view(s2).contains_key(k2) implies counts_view(s2)[k2] == old(self)@.insert(key@, count_of(old(self)@, key@) + 1)[k2] by {
                    let j = choose|j: int| 0 <= j < s2.len() && s2[j].0@ == k2;
                    lemma_counts_view_at(s2, j);
                    if j != i {
                        lemma_counts_view_at(s, j);
                    }
                }
                assert(counts_view(s2) =~= old(self)@.insert(key@, count_of(old(self)@, key@) + 1));
            },
            None => {
                let e = (String::from_str(key), 1usize);
                self.entries.push(e);
                let ghost s2 = self.entries@;
                assert(s2.drop_last() =~= s);
                assert forall|j: int| 0 <= j < s.len() implies s[j].0@ != key@ by {
                    if s[j].0@ == key@ {
                        assert(counts_view(s).contains_key(key@));
                    }
                }
                assert(keys_distinct(s2));
                assert forall|k2: Seq<char>| #[trigger] counts_view(s2).contains_key(k2) == old(self)@.insert(key@, 1).contains_key(k2) by {
                    if counts_view(s2).contains_key(k2) {
                        let j = choose|j: int| 0 <= j < s2.len() && s2[j].0@ == k2;
                        if j < s.len() {
                            assert(s[j].0@ == k2);
                        }
                    }
                    if counts_view(s).contains_key(k2) {
                        let j = choose|j: int| 0 <= j < s.len() && s[j].0@ == k2;
                        assert(s2[j].0@ == k2);
                    }
                    if k2 == key@ {
                        assert(s2[s.len() as int].0@ == k2);
                    }
                }
                assert forall|k2: Seq<char>| #[trigger] counts_view(s2).contains_key(k2) implies counts_view(s2)[k2] == old(self)@.insert(key@, 1)[k2] by {
                    let j = choose|j: int| 0 <= j < s2.len() && s2[j].0@ == k2;
                    lemma_counts_view_at(s2, j);
                    if j < s.len() {
                        lemma_counts_view_at(s, j);
                    }
                }
                assert(counts_view(s2) =~= old(self)@.insert(key@, 1));
            },
        }
    }
}

} // verus!
