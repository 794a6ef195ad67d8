//! The histogram of "correctness steps": how far each run of the target got
//! through its correctness checks, counted over all runs.
use vstd::prelude::*;
use crate::text::{decimal, push_decimal};

verus! {

/// The largest correctness step that the histogram counts.
pub const MAX_CORRECTNESS_STEPS: usize = 1024;

/// The sum of all counts.
pub open spec fn sum_counts(s: Seq<usize>) -> int
    decreases s.len(),
{
    if s.len() == 0 {
        0
    } else {
        sum_counts(s.drop_last()) + s.last()
    }
}

/// The `(step, count)` pairs whose count is not zero, by increasing step.
pub open spec fn nonzero_entries(s: Seq<usize>) -> Seq<(usize, usize)>
    decreases s.len(),
{
    if s.len() == 0 {
        seq![]
    } else if s.last() > 0 {
        nonzero_entries(s.drop_last()).push(((s.len() - 1) as usize, s.last()))
    } else {
        nonzero_entries(s.drop_last())
    }
}

/// The sum of the counts in a list of `(step, count)` pairs.
pub open spec fn sum_entry_counts(e: Seq<(usize, usize)>) -> int
    decreases e.len(),
{
    if e.len() == 0 {
        0
    } else {
        sum_entry_counts(e.drop_last()) + e.last().1
    }
}

/// Counts of correctness steps `0..=MAX_CORRECTNESS_STEPS` over all runs so far.
#[derive(Debug)]
pub struct CorrectnessMetadata {
    counts: Vec<usize>,
}

impl View for CorrectnessMetadata {
    type V = Seq<usize>;

    closed spec fn view(&self) -> Seq<usize> {
        self.counts@
    }
}

proof fn lemma_sum_nonneg(s: Seq<usize>)
    ensures
        sum_counts(s) >= 0,
    decreases s.len(),
{
    if s.len() > 0 {
        lemma_sum_nonneg(s.drop_last());
    }
}

/// The sum of a prefix is no larger than the sum of the whole.
proof fn lemma_sum_prefix(s: Seq<usize>, i: int)
    requires
        0 <= i <= s.len(),
    ensures
        sum_counts(s.subrange(0, i)) <= sum_counts(s),
    decreases s.len() - i,
{
    if i < s.len() {
        lemma_sum_prefix(s, i + 1);
        assert(s.subrange(0, i + 1).drop_last() =~= s.subrange(0, i));
    } else {
        assert(s.subrange(0, i) =~= s);
    }
}

/// One count is no larger than the sum.
proof fn lemma_count_le_sum(s: Seq<usize>, i: int)
    requires
        0 <= i < s.len(),
    ensures
        s[i] <= sum_counts(s),
    decreases s.len(),
{
    lemma_sum_nonneg(s.drop_last());
    if i < s.len() - 1 {
        lemma_count_le_sum(s.drop_last(), i);
    }
}

/// Raising one count by one raises the sum by one.
proof fn lemma_sum_increment(s: Seq<usize>, i: int, v: usize)
    requires
        0 <= i < s.len(),
        v == s[i] + 1,
    ensures
        sum_counts(s.update(i, v)) == sum_counts(s) + 1,
    decreases s.len(),
{
    if i == s.len() - 1 {
        assert(s.update(i, v).drop_last() =~= s.drop_last());
    } else {
        lemma_sum_increment(s.drop_last(), i, v);
        assert(s.update(i, v).drop_last() =~= s.drop_last().update(i, v));
    }
}

proof fn lemma_sum_zeros(n: nat)
    ensures
        sum_counts(Seq::new(n, |i: int| 0usize)) == 0,
    decreases n,
{
    if n > 0 {
        lemma_sum_zeros((n - 1) as nat);
        assert(Seq::new(n, |i: int| 0usize).drop_last() =~= Seq::new((n - 1) as nat, |i: int| 0usize));
    }
}

/// The counts that the step report lists add up to the number of runs
/// counted: leaving out the zero counts loses nothing of the total.
pub proof fn lemma_reported_counts_sum_to_total(s: Seq<usize>)
    ensures
        sum_entry_counts(nonzero_entries(s)) == sum_counts(s),
    decreases s.len(),
{
    if s.len() > 0 {
        lemma_reported_counts_sum_to_total(s.drop_last());
        if s.last() > 0 {
            assert(nonzero_entries(s).drop_last() =~= nonzero_entries(s.drop_last()));
        }
    }
}

/// The step report lists exactly the steps with a nonzero count, each once,
/// with its count, by increasing step.
pub proof fn lemma_report_lists_reached_steps(s: Seq<usize>)
    requires
        s.len() <= usize::MAX,
    ensures
        forall|k: int|
            0 <= k < nonzero_entries(s).len() ==> {
                let e = #[trigger] nonzero_entries(s)[k];
                &&& 0 <= e.0 < s.len()
                &&& s[e.0 as int] == e.1
                &&& e.1 > 0
            },
        forall|j: int, k: int|
            0 <= j < k < nonzero_entries(s).len() ==> #[trigger] nonzero_entries(s)[j].0
                < #[trigger] nonzero_entries(s)[k].0,
        forall|i: int|
            0 <= i < s.len() && s[i] > 0 ==> exists|k: int|
                0 <= k < nonzero_entries(s).len() && #[trigger] nonzero_entries(s)[k].0 == i,
    decreases s.len(),
{
    if s.len() > 0 {
        let p = s.drop_last();
        lemma_report_lists_reached_steps(p);
        let ep = nonzero_entries(p);
        let e = nonzero_entries(s);
        assert forall|k: int| 0 <= k < ep.len() implies (#[trigger] ep[k]).0 < s.len() - 1 by {
            assert(ep[k].0 < p.len());
        }
        if s.last() > 0 {
            assert(e == ep.push(((s.len() - 1) as usize, s.last())));
            assert forall|i: int| 0 <= i < s.len() && s[i] > 0 implies exists|k: int|
                0 <= k < e.len() && #[trigger] e[k].0 == i by {
                if i == s.len() - 1 {
                    assert(e[ep.len() as int].0 == i);
                } else {
                    assert(p[i] == s[i]);
                    let k = choose|k: int| 0 <= k < ep.len() && #[trigger] ep[k].0 == i;
                    assert(e[k] == ep[k]);
                }
            }
        } else {
            assert forall|i: int| 0 <= i < s.len() && s[i] > 0 implies exists|k: int|
                0 <= k < e.len() && #[trigger] e[k].0 == i by {
                assert(p[i] == s[i]);
            }
        }
    }
}

proof fn lemma_no_entries_for_zeros(n: nat)
    ensures
        nonzero_entries(Seq::new(n, |i: int| 0usize)) == Seq::<(usize, usize)>::empty(),
    decreases n,
{
    if n > 0 {
        lemma_no_entries_for_zeros((n - 1) as nat);
        assert(Seq::new(n, |i: int| 0usize).drop_last() =~= Seq::new((n - 1) as nat, |i: int| 0usize));
    }
}

impl CorrectnessMetadata {
    /// The counts of a histogram, as it stores them, are always accepted back
    /// by `from_counts`: one count per step, with a total that fits.
    pub proof fn lemma_counts_are_accepted(&self)
        requires
            self.wf(),
        ensures
            self@.len() == MAX_CORRECTNESS_STEPS + 1,
            sum_counts(self@) <= usize::MAX,
    {
    }

    /// One count per step `0..=MAX_CORRECTNESS_STEPS`, and the total fits in a `usize`.
    pub closed spec fn wf(&self) -> bool {
        &&& self.counts@.len() == MAX_CORRECTNESS_STEPS + 1
        &&& sum_counts(self.counts@) <= usize::MAX
    }

    /// A histogram with every count at zero.
    pub fn new() -> (r: Self)
        ensures
            r.wf(),
            r@ == Seq::new((MAX_CORRECTNESS_STEPS + 1) as nat, |i: int| 0usize),
            sum_counts(r@) == 0,
            nonzero_entries(r@) == Seq::<(usize, usize)>::empty(),
    {
        let mut counts: Vec<usize> = Vec::new();
        let mut i: usize = 0;
        while i < MAX_CORRECTNESS_STEPS + 1
            invariant
                i <= MAX_CORRECTNESS_STEPS + 1,
                counts@ == Seq::new(i as nat, |j: int| 0usize),
            decreases MAX_CORRECTNESS_STEPS + 1 - i,
        {
            counts.push(0);
            assert(counts@ =~= Seq::new((i + 1) as nat, |j: int| 0usize));
            i = i + 1;
        }
        proof {
            lemma_sum_zeros((MAX_CORRECTNESS_STEPS + 1) as nat);
            lemma_no_entries_for_zeros((MAX_CORRECTNESS_STEPS + 1) as nat);
        }
        CorrectnessMetadata { counts }
    }

    /// Counts one more run that reached `step`.
    pub fn record_step(&mut self, step: usize)
        requires
            old(self).wf(),
            step <= MAX_CORRECTNESS_STEPS,
            sum_counts(old(self)@) < usize::MAX,
        ensures
            final(self).wf(),
            final(self)@ == old(self)@.update(step as int, (old(self)@[step as int] + 1) as usize),
            sum_counts(final(self)@) == sum_counts(old(self)@) + 1,
    {
        proof {
            lemma_count_le_sum(self.counts@, step as int);
        }
        let c = self.counts[step];
        proof {
            lemma_sum_increment(old(self)@, step as int, (c + 1) as usize);
        }
        self.counts.set(step, c + 1);
    }

    /// The counts, by step.
    pub fn counts(&self) -> (r: &Vec<usize>)
        ensures
            r@ == self@,
    {
        &self.counts
    }

    /// A histogram with the given counts, when there is one count per step
    /// `0..=MAX_CORRECTNESS_STEPS` and their sum fits in a `usize`.
    pub fn from_counts(counts: Vec<usize>) -> (r: Option<Self>)
        ensures
            r is Some <==> (counts@.len() == MAX_CORRECTNESS_STEPS + 1 && sum_counts(counts@) <= usize::MAX),
            r matches Some(m) ==> m.wf() && m@ == counts@,
    {
        if counts.len() != MAX_CORRECTNESS_STEPS + 1 {
            return None;
        }
        let n = counts.len();
        let mut total: usize = 0;
        let mut i: usize = 0;
        while i < n
            invariant
                i <= n,
                n == counts@.len(),
                total == sum_counts(counts@.subrange(0, i as int)),
            decreases n - i,
        {
            proof {
                assert(counts@.subrange(0, i + 1).drop_last() =~= counts@.subrange(0, i as int));
            }
            match total.checked_add(counts[i]) {
                Some(t) => {
                    total = t;
                },
                None => {
                    proof {
                        lemma_sum_prefix(counts@, i + 1);
                    }
                    return None;
                },
            }
            i = i + 1;
        }
        assert(counts@.subrange(0, n as int) =~= counts@);
        Some(CorrectnessMetadata { counts })
    }

    /// The number of runs counted so far: the sum of all counts.
    pub fn total_hits(&self) -> (r: usize)
        requires
            self.wf(),
        ensures
            r == sum_counts(self@),
    {
        let n = self.counts.len();
        let mut total: usize = 0;
        let mut i: usize = 0;
        while i < n
            invariant
                i <= n,
                n == self.counts@.len(),
                sum_counts(self.counts@) <= usize::MAX,
                total == sum_counts(self.counts@.subrange(0, i as int)),
            decreases n - i,
        {
            proof {
                assert(self.counts@.subrange(0, i + 1).drop_last() =~= self.counts@.subrange(0, i as int));
                lemma_sum_prefix(self.counts@, i + 1);
            }
            total = total + self.counts[i];
            i = i + 1;
        }
        assert(self.counts@.subrange(0, n as int) =~= self.counts@);
        total
    }

    /// The count of `step`.
    pub fn count(&self, step: usize) -> (r: usize)
        requires
            self.wf(),
            step <= MAX_CORRECTNESS_STEPS,
        ensures
            r == self@[step as int],
    {
        self.counts[step]
    }

    /// The steps that some run reached, with their counts, by increasing step.
    pub fn nonzero_counts(&self) -> (r: Vec<(usize, usize)>)
        ensures
            r@ == nonzero_entries(self@),
    {
        let n = self.counts.len();
        let mut r: Vec<(usize, usize)> = Vec::new();
        let mut i: usize = 0;
        while i < n
            invariant
                i <= n,
                n == self.counts@.len(),
                r@ == nonzero_entries(self.counts@.subrange(0, i as int)),
            decreases n - i,
        {
            let ghost pre = self.counts@.subrange(0, i + 1);
            assert(pre.drop_last() =~= self.counts@.subrange(0, i as int));
            let c = self.counts[i];
            if c > 0 {
                r.push((i, c));
            }
            i = i + 1;
        }
        assert(self.counts@.subrange(0, n as int) =~= self.counts@);
        r
    }
}


/// The texts of `parts` with `sep` between each two of them (`join`).
pub open spec fn join_texts(parts: Seq<Seq<char>>, sep: Seq<char>) -> Seq<char>
    decreases parts.len(),
{
    if parts.len() == 0 {
        seq![]
    } else if parts.len() == 1 {
        parts[0]
    } else {
        join_texts(parts.drop_last(), sep) + sep + parts.last()
    }
}

/// One entry of the step report: the step, a colon and a space, and the
/// share of the runs that reached it, as the caller wrote it.
pub open spec fn stats_entry_text(step: usize, share: Seq<char>) -> Seq<char> {
    decimal(step as nat) + ": "@ + share
}

/// The step report: its entries, separated by a comma and a space.
pub open spec fn stats_text(entries: Seq<(usize, usize)>, shares: Seq<Seq<char>>) -> Seq<char> {
    join_texts(
        Seq::new(entries.len(), |k: int| stats_entry_text(entries[k].0, shares[k])),
        ", "@,
    )
}

/// The step report has one entry per listed step, in order: with no entry it
/// is empty, with one it is that entry's text, and each further entry adds a
/// comma, a space and its text to the report of the entries before it.
pub proof fn lemma_stats_text_lists_every_entry(entries: Seq<(usize, usize)>, shares: Seq<Seq<char>>)
    requires
        entries.len() == shares.len(),
    ensures
        entries.len() == 0 ==> stats_text(entries, shares) == Seq::<char>::empty(),
        entries.len() == 1 ==> stats_text(entries, shares) == decimal(entries[0].0 as nat) + ": "@
            + shares[0],
        entries.len() >= 2 ==> stats_text(entries, shares) == stats_text(
            entries.drop_last(),
            shares.drop_last(),
        ) + ", "@ + decimal(entries.last().0 as nat) + ": "@ + shares.last(),
{
    let parts = Seq::new(entries.len(), |k: int| stats_entry_text(entries[k].0, shares[k]));
    if entries.len() >= 2 {
        let e = entries.drop_last();
        let sh = shares.drop_last();
        assert(parts.drop_last() =~= Seq::new(e.len(), |k: int| stats_entry_text(e[k].0, sh[k])));
        assert(parts.last() == stats_entry_text(entries.last().0, shares.last()));
        assert(stats_text(entries, shares) =~= stats_text(e, sh) + ", "@ + (decimal(entries.last().0 as nat)
            + ": "@ + shares.last()));
    }
}

/// Writes the step report shown to the user: for each listed step, its number
/// and the text of its share of all runs (the caller formats the share).
pub fn stats_line(entries: &Vec<(usize, usize)>, shares: &Vec<String>) -> (r: String)
    requires
        entries.len() == shares.len(),
    ensures
        r@ == stats_text(entries@, shares@.map_values(|t: String| t@)),
{
    let ghost sh = shares@.map_values(|t: String| t@);
    let ghost parts = Seq::new(entries@.len(), |k: int| stats_entry_text(entries@[k].0, sh[k]));
    let n = entries.len();
    let mut r = String::new();
    let mut i: usize = 0;
    proof {
        reveal_strlit(": ");
        reveal_strlit(", ");
    }
    assert(parts.take(0) =~= Seq::<Seq<char>>::empty());
    while i < n
        invariant
            i <= n,
            n == entries@.len(),
            n == shares@.len(),
            sh == shares@.map_values(|t: String| t@),
            parts == Seq::new(entries@.len(), |k: int| stats_entry_text(entries@[k].0, sh[k])),
            r@ == join_texts(parts.take(i as int), ", "@),
        decreases n - i,
    {
        let ghost before = r@;
        if i > 0 {
            r.append(", ");
        }
        push_decimal(&mut r, entries[i].0 as u64);
        r.append(": ");
        r.append(shares[i].as_str());
        proof {
            assert(parts.take(i + 1).drop_last() =~= parts.take(i as int));
            assert(parts[i as int] == stats_entry_text(entries@[i as int].0, shares@[i as int]@));
            if i == 0 {
                assert(r@ =~= parts[0]);
            } else {
                assert(r@ =~= before + ", "@ + parts[i as int]);
            }
        }
        i = i + 1;
    }
    assert(parts.take(n as int) =~= parts);
    r
}

} // verus!
