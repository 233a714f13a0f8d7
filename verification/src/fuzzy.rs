use vstd::prelude::*;
use crate::cache::titles_view;

verus! {

/// The string as the trigram window sees it: two spaces in front, one behind,
/// so that even an empty word yields a trigram.
pub open spec fn padded(s: Seq<char>) -> Seq<char> {
    seq![' ', ' '] + s + seq![' ']
}

/// The trigram starting at offset `i` of the padded string; `s` has the
/// trigrams `0 ..= s.len()`.
pub open spec fn trigram(s: Seq<char>, i: int) -> (char, char, char) {
    (padded(s)[i], padded(s)[i + 1], padded(s)[i + 2])
}

/// Whether `t` occurs among `b`'s trigrams.
pub open spec fn has_trigram(b: Seq<char>, t: (char, char, char)) -> bool {
    exists|j: int| 0 <= j <= b.len() && #[trigger] trigram(b, j) == t
}

/// How many of `a`'s first `i` trigrams occur somewhere in `b`.
pub open spec fn match_count_upto(a: Seq<char>, b: Seq<char>, i: int) -> int
    decreases i,
{
    if i <= 0 {
        0
    } else {
        match_count_upto(a, b, i - 1) + if has_trigram(b, trigram(a, i - 1)) {
            1int
        } else {
            0int
        }
    }
}

/// How many of `a`'s trigrams occur in `b`: the numerator of the similarity
/// score, whose denominator is `a.len() + 1`, the number of `a`'s trigrams.
pub open spec fn match_count(a: Seq<char>, b: Seq<char>) -> int {
    match_count_upto(a, b, a.len() as int + 1)
}

/// Whether `b`'s similarity to `a` strictly exceeds the fixed acceptance
/// threshold of one half.
pub open spec fn clears_threshold(a: Seq<char>, b: Seq<char>) -> bool {
    2 * match_count(a, b) > a.len() + 1
}

/// The index of the first highest-scoring title among `ts[0 .. i]`.
pub open spec fn best_idx(q: Seq<char>, ts: Seq<Seq<char>>, i: int) -> int
    decreases i,
{
    if i <= 1 {
        0
    } else {
        let b = best_idx(q, ts, i - 1);
        if match_count(q, ts[i - 1]) > match_count(q, ts[b]) {
            i - 1
        } else {
            b
        }
    }
}

/// The fuzzy resolver's verdict on candidate `q` over the titles `ts`: the
/// first highest-scoring title, and only if its score strictly exceeds the
/// acceptance threshold; `None` is the documented no-plausible-match outcome.
pub open spec fn fuzzy_best(q: Seq<char>, ts: Seq<Seq<char>>) -> Option<Seq<char>> {
    if ts.len() == 0 {
        None
    } else {
        let b = best_idx(q, ts, ts.len() as int);
        if clears_threshold(q, ts[b]) {
            Some(ts[b])
        } else {
            None
        }
    }
}

proof fn lemma_padded_index(s: Seq<char>)
    ensures
        padded(s).len() == s.len() + 3,
        padded(s)[0] == ' ',
        padded(s)[1] == ' ',
        forall|i: int| 2 <= i < s.len() + 2 ==> #[trigger] padded(s)[i] == s[i - 2],
        padded(s)[s.len() as int + 2] == ' ',
{
}

/// The characters of a string, for index-based scanning.
pub fn str_chars(s: &str) -> (v: Vec<char>)
    ensures
        v@ == s@,
{
    let n = s.unicode_len();
    let mut v: Vec<char> = Vec::new();
    let mut i: usize = 0;
    while i < n
        invariant
            0 <= i <= n,
            n == s@.len(),
            v@ == s@.take(i as int),
        decreases n - i,
    {
        let c = s.get_char(i);
        v.push(c);
        assert(v@ =~= s@.take(i + 1));
        i = i + 1;
    }
    assert(s@.take(n as int) =~= s@);
    v
}

/// Whether the trigram `(t0, t1, t2)` occurs in `b`.
fn has_tri(b: &Vec<char>, t0: char, t1: char, t2: char) -> (r: bool)
    ensures
        r == has_trigram(b@, (t0, t1, t2)),
{
    proof {
        lemma_padded_index(b@);
    }
    let n = b.len();
    let mut w0: char = ' ';
    let mut w1: char = ' ';
    let mut w2: char = if n > 0 {
        b[0]
    } else {
        ' '
    };
    let mut j: usize = 0;
    loop
        invariant
            0 <= j <= n,
            n == b@.len(),
            w0 == padded(b@)[j as int],
            w1 == padded(b@)[j + 1],
            w2 == padded(b@)[j + 2],
            forall|k: int| 0 <= k < j ==> #[trigger] trigram(b@, k) != (t0, t1, t2),
        decreases n - j,
    {
        if w0 == t0 && w1 == t1 && w2 == t2 {
            assert(trigram(b@, j as int) == (t0, t1, t2));
            return true;
        }
        if j == n {
            assert forall|k: int| 0 <= k <= b@.len() implies #[trigger] trigram(b@, k) != (
            t0,
            t1,
            t2,
            ) by {}
            return false;
        }
        w0 = w1;
        w1 = w2;
        w2 = if j + 1 < n {
            b[j + 1]
        } else {
            ' '
        };
        j = j + 1;
    }
}

/// The similarity numerator: how many of `a`'s trigrams occur in `b`.
fn count_matches(a: &Vec<char>, b: &Vec<char>) -> (c: u128)
    ensures
        c == match_count(a@, b@),
        c <= a@.len() + 1,
{
    proof {
        lemma_padded_index(a@);
    }
    let n = a.len();
    let mut w0: char = ' ';
    let mut w1: char = ' ';
    let mut w2: char = if n > 0 {
        a[0]
    } else {
        ' '
    };
    let mut count: u128 = 0;
    let mut i: usize = 0;
    loop
        invariant
            0 <= i <= n,
            n == a@.len(),
            w0 == padded(a@)[i as int],
            w1 == padded(a@)[i + 1],
            w2 == padded(a@)[i + 2],
            count == match_count_upto(a@, b@, i as int),
            count <= i,
        decreases n - i,
    {
        if has_tri(b, w0, w1, w2) {
            assert(has_trigram(b@, trigram(a@, i as int)));
            count = count + 1;
        } else {
            assert(!has_trigram(b@, trigram(a@, i as int)));
        }
        assert(count == match_count_upto(a@, b@, i + 1));
        if i == n {
            return count;
        }
        w0 = w1;
        w1 = w2;
        w2 = if i + 1 < n {
            a[i + 1]
        } else {
            ' '
        };
        i = i + 1;
    }
}

/// The exact similarity of `b` to `a`, as the numerator of a score over the
/// denominator `a.len() + 1`.
pub fn trigram_matches(a: &str, b: &str) -> (c: u128)
    ensures
        c == match_count(a@, b@),
        c <= a@.len() + 1,
{
    let av = str_chars(a);
    let bv = str_chars(b);
    count_matches(&av, &bv)
}

/// The fuzzy resolver: scores every title of `tenant_titles` against
/// `candidate` and returns the first highest scorer, if it strictly clears
/// the one-half acceptance threshold.
pub fn best_match(candidate: &str, tenant_titles: &Vec<String>) -> (r: Option<String>)
    ensures
        match r {
            Some(m) => fuzzy_best(candidate@, titles_view(tenant_titles@)) == Some(m@),
            None => fuzzy_best(candidate@, titles_view(tenant_titles@)) is None,
        },
{
    let ghost ts = titles_view(tenant_titles@);
    let q = str_chars(candidate);
    let n = tenant_titles.len();
    if n == 0 {
        return None;
    }
    let first = str_chars(tenant_titles[0].as_str());
    let mut best_i: usize = 0;
    let mut best_c: u128 = count_matches(&q, &first);
    assert(ts[0] == tenant_titles@[0]@);
    let mut i: usize = 1;
    while i < n
        invariant
            1 <= i <= n,
            n == tenant_titles@.len(),
            ts == titles_view(tenant_titles@),
            q@ == candidate@,
            0 <= best_i < i,
            best_i == best_idx(q@, ts, i as int),
            best_c == match_count(q@, ts[best_i as int]),
            best_c <= q@.len() + 1,
        decreases n - i,
    {
        let ti = str_chars(tenant_titles[i].as_str());
        let c = count_matches(&q, &ti);
        assert(ts[i as int] == tenant_titles@[i as int]@);
        if c > best_c {
            best_i = i;
            best_c = c;
        }
        assert(best_i == best_idx(q@, ts, i + 1));
        i = i + 1;
    }
    if 2 * best_c > (q.len() as u128) + 1 {
        let m = tenant_titles[best_i].clone();
        assert(clears_threshold(q@, ts[best_i as int]));
        Some(m)
    } else {
        assert(!clears_threshold(q@, ts[best_i as int]));
        None
    }
}

/// No score exceeds the maximum: at most one match per trigram of `a`.
pub proof fn lemma_match_count_le(a: Seq<char>, b: Seq<char>, i: int)
    requires
        i >= 0,
    ensures
        0 <= match_count_upto(a, b, i) <= i,
        0 <= match_count(a, b) <= a.len() + 1,
    decreases i,
{
    if i > 0 {
        lemma_match_count_le(a, b, i - 1);
    }
    lemma_match_count_le_all(a, b, a.len() as int + 1);
}

proof fn lemma_match_count_le_all(a: Seq<char>, b: Seq<char>, i: int)
    requires
        i >= 0,
    ensures
        0 <= match_count_upto(a, b, i) <= i,
    decreases i,
{
    if i > 0 {
        lemma_match_count_le_all(a, b, i - 1);
    }
}

/// A string holds every one of its own trigrams, so its score against itself
/// is the maximum possible value: the whole denominator `a.len() + 1`.
pub proof fn lemma_exact_match_max(q: Seq<char>)
    ensures
        match_count(q, q) == q.len() + 1,
{
    lemma_self_upto(q, q.len() as int + 1);
}

proof fn lemma_self_upto(q: Seq<char>, i: int)
    requires
        0 <= i <= q.len() + 1,
    ensures
        match_count_upto(q, q, i) == i,
    decreases i,
{
    if i > 0 {
        lemma_self_upto(q, i - 1);
        assert(trigram(q, i - 1) == trigram(q, i - 1));
        assert(has_trigram(q, trigram(q, i - 1)));
    }
}

/// The chosen index points at the first highest-scoring title: nothing
/// scores above it, and everything before it scores strictly below it.
pub proof fn lemma_best_idx_props(q: Seq<char>, ts: Seq<Seq<char>>, i: int)
    requires
        1 <= i <= ts.len(),
    ensures
        0 <= best_idx(q, ts, i) < i,
        forall|j: int|
            0 <= j < i ==> match_count(q, #[trigger] ts[j]) <= match_count(
                q,
                ts[best_idx(q, ts, i)],
            ),
        forall|j: int|
            0 <= j < best_idx(q, ts, i) ==> match_count(q, #[trigger] ts[j]) < match_count(
                q,
                ts[best_idx(q, ts, i)],
            ),
    decreases i,
{
    if i > 1 {
        lemma_best_idx_props(q, ts, i - 1);
    }
}

/// Fuzzy threshold, the no-match half: the resolver reports no match exactly
/// when every candidate's score is at most one half of the maximum.
pub proof fn lemma_fuzzy_threshold(q: Seq<char>, ts: Seq<Seq<char>>)
    ensures
        fuzzy_best(q, ts) is None <==> (forall|j: int|
            0 <= j < ts.len() ==> !clears_threshold(q, #[trigger] ts[j])),
{
    if ts.len() > 0 {
        let b = best_idx(q, ts, ts.len() as int);
        lemma_best_idx_props(q, ts, ts.len() as int);
        if clears_threshold(q, ts[b]) {
            assert(exists|j: int| 0 <= j < ts.len() && clears_threshold(q, #[trigger] ts[j]));
        } else {
            assert forall|j: int| 0 <= j < ts.len() implies !clears_threshold(
                q,
                #[trigger] ts[j],
            ) by {
                assert(match_count(q, ts[j]) <= match_count(q, ts[b]));
            }
        }
    }
}

/// Fuzzy threshold, the exact-match half: a candidate that occurs verbatim
/// among the titles scores the maximum, which always clears the threshold,
/// so the resolver returns a title of that maximal score.
pub proof fn lemma_exact_candidate_selected(q: Seq<char>, ts: Seq<Seq<char>>, i: int)
    requires
        0 <= i < ts.len(),
        ts[i] == q,
    ensures
        fuzzy_best(q, ts) is Some,
        match_count(q, fuzzy_best(q, ts)->0) == q.len() + 1,
{
    let b = best_idx(q, ts, ts.len() as int);
    lemma_best_idx_props(q, ts, ts.len() as int);
    lemma_exact_match_max(q);
    assert(match_count(q, ts[i]) == q.len() + 1);
    lemma_match_count_le(q, ts[b], q.len() as int + 1);
    assert(match_count(q, ts[b]) == q.len() + 1);
    assert(clears_threshold(q, ts[b]));
}

} // verus!
