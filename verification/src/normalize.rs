use vstd::prelude::*;

verus! {

/// ASCII lowercase of one character; any other character passes unchanged.
pub open spec fn to_lower_char(c: char) -> char {
    if 'A' <= c && c <= 'Z' {
        ((c as u32 + 32) as char)
    } else {
        c
    }
}

/// ASCII uppercase of one character; any other character passes unchanged.
pub open spec fn to_upper_char(c: char) -> char {
    if 'a' <= c && c <= 'z' {
        ((c as u32 - 32) as char)
    } else {
        c
    }
}

/// The canonical form of a stored title: every character lowercased,
/// then the first character uppercased.
pub open spec fn norm_title(s: Seq<char>) -> Seq<char> {
    if s.len() == 0 {
        s
    } else {
        seq![to_upper_char(to_lower_char(s[0]))] + s.subrange(1, s.len() as int).map_values(
            |c: char| to_lower_char(c),
        )
    }
}

pub fn lower_char(c: char) -> (r: char)
    ensures
        r == to_lower_char(c),
{
    let u = c as u32;
    if 65 <= u && u <= 90 {
        ((u + 32) as u8) as char
    } else {
        c
    }
}

pub fn upper_char(c: char) -> (r: char)
    ensures
        r == to_upper_char(c),
{
    let u = c as u32;
    if 97 <= u && u <= 122 {
        ((u - 32) as u8) as char
    } else {
        c
    }
}

/// Relies on String::push: appends the given character to the end of the string.
#[verifier::external_body]
pub fn push_char(s: &mut String, c: char)
    ensures
        final(s)@ == old(s)@.push(c),
{
    s.push(c);
}

/// Normalizes a display title: lowercase everything, then capitalize the
/// first character. Applied identically before every store write and lookup.
pub fn normalize_title(raw: &str) -> (r: String)
    ensures
        r@ == norm_title(raw@),
{
    let n = raw.unicode_len();
    let mut out = String::new();
    if n == 0 {
        assert(raw@ =~= norm_title(raw@));
        assert(out@ =~= raw@);
        return out;
    }
    let first = upper_char(lower_char(raw.get_char(0)));
    push_char(&mut out, first);
    let mut i: usize = 1;
    while i < n
        invariant
            1 <= i <= n,
            n == raw@.len(),
            out@.len() == i,
            out@[0] == to_upper_char(to_lower_char(raw@[0])),
            forall|j: int| 1 <= j < i ==> out@[j] == to_lower_char(raw@[j]),
        decreases n - i,
    {
        let c = lower_char(raw.get_char(i));
        push_char(&mut out, c);
        i = i + 1;
    }
    assert(out@ =~= norm_title(raw@));
    out
}

/// Lowercasing then uppercasing then lowercasing a character lowercases it once.
proof fn lemma_char_case_stable(c: char)
    ensures
        to_lower_char(to_upper_char(to_lower_char(c))) == to_lower_char(c),
        to_upper_char(to_lower_char(to_upper_char(to_lower_char(c)))) == to_upper_char(
            to_lower_char(c),
        ),
{
}

/// ASCII whitespace, as trimming sees it.
pub open spec fn is_space(c: char) -> bool {
    c == ' ' || c == '\t' || c == '\n' || c == '\r'
}

/// The index of the first occurrence of `sep`, or the length if none occurs.
pub open spec fn sep_index(s: Seq<char>, sep: char) -> int
    decreases s.len(),
{
    if s.len() == 0 {
        0
    } else if s[0] == sep {
        0
    } else {
        1 + sep_index(s.drop_first(), sep)
    }
}

/// How many whitespace characters `s` starts with.
pub open spec fn leading_spaces(s: Seq<char>) -> int
    decreases s.len(),
{
    if s.len() == 0 {
        0
    } else if !is_space(s[0]) {
        0
    } else {
        1 + leading_spaces(s.drop_first())
    }
}

/// How many whitespace characters `s` ends with.
pub open spec fn trailing_spaces(s: Seq<char>) -> int
    decreases s.len(),
{
    if s.len() == 0 {
        0
    } else if !is_space(s.last()) {
        0
    } else {
        1 + trailing_spaces(s.drop_last())
    }
}

/// `s` with its surrounding whitespace removed.
pub open spec fn trim_seq(s: Seq<char>) -> Seq<char> {
    let kept = s.take(s.len() - trailing_spaces(s));
    kept.skip(leading_spaces(kept))
}

/// The store lookup key that raw command input yields: the segment before
/// the first separator, trimmed, then title-normalized.
pub open spec fn lookup_key_spec(s: Seq<char>, sep: char) -> Seq<char> {
    norm_title(trim_seq(s.take(sep_index(s, sep))))
}

proof fn lemma_sep_index_eq(s: Seq<char>, sep: char, i: int)
    requires
        0 <= i <= s.len(),
        forall|j: int| 0 <= j < i ==> s[j] != sep,
        i < s.len() ==> s[i] == sep,
    ensures
        sep_index(s, sep) == i,
    decreases s.len(),
{
    if s.len() > 0 && s[0] != sep {
        let d = s.drop_first();
        assert forall|j: int| 0 <= j < i - 1 implies d[j] != sep by {
            assert(d[j] == s[j + 1]);
        }
        lemma_sep_index_eq(d, sep, i - 1);
    }
}

proof fn lemma_leading_eq(s: Seq<char>, i: int)
    requires
        0 <= i <= s.len(),
        forall|j: int| 0 <= j < i ==> is_space(s[j]),
        i < s.len() ==> !is_space(s[i]),
    ensures
        leading_spaces(s) == i,
    decreases s.len(),
{
    if s.len() > 0 && is_space(s[0]) {
        let d = s.drop_first();
        assert forall|j: int| 0 <= j < i - 1 implies is_space(d[j]) by {
            assert(d[j] == s[j + 1]);
        }
        lemma_leading_eq(d, i - 1);
    }
}

proof fn lemma_trailing_eq(s: Seq<char>, i: int)
    requires
        0 <= i <= s.len(),
        forall|j: int| s.len() - i <= j < s.len() ==> is_space(s[j]),
        i < s.len() ==> !is_space(s[s.len() - i - 1]),
    ensures
        trailing_spaces(s) == i,
    decreases s.len(),
{
    if s.len() > 0 && is_space(s.last()) {
        let d = s.drop_last();
        assert forall|j: int| d.len() - (i - 1) <= j < d.len() implies is_space(d[j]) by {
            assert(d[j] == s[j]);
        }
        lemma_trailing_eq(d, i - 1);
    }
}

pub fn is_space_char(c: char) -> (r: bool)
    ensures
        r == is_space(c),
{
    c == ' ' || c == '\t' || c == '\n' || c == '\r'
}

/// Turns raw command input into the store lookup key: only the segment
/// before the first separator counts, surrounding whitespace is dropped,
/// and the rest is title-normalized, so lookups are case-insensitive.
pub fn lookup_key(raw: &str, sep: char) -> (r: String)
    ensures
        r@ == lookup_key_spec(raw@, sep),
{
    let n = raw.unicode_len();
    let mut k: usize = 0;
    loop
        invariant
            0 <= k <= n,
            n == raw@.len(),
            forall|j: int| 0 <= j < k ==> raw@[j] != sep,
        ensures
            0 <= k <= n,
            forall|j: int| 0 <= j < k ==> raw@[j] != sep,
            k == n || raw@[k as int] == sep,
        decreases n - k,
    {
        if k == n {
            break ;
        }
        if raw.get_char(k) == sep {
            break ;
        }
        k = k + 1;
    }
    proof {
        lemma_sep_index_eq(raw@, sep, k as int);
    }
    let ghost seg = raw@.take(k as int);
    let mut e: usize = k;
    loop
        invariant
            0 <= e <= k <= n,
            n == raw@.len(),
            forall|j: int| e <= j < k ==> is_space(raw@[j]),
        ensures
            0 <= e <= k,
            forall|j: int| e <= j < k ==> is_space(raw@[j]),
            e == 0 || !is_space(raw@[e - 1]),
        decreases e,
    {
        if e == 0 {
            break ;
        }
        if !is_space_char(raw.get_char(e - 1)) {
            break ;
        }
        e = e - 1;
    }
    proof {
        assert forall|j: int| seg.len() - (k - e) <= j < seg.len() implies is_space(seg[j]) by {
            assert(seg[j] == raw@[j]);
        }
        if k - e < k {
            assert(seg[e - 1] == raw@[e - 1]);
        }
        lemma_trailing_eq(seg, k - e);
    }
    let ghost kept = seg.take(e as int);
    let mut st: usize = 0;
    loop
        invariant
            0 <= st <= e <= n,
            n == raw@.len(),
            forall|j: int| 0 <= j < st ==> is_space(raw@[j]),
        ensures
            0 <= st <= e,
            forall|j: int| 0 <= j < st ==> is_space(raw@[j]),
            st == e || !is_space(raw@[st as int]),
        decreases e - st,
    {
        if st == e {
            break ;
        }
        if !is_space_char(raw.get_char(st)) {
            break ;
        }
        st = st + 1;
    }
    proof {
        assert forall|j: int| 0 <= j < st implies is_space(kept[j]) by {
            assert(kept[j] == raw@[j]);
        }
        if st < e {
            assert(kept[st as int] == raw@[st as int]);
        }
        lemma_leading_eq(kept, st as int);
        assert(trim_seq(seg) =~= raw@.subrange(st as int, e as int));
    }
    let sub = raw.substring_char(st, e);
    let out = normalize_title(sub);
    out
}

/// Normalizing a title twice yields the same result as normalizing it once.
pub proof fn lemma_norm_title_idempotent(s: Seq<char>)
    ensures
        norm_title(norm_title(s)) == norm_title(s),
{
    if s.len() > 0 {
        let t = norm_title(s);
        assert(t.len() == s.len());
        lemma_char_case_stable(s[0]);
        assert forall|j: int| 1 <= j < t.len() implies to_lower_char(t[j]) == t[j] by {
            assert(t[j] == to_lower_char(s[j]));
            lemma_char_case_stable(s[j]);
        }
        assert(norm_title(t) =~= t);
    }
}

} // verus!
