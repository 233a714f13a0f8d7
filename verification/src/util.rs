use vstd::prelude::*;
use crate::normalize::push_char;

verus! {

/// What one character contributes to the escaped text: markdown formatting
/// characters get a backslash in front, the mention sigil gets a zero-width
/// space behind, and everything else passes unchanged.
pub open spec fn escape_char(c: char) -> Seq<char> {
    if c == '_' || c == '*' || c == '~' {
        seq!['\\', c]
    } else if c == '@' {
        seq![c, '\u{200b}']
    } else {
        seq![c]
    }
}

/// The text with every character escaped.
pub open spec fn escaped(s: Seq<char>) -> Seq<char>
    decreases s.len(),
{
    if s.len() == 0 {
        Seq::<char>::empty()
    } else {
        escape_char(s[0]) + escaped(s.drop_first())
    }
}

/// Defuses markdown formatting and mentions in user-supplied text before it
/// is echoed back verbatim.
pub fn escape_formatting(unformatted_string: String) -> (r: String)
    ensures
        r@ == escaped(unformatted_string@),
{
    let s = unformatted_string.as_str();
    let n = s.unicode_len();
    let mut out = String::new();
    let mut i: usize = 0;
    assert(s@.skip(0) =~= s@);
    while i < n
        invariant
            0 <= i <= n,
            n == s@.len(),
            s@ == unformatted_string@,
            out@ + escaped(s@.skip(i as int)) == escaped(s@),
        decreases n - i,
    {
        let c = s.get_char(i);
        assert(s@.skip(i as int)[0] == s@[i as int]);
        assert(s@.skip(i as int).drop_first() =~= s@.skip(i + 1));
        let ghost pre = out@;
        if c == '_' || c == '*' || c == '~' {
            push_char(&mut out, '\\');
            push_char(&mut out, c);
        } else if c == '@' {
            push_char(&mut out, c);
            push_char(&mut out, '\u{200b}');
        } else {
            push_char(&mut out, c);
        }
        assert(out@ =~= pre + escape_char(s@[i as int]));
        assert((pre + escape_char(s@[i as int])) + escaped(s@.skip(i + 1)) =~= pre + (escape_char(
            s@[i as int],
        ) + escaped(s@.skip(i + 1))));
        i = i + 1;
    }
    assert(s@.skip(n as int) =~= Seq::<char>::empty());
    assert(out@ + Seq::<char>::empty() =~= out@);
    out
}

} // verus!
