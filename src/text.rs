use vstd::prelude::*;

verus! {

/// Number of tab characters in `s`.
pub open spec fn tab_count(s: Seq<char>) -> nat
    decreases s.len(),
{
    if s.len() == 0 {
        0
    } else {
        tab_count(s.drop_last()) + if s.last() == '\t' { 1nat } else { 0nat }
    }
}

/// Display width of a field: each character counts one column, and a tab
/// three more, since it is rendered as four spaces.
pub open spec fn display_width(s: Seq<char>) -> nat {
    s.len() + 3 * tab_count(s)
}

/// The field as rendered: every tab replaced by four spaces.
pub open spec fn expand_tabs(s: Seq<char>) -> Seq<char>
    decreases s.len(),
{
    if s.len() == 0 {
        Seq::empty()
    } else {
        expand_tabs(s.drop_last()) + if s.last() == '\t' {
            seq![' ', ' ', ' ', ' ']
        } else {
            seq![s.last()]
        }
    }
}

/// `n` copies of `c`.
pub open spec fn repeat_char(c: char, n: nat) -> Seq<char>
    decreases n,
{
    if n == 0 {
        Seq::empty()
    } else {
        repeat_char(c, (n - 1) as nat).push(c)
    }
}

/// A field as rendered is exactly as long as its display width, so a column
/// sized by display widths never needs to cut a cell.
pub proof fn lemma_expand_tabs_len(s: Seq<char>)
    ensures
        expand_tabs(s).len() == display_width(s),
    decreases s.len(),
{
    if s.len() > 0 {
        lemma_expand_tabs_len(s.drop_last());
    }
}

pub proof fn lemma_tab_count_bound(s: Seq<char>)
    ensures
        tab_count(s) <= s.len(),
    decreases s.len(),
{
    if s.len() > 0 {
        lemma_tab_count_bound(s.drop_last());
    }
}

/// Relies on `String::push`: appends one character.
#[verifier::external_body]
pub(crate) fn push_char(s: &mut String, c: char)
    ensures
        final(s)@ == old(s)@.push(c),
{
    s.push(c)
}

/// Appends `n` copies of `c` to `s`.
pub(crate) fn push_repeated(s: &mut String, c: char, n: usize)
    ensures
        final(s)@ == old(s)@ + repeat_char(c, n as nat),
{
    let ghost start = s@;
    let mut i: usize = 0;
    while i < n
        invariant
            i <= n,
            s@ == start + repeat_char(c, i as nat),
        decreases n - i,
    {
        push_char(s, c);
        i = i + 1;
        assert(s@ =~= start + repeat_char(c, i as nat));
    }
}

/// Display width of a field, tabs counted as four columns.
pub fn field_display_width(s: &str) -> (r: usize)
    requires
        4 * s@.len() <= usize::MAX,
    ensures
        r == display_width(s@),
{
    let n = s.unicode_len();
    let mut i: usize = 0;
    let mut w: usize = 0;
    while i < n
        invariant
            n == s@.len(),
            4 * n <= usize::MAX,
            i <= n,
            w == display_width(s@.take(i as int)),
        decreases n - i,
    {
        proof {
            lemma_tab_count_bound(s@.take(i as int));
            assert(s@.take(i + 1).drop_last() =~= s@.take(i as int));
        }
        let c = s.get_char(i);
        if c == '\t' {
            w = w + 4;
        } else {
            w = w + 1;
        }
        i = i + 1;
    }
    assert(s@.take(n as int) =~= s@);
    w
}

/// Appends the field to `out` with each tab replaced by four spaces.
pub(crate) fn push_expanded(out: &mut String, s: &str)
    ensures
        final(out)@ == old(out)@ + expand_tabs(s@),
{
    let ghost start = out@;
    let n = s.unicode_len();
    let mut i: usize = 0;
    while i < n
        invariant
            n == s@.len(),
            i <= n,
            out@ == start + expand_tabs(s@.take(i as int)),
        decreases n - i,
    {
        assert(s@.take(i + 1).drop_last() =~= s@.take(i as int));
        let c = s.get_char(i);
        if c == '\t' {
            push_repeated(out, ' ', 4);
            assert(repeat_char(' ', 4) =~= seq![' ', ' ', ' ', ' ']) by {
                reveal_with_fuel(repeat_char, 5);
            }
        } else {
            push_char(out, c);
        }
        i = i + 1;
        assert(out@ =~= start + expand_tabs(s@.take(i as int)));
    }
    assert(s@.take(n as int) =~= s@);
}

} // verus!
