//! Character-level helpers shared by the registry file format, the config
//! codec and the marker-file handling: whitespace trimming, prefix
//! stripping and exact string comparison.

use vstd::prelude::*;

verus! {

/// Whitespace as the registry and marker-file formats understand it.
pub open spec fn is_space(c: char) -> bool {
    c == ' ' || c == '\t' || c == '\r' || c == '\n'
}

/// `s` with leading whitespace removed.
pub open spec fn trim_start(s: Seq<char>) -> Seq<char>
    decreases s.len(),
{
    if s.len() > 0 && is_space(s[0]) {
        trim_start(s.drop_first())
    } else {
        s
    }
}

/// `s` with trailing whitespace removed.
pub open spec fn trim_end(s: Seq<char>) -> Seq<char>
    decreases s.len(),
{
    if s.len() > 0 && is_space(s.last()) {
        trim_end(s.drop_last())
    } else {
        s
    }
}

/// `s` with whitespace removed from both ends.
pub open spec fn trim(s: Seq<char>) -> Seq<char> {
    trim_end(trim_start(s))
}

/// `s` with every leading 'v' removed.
pub open spec fn strip_v(s: Seq<char>) -> Seq<char>
    decreases s.len(),
{
    if s.len() > 0 && s[0] == 'v' {
        strip_v(s.drop_first())
    } else {
        s
    }
}

/// A version identifier as the registry stores it: non-empty, free of line
/// breaks, and carrying no whitespace at either end (so that writing it as
/// one line of the registry file and reading that line back is lossless).
pub open spec fn valid_id(s: Seq<char>) -> bool {
    &&& s.len() > 0
    &&& !is_space(s[0])
    &&& !is_space(s.last())
    &&& forall|k: int| 0 <= k < s.len() ==> s[k] != '\n'
}

/// Trimming an identifier that is already free of whitespace at both ends
/// changes nothing.
pub proof fn lemma_trim_of_valid_id(s: Seq<char>)
    requires
        s.len() > 0,
        !is_space(s[0]),
        !is_space(s.last()),
    ensures
        trim(s) == s,
{
}

/// Every character of the trimmed sequence occurs in the original, and a
/// non-empty trimmed sequence has no whitespace at either end.
pub proof fn lemma_trim_props(s: Seq<char>)
    ensures
        trim(s).len() > 0 ==> !is_space(trim(s)[0]),
        trim(s).len() > 0 ==> !is_space(trim(s).last()),
        forall|k: int| 0 <= k < trim(s).len() ==> s.contains(#[trigger] trim(s)[k]),
{
    lemma_trim_start_props(s);
    lemma_trim_end_props(trim_start(s));
    assert forall|k: int| 0 <= k < trim(s).len() implies s.contains(#[trigger] trim(s)[k]) by {
        assert(trim_start(s).contains(trim(s)[k]));
        let j = choose|j: int| 0 <= j < trim_start(s).len() && trim_start(s)[j] == trim(s)[k];
        assert(s.contains(trim_start(s)[j]));
    }
}

pub proof fn lemma_trim_start_props(s: Seq<char>)
    ensures
        trim_start(s).len() > 0 ==> !is_space(trim_start(s)[0]),
        trim_start(s).len() > 0 ==> trim_start(s).last() == s.last() && s.len() > 0,
        forall|k: int| 0 <= k < trim_start(s).len() ==> s.contains(#[trigger] trim_start(s)[k]),
    decreases s.len(),
{
    if s.len() > 0 && is_space(s[0]) {
        lemma_trim_start_props(s.drop_first());
        assert forall|k: int| 0 <= k < trim_start(s).len() implies s.contains(
            #[trigger] trim_start(s)[k],
        ) by {
            assert(s.drop_first().contains(trim_start(s)[k]));
            let j = choose|j: int|
                0 <= j < s.drop_first().len() && s.drop_first()[j] == trim_start(s)[k];
            assert(s[j + 1] == trim_start(s)[k]);
        }
    } else {
        assert forall|k: int| 0 <= k < trim_start(s).len() implies s.contains(
            #[trigger] trim_start(s)[k],
        ) by {
            assert(s[k] == trim_start(s)[k]);
        }
    }
}

pub proof fn lemma_trim_end_props(s: Seq<char>)
    ensures
        trim_end(s).len() > 0 ==> !is_space(trim_end(s).last()),
        trim_end(s).len() > 0 ==> trim_end(s)[0] == s[0] && s.len() > 0,
        forall|k: int| 0 <= k < trim_end(s).len() ==> s.contains(#[trigger] trim_end(s)[k]),
    decreases s.len(),
{
    if s.len() > 0 && is_space(s.last()) {
        lemma_trim_end_props(s.drop_last());
        assert forall|k: int| 0 <= k < trim_end(s).len() implies s.contains(
            #[trigger] trim_end(s)[k],
        ) by {
            assert(s.drop_last().contains(trim_end(s)[k]));
            let j = choose|j: int|
                0 <= j < s.drop_last().len() && s.drop_last()[j] == trim_end(s)[k];
            assert(s[j] == trim_end(s)[k]);
        }
    } else {
        assert forall|k: int| 0 <= k < trim_end(s).len() implies s.contains(
            #[trigger] trim_end(s)[k],
        ) by {
            assert(s[k] == trim_end(s)[k]);
        }
    }
}

/// Length of the first line of `s`: the number of characters before the
/// first line break, or all of `s` when it has none.
pub open spec fn line_len(s: Seq<char>) -> nat
    decreases s.len(),
{
    if s.len() == 0 {
        0
    } else if s[0] == '\n' {
        0
    } else {
        1 + line_len(s.drop_first())
    }
}

pub proof fn lemma_line_len(s: Seq<char>)
    ensures
        line_len(s) <= s.len(),
        forall|k: int| 0 <= k < line_len(s) ==> s[k] != '\n',
        line_len(s) < s.len() ==> s[line_len(s) as int] == '\n',
    decreases s.len(),
{
    if s.len() > 0 && s[0] != '\n' {
        lemma_line_len(s.drop_first());
        assert forall|k: int| 0 <= k < line_len(s) implies s[k] != '\n' by {
            if k > 0 {
                assert(s.drop_first()[k - 1] == s[k]);
            }
        }
        if line_len(s) < s.len() {
            assert(s.drop_first()[line_len(s) as int - 1] == s[line_len(s) as int]);
        }
    }
}

/// Exact equality of two string slices, decided character by character.
pub fn str_eq(a: &str, b: &str) -> (r: bool)
    ensures
        r == (a@ == b@),
{
    let na = a.unicode_len();
    let nb = b.unicode_len();
    if na != nb {
        proof {
            assert(a@ != b@);
        }
        return false;
    }
    let mut i: usize = 0;
    while i < na
        invariant
            0 <= i <= na,
            na == a@.len(),
            na == b@.len(),
            forall|k: int| 0 <= k < i ==> a@[k] == b@[k],
        decreases na - i,
    {
        if a.get_char(i) != b.get_char(i) {
            proof {
                assert(a@[i as int] != b@[i as int]);
            }
            return false;
        }
        i = i + 1;
    }
    proof {
        assert(a@ =~= b@);
    }
    true
}

/// Relies on String::push: appends the given character to the end of the
/// string.
#[verifier::external_body]
pub(crate) fn push_char(s: &mut String, c: char)
    ensures
        final(s)@ == old(s)@.push(c),
{
    s.push(c);
}

/// `s` with leading and trailing whitespace removed.
pub fn trim_str(s: &str) -> (r: String)
    ensures
        r@ == trim(s@),
{
    let n = s.unicode_len();
    proof {
        assert(s@.subrange(0, n as int) =~= s@);
    }
    let mut i: usize = 0;
    while i < n && is_space_char(s.get_char(i))
        invariant
            0 <= i <= n,
            n == s@.len(),
            trim_start(s@) == trim_start(s@.subrange(i as int, n as int)),
        decreases n - i,
    {
        proof {
            let suf = s@.subrange(i as int, n as int);
            assert(suf[0] == s@[i as int]);
            assert(suf.drop_first() =~= s@.subrange(i as int + 1, n as int));
        }
        i = i + 1;
    }
    proof {
        let suf = s@.subrange(i as int, n as int);
        if i < n {
            assert(suf[0] == s@[i as int]);
        }
        assert(trim_start(s@) == suf);
    }
    let mut j: usize = n;
    while j > i && is_space_char(s.get_char(j - 1))
        invariant
            i <= j <= n,
            n == s@.len(),
            trim_start(s@) == s@.subrange(i as int, n as int),
            i < n ==> !is_space(s@[i as int]),
            trim_end(s@.subrange(i as int, n as int)) == trim_end(
                s@.subrange(i as int, j as int),
            ),
        decreases j,
    {
        proof {
            let cur = s@.subrange(i as int, j as int);
            assert(cur.last() == s@[j - 1]);
            assert(cur.drop_last() =~= s@.subrange(i as int, j as int - 1));
        }
        j = j - 1;
    }
    proof {
        let cur = s@.subrange(i as int, j as int);
        if j > i {
            assert(cur.last() == s@[j as int - 1]);
        }
        assert(trim(s@) == cur);
    }
    let piece = s.substring_char(i, j);
    piece.to_owned()
}

/// `s` with every leading 'v' removed, as a fresh string.
pub fn strip_v_str(s: &str) -> (r: String)
    ensures
        r@ == strip_v(s@),
{
    let n = s.unicode_len();
    proof {
        assert(s@.subrange(0, n as int) =~= s@);
    }
    let mut i: usize = 0;
    while i < n && s.get_char(i) == 'v'
        invariant
            0 <= i <= n,
            n == s@.len(),
            strip_v(s@) == strip_v(s@.subrange(i as int, n as int)),
        decreases n - i,
    {
        proof {
            let suf = s@.subrange(i as int, n as int);
            assert(suf[0] == s@[i as int]);
            assert(suf.drop_first() =~= s@.subrange(i as int + 1, n as int));
        }
        i = i + 1;
    }
    proof {
        let suf = s@.subrange(i as int, n as int);
        if i < n {
            assert(suf[0] == s@[i as int]);
        }
        assert(strip_v(s@) == suf);
    }
    let piece = s.substring_char(i, n);
    piece.to_owned()
}

/// Whether `c` counts as whitespace, decided in executable code.
pub fn is_space_char(c: char) -> (r: bool)
    ensures
        r == is_space(c),
{
    c == ' ' || c == '\t' || c == '\r' || c == '\n'
}

/// Whether `s` may serve as a stored version identifier.
pub fn is_valid_id(s: &str) -> (r: bool)
    ensures
        r == valid_id(s@),
{
    let n = s.unicode_len();
    if n == 0 {
        return false;
    }
    if is_space_char(s.get_char(0)) || is_space_char(s.get_char(n - 1)) {
        return false;
    }
    let mut i: usize = 0;
    while i < n
        invariant
            0 <= i <= n,
            n == s@.len(),
            forall|k: int| 0 <= k < i ==> s@[k] != '\n',
        decreases n - i,
    {
        if s.get_char(i) == '\n' {
            return false;
        }
        i = i + 1;
    }
    true
}

} // verus!
