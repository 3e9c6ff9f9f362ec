//! Character-vector helpers: the codec and the line grammar work on
//! `Vec<char>`, converting to and from `String` at the library's edges.

use vstd::prelude::*;

verus! {

/// Turns a string into the vector of its characters.
pub fn to_chars(s: &str) -> (r: Vec<char>)
    ensures
        r@ == s@,
{
    let n = s.unicode_len();
    let mut v: Vec<char> = Vec::new();
    let mut i: usize = 0;
    while i < n
        invariant
            i <= n,
            n == s@.len(),
            v@ == s@.subrange(0, i as int),
        decreases n - i,
    {
        v.push(s.get_char(i));
        assert(v@ =~= s@.subrange(0, i as int + 1));
        i += 1;
    }
    assert(v@ =~= s@);
    v
}

/// Relies on `String: FromIterator<char>`: collecting characters yields a
/// string whose characters are exactly those collected, in order.
#[verifier::external_body]
pub fn from_chars(v: &Vec<char>) -> (r: String)
    ensures
        r@ == v@,
{
    v.iter().collect()
}

/// Element-wise equality of two character vectors.
pub fn chars_eq(a: &[char], b: &[char]) -> (r: bool)
    ensures
        r == (a@ == b@),
{
    if a.len() != b.len() {
        assert(a@.len() != b@.len());
        return false;
    }
    let n = a.len();
    let mut i: usize = 0;
    while i < n
        invariant
            i <= n,
            n == a@.len() && n == b@.len(),
            forall|j: int| 0 <= j < i ==> a@[j] == b@[j],
        decreases n - i,
    {
        if a[i] != b[i] {
            return false;
        }
        i += 1;
    }
    assert(a@ =~= b@);
    true
}

/// True when `p` is a prefix of `s`.
pub open spec fn spec_has_prefix(s: Seq<char>, p: Seq<char>) -> bool {
    p.len() <= s.len() && s.subrange(0, p.len() as int) == p
}

/// Prefix test over character slices.
pub fn has_prefix(s: &[char], p: &[char]) -> (r: bool)
    ensures
        r == spec_has_prefix(s@, p@),
{
    if p.len() > s.len() {
        return false;
    }
    let n = p.len();
    let mut i: usize = 0;
    while i < n
        invariant
            i <= n,
            n == p@.len(),
            n <= s@.len(),
            forall|j: int| 0 <= j < i ==> s@[j] == p@[j],
        decreases n - i,
    {
        if s[i] != p[i] {
            assert(s@.subrange(0, p@.len() as int)[i as int] != p@[i as int]);
            return false;
        }
        i += 1;
    }
    assert(s@.subrange(0, p@.len() as int) =~= p@);
    true
}

/// True when every character is a space or a tab.
pub open spec fn spec_is_blank(s: Seq<char>) -> bool {
    forall|i: int| 0 <= i < s.len() ==> s[i] == ' ' || s[i] == '\t'
}

/// Blank-line test: empty, or only spaces and tabs.
pub fn is_blank(s: &[char]) -> (r: bool)
    ensures
        r == spec_is_blank(s@),
{
    let n = s.len();
    let mut i: usize = 0;
    while i < n
        invariant
            i <= n,
            n == s@.len(),
            forall|j: int| 0 <= j < i ==> s@[j] == ' ' || s@[j] == '\t',
        decreases n - i,
    {
        let c = s[i];
        if c != ' ' && c != '\t' {
            return false;
        }
        i += 1;
    }
    true
}

/// The suffix of `s` from index `from` on.
pub fn tail_from(s: &[char], from: usize) -> (r: Vec<char>)
    requires
        from <= s@.len(),
    ensures
        r@ == s@.subrange(from as int, s@.len() as int),
{
    let n = s.len();
    let mut v: Vec<char> = Vec::new();
    let mut i: usize = from;
    while i < n
        invariant
            from <= i <= n,
            n == s@.len(),
            v@ == s@.subrange(from as int, i as int),
        decreases n - i,
    {
        v.push(s[i]);
        assert(v@ =~= s@.subrange(from as int, i as int + 1));
        i += 1;
    }
    v
}

/// The slice of `s` between `from` and `to`.
pub fn sub_chars(s: &[char], from: usize, to: usize) -> (r: Vec<char>)
    requires
        from <= to <= s@.len(),
    ensures
        r@ == s@.subrange(from as int, to as int),
{
    let mut v: Vec<char> = Vec::new();
    let mut i: usize = from;
    while i < to
        invariant
            from <= i <= to <= s@.len(),
            v@ == s@.subrange(from as int, i as int),
        decreases to - i,
    {
        v.push(s[i]);
        assert(v@ =~= s@.subrange(from as int, i as int + 1));
        i += 1;
    }
    v
}

/// Appends every character of `b` to `a`.
pub fn push_all(a: &mut Vec<char>, b: &[char])
    ensures
        final(a)@ == old(a)@ + b@,
{
    let n = b.len();
    let mut i: usize = 0;
    while i < n
        invariant
            i <= n,
            n == b@.len(),
            a@ == old(a)@ + b@.subrange(0, i as int),
        decreases n - i,
    {
        a.push(b[i]);
        assert(a@ =~= old(a)@ + b@.subrange(0, i as int + 1));
        i += 1;
    }
    assert(a@ =~= old(a)@ + b@);
}

/// No character of `s` is a line break.
pub open spec fn no_nl(s: Seq<char>) -> bool {
    forall|i: int| 0 <= i < s.len() ==> s[i] != '\n'
}

/// Freedom from line breaks distributes over concatenation.
pub proof fn lemma_no_nl_concat(a: Seq<char>, b: Seq<char>)
    requires
        no_nl(a),
        no_nl(b),
    ensures
        no_nl(a + b),
{
    assert forall|i: int| 0 <= i < (a + b).len() implies (a + b)[i] != '\n' by {
        if i < a.len() {
            assert((a + b)[i] == a[i]);
        } else {
            assert((a + b)[i] == b[i - a.len()]);
        }
    }
}

/// The index bounds of `s` with leading and trailing blanks removed.
pub open spec fn spec_trim(s: Seq<char>) -> Seq<char>
    decreases s.len(),
{
    if s.len() == 0 {
        s
    } else if s[0] == ' ' || s[0] == '\t' {
        spec_trim(s.subrange(1, s.len() as int))
    } else if s[s.len() - 1] == ' ' || s[s.len() - 1] == '\t' {
        spec_trim(s.subrange(0, s.len() - 1))
    } else {
        s
    }
}

/// Removes leading and trailing spaces and tabs.
pub fn trim(s: &[char]) -> (r: Vec<char>)
    ensures
        r@ == spec_trim(s@),
{
    let mut lo: usize = 0;
    let mut hi: usize = s.len();
    proof {
        assert(s@.subrange(0, s@.len() as int) =~= s@);
    }
    while lo < hi && (s[lo] == ' ' || s[lo] == '\t')
        invariant
            lo <= hi <= s@.len(),
            spec_trim(s@) == spec_trim(s@.subrange(lo as int, hi as int)),
            hi == s@.len(),
        decreases hi - lo,
    {
        proof {
            assert(s@.subrange(lo as int, hi as int).subrange(1, (hi - lo) as int) =~= s@
                .subrange(lo as int + 1, hi as int));
        }
        lo += 1;
    }
    while lo < hi && (s[hi - 1] == ' ' || s[hi - 1] == '\t')
        invariant
            lo <= hi <= s@.len(),
            spec_trim(s@) == spec_trim(s@.subrange(lo as int, hi as int)),
            lo < hi ==> !(s@[lo as int] == ' ' || s@[lo as int] == '\t'),
        decreases hi,
    {
        proof {
            assert(s@.subrange(lo as int, hi as int).subrange(0, (hi - lo) as int - 1) =~= s@
                .subrange(lo as int, hi as int - 1));
        }
        hi -= 1;
    }
    let r = sub_chars(s, lo, hi);
    proof {
        let t = s@.subrange(lo as int, hi as int);
        if t.len() > 0 {
            assert(!(t[0] == ' ' || t[0] == '\t'));
            assert(!(t[t.len() - 1] == ' ' || t[t.len() - 1] == '\t'));
        }
        assert(spec_trim(t) == t);
    }
    r
}

} // verus!
