//! The flat file's line grammar: section markers, metadata entries, data
//! rows, blank separators — and anything else, kept verbatim.

use vstd::prelude::*;
use crate::text::{spec_is_blank, spec_has_prefix, is_blank, has_prefix, to_chars, from_chars,
    tail_from, sub_chars};

verus! {

/// One line of the store file, classified.
#[derive(Clone, Debug)]
pub enum Line {
    /// A line of nothing but spaces and tabs, kept as written.
    Blank(String),
    /// `::section::<name>`.
    Marker(String),
    /// `::metadata::<key> <value>`.
    Meta(String, String),
    /// `<36-character id> <payload>`.
    Row(String, String),
    /// Any other line, kept verbatim and skipped by every scan.
    Other(String),
}

/// The mathematical shape of a line.
pub enum LineV {
    Blank(Seq<char>),
    Marker(Seq<char>),
    Meta(Seq<char>, Seq<char>),
    Row(Seq<char>, Seq<char>),
    Other(Seq<char>),
}

impl View for Line {
    type V = LineV;

    open spec fn view(&self) -> LineV {
        match self {
            Line::Blank(s) => LineV::Blank(s@),
            Line::Marker(n) => LineV::Marker(n@),
            Line::Meta(k, v) => LineV::Meta(k@, v@),
            Line::Row(u, p) => LineV::Row(u@, p@),
            Line::Other(s) => LineV::Other(s@),
        }
    }
}

/// The marker prefix, `::section::`.
pub open spec fn marker_prefix() -> Seq<char> {
    seq![':', ':', 's', 'e', 'c', 't', 'i', 'o', 'n', ':', ':']
}

/// The metadata prefix, `::metadata::`.
pub open spec fn meta_prefix() -> Seq<char> {
    seq![':', ':', 'm', 'e', 't', 'a', 'd', 'a', 't', 'a', ':', ':']
}

/// A row identifier as the store writes it: 36 characters, none of them
/// a space, a tab or a line break, not opening like a marker.
pub open spec fn wf_uuid(u: Seq<char>) -> bool {
    &&& u.len() == 36
    &&& forall|i: int| 0 <= i < 36 ==> u[i] != ' ' && u[i] != '\t' && u[i] != '\n'
    &&& u[0] != ':'
}

/// Lines the store itself writes; what `render_line` and `parse_line`
/// invert each other on.
pub open spec fn wf_line(l: LineV) -> bool {
    match l {
        LineV::Blank(s) => spec_is_blank(s),
        LineV::Marker(n) => forall|i: int| 0 <= i < n.len() ==> n[i] != '\n',
        LineV::Meta(k, v) => {
            &&& k.len() >= 1
            &&& forall|i: int| 0 <= i < k.len() ==> k[i] != ' ' && k[i] != '\n'
            &&& forall|i: int| 0 <= i < v.len() ==> v[i] != '\n'
        },
        LineV::Row(u, p) => {
            &&& wf_uuid(u)
            &&& forall|i: int| 0 <= i < p.len() ==> p[i] != '\n'
        },
        LineV::Other(s) => {
            &&& forall|i: int| 0 <= i < s.len() ==> s[i] != '\n'
            &&& spec_parse_line(s) == LineV::Other(s)
        },
    }
}

/// The text of a line.
pub open spec fn render_line(l: LineV) -> Seq<char> {
    match l {
        LineV::Blank(s) => s,
        LineV::Marker(n) => marker_prefix() + n,
        LineV::Meta(k, v) => meta_prefix() + k + seq![' '] + v,
        LineV::Row(u, p) => u + seq![' '] + p,
        LineV::Other(s) => s,
    }
}

/// The first space of `s` at or after `from`; the length when none.
pub open spec fn first_space(s: Seq<char>, from: int) -> int
    decreases s.len() - from when 0 <= from <= s.len()
{
    if from >= s.len() {
        from
    } else if s[from] == ' ' {
        from
    } else {
        first_space(s, from + 1)
    }
}

pub proof fn lemma_first_space(s: Seq<char>, from: int)
    requires
        0 <= from <= s.len(),
    ensures
        from <= first_space(s, from) <= s.len(),
        forall|i: int| from <= i < first_space(s, from) ==> s[i] != ' ',
        first_space(s, from) < s.len() ==> s[first_space(s, from)] == ' ',
    decreases s.len() - from,
{
    if from < s.len() && s[from] != ' ' {
        lemma_first_space(s, from + 1);
    }
}

/// How a text is classified when the file is read.
pub open spec fn spec_parse_line(s: Seq<char>) -> LineV {
    if spec_has_prefix(s, marker_prefix()) {
        LineV::Marker(s.subrange(11, s.len() as int))
    } else if spec_has_prefix(s, meta_prefix()) {
        let sp = first_space(s, 12);
        if sp < s.len() {
            LineV::Meta(s.subrange(12, sp), s.subrange(sp + 1, s.len() as int))
        } else {
            LineV::Other(s)
        }
    } else if spec_is_blank(s) {
        LineV::Blank(s)
    } else if s.len() >= 37 && s[36] == ' ' && !spec_has_prefix(s, seq![':', ':']) {
        LineV::Row(s.subrange(0, 36), s.subrange(37, s.len() as int))
    } else {
        LineV::Other(s)
    }
}

/// Classifies one line of text.
pub fn parse_line(s: &str) -> (l: Line)
    ensures
        l@ == spec_parse_line(s@),
{
    let cs = to_chars(s);
    let marker: Vec<char> = vec![':', ':', 's', 'e', 'c', 't', 'i', 'o', 'n', ':', ':'];
    let meta: Vec<char> = vec![':', ':', 'm', 'e', 't', 'a', 'd', 'a', 't', 'a', ':', ':'];
    let colons: Vec<char> = vec![':', ':'];
    proof {
        assert(marker@ =~= marker_prefix());
        assert(meta@ =~= meta_prefix());
        assert(colons@ =~= seq![':', ':']);
    }
    if has_prefix(cs.as_slice(), marker.as_slice()) {
        let rest = tail_from(cs.as_slice(), 11);
        Line::Marker(from_chars(&rest))
    } else if has_prefix(cs.as_slice(), meta.as_slice()) {
        proof {
            lemma_first_space(cs@, 12);
        }
        let n = cs.len();
        let mut sp: usize = 12;
        while sp < n && cs.as_slice()[sp] != ' '
            invariant
                12 <= sp <= n,
                n == cs@.len(),
                first_space(cs@, 12) == first_space(cs@, sp as int),
                forall|i: int| 12 <= i < sp ==> cs@[i] != ' ',
            decreases n - sp,
        {
            sp += 1;
        }
        proof {
            assert(first_space(cs@, sp as int) == sp as int);
        }
        if sp < n {
            let k = sub_chars(cs.as_slice(), 12, sp);
            let v = tail_from(cs.as_slice(), sp + 1);
            Line::Meta(from_chars(&k), from_chars(&v))
        } else {
            Line::Other(s.to_owned())
        }
    } else if is_blank(cs.as_slice()) {
        Line::Blank(s.to_owned())
    } else if cs.len() >= 37 && cs.as_slice()[36] == ' ' && !has_prefix(
        cs.as_slice(),
        colons.as_slice(),
    ) {
        let u = sub_chars(cs.as_slice(), 0, 36);
        let p = tail_from(cs.as_slice(), 37);
        Line::Row(from_chars(&u), from_chars(&p))
    } else {
        Line::Other(s.to_owned())
    }
}

/// Checks that a record identifier is empty (not yet persisted) or a
/// well-formed row identifier.
pub fn uuid_ok(u: &str) -> (r: bool)
    ensures
        r == (u@.len() == 0 || wf_uuid(u@)),
{
    let cs = to_chars(u);
    let n = cs.len();
    if n == 0 {
        return true;
    }
    if n != 36 {
        return false;
    }
    if cs.as_slice()[0] == ':' {
        return false;
    }
    let mut i: usize = 0;
    while i < 36
        invariant
            i <= 36,
            cs@ == u@,
            u@.len() == 36,
            forall|j: int| 0 <= j < i ==> u@[j] != ' ' && u@[j] != '\t' && u@[j] != '\n',
        decreases 36 - i,
    {
        let c = cs.as_slice()[i];
        if c == ' ' || c == '\t' || c == '\n' {
            return false;
        }
        i += 1;
    }
    true
}

/// Writes one line back as text.
pub fn render_line_exec(l: &Line) -> (r: String)
    ensures
        r@ == render_line(l@),
{
    match l {
        Line::Blank(s) => s.clone(),
        Line::Marker(n) => {
            let mut v: Vec<char> = vec![':', ':', 's', 'e', 'c', 't', 'i', 'o', 'n', ':', ':'];
            let nc = to_chars(n.as_str());
            crate::text::push_all(&mut v, nc.as_slice());
            proof {
                assert(v@ =~= marker_prefix() + n@);
            }
            from_chars(&v)
        },
        Line::Meta(k, v0) => {
            let mut v: Vec<char> = vec![
                ':',
                ':',
                'm',
                'e',
                't',
                'a',
                'd',
                'a',
                't',
                'a',
                ':',
                ':',
            ];
            let kc = to_chars(k.as_str());
            crate::text::push_all(&mut v, kc.as_slice());
            v.push(' ');
            let vc = to_chars(v0.as_str());
            crate::text::push_all(&mut v, vc.as_slice());
            proof {
                assert(v@ =~= meta_prefix() + k@ + seq![' '] + v0@);
            }
            from_chars(&v)
        },
        Line::Row(u, p) => {
            let mut v: Vec<char> = Vec::new();
            let uc = to_chars(u.as_str());
            crate::text::push_all(&mut v, uc.as_slice());
            v.push(' ');
            let pc = to_chars(p.as_str());
            crate::text::push_all(&mut v, pc.as_slice());
            proof {
                assert(v@ =~= u@ + seq![' '] + p@);
            }
            from_chars(&v)
        },
        Line::Other(s) => s.clone(),
    }
}

/// Reading a written line classifies it back: the line grammar's round
/// trip, for the lines the store itself writes.
pub proof fn lemma_parse_render_line(l: LineV)
    requires
        wf_line(l),
    ensures
        spec_parse_line(render_line(l)) == l,
{
    let s = render_line(l);
    match l {
        LineV::Blank(b) => {
            if spec_has_prefix(s, marker_prefix()) {
                assert(s.subrange(0, 11)[0] == ':');
                assert(false);
            }
            if spec_has_prefix(s, meta_prefix()) {
                assert(s.subrange(0, 12)[0] == ':');
                assert(false);
            }
            assert(spec_parse_line(render_line(l)) == l);
        },
        LineV::Marker(n) => {
            assert(s.subrange(0, 11) =~= marker_prefix());
            assert(s.subrange(11, s.len() as int) =~= n);
            assert(spec_parse_line(render_line(l)) == l);
        },
        LineV::Meta(k, v) => {
            assert(s.subrange(0, 12) =~= meta_prefix());
            if spec_has_prefix(s, marker_prefix()) {
                assert(s.subrange(0, 11)[8] == 'n');
                assert(s[8] == meta_prefix()[8]);
                assert(false);
            }
            // the key runs space-free up to the separating space
            let sp = first_space(s, 12);
            lemma_first_space(s, 12);
            assert forall|i: int| 12 <= i < 12 + k.len() implies s[i] != ' ' by {
                assert(s[i] == k[i - 12]);
            }
            assert(s[12 + k.len() as int] == ' ');
            if sp < 12 + k.len() {
                assert(s[sp] == ' ');
                assert(false);
            }
            if sp > 12 + k.len() {
                assert(s[12 + k.len() as int] != ' ');
                assert(false);
            }
            assert(sp == 12 + k.len());
            assert(s.subrange(12, sp) =~= k);
            assert(s.subrange(sp + 1, s.len() as int) =~= v);
            assert(spec_parse_line(render_line(l)) == l);
        },
        LineV::Row(u, p) => {
            if spec_has_prefix(s, marker_prefix()) {
                assert(s.subrange(0, 11)[0] == ':');
                assert(s[0] == u[0]);
                assert(false);
            }
            if spec_has_prefix(s, meta_prefix()) {
                assert(s.subrange(0, 12)[0] == ':');
                assert(s[0] == u[0]);
                assert(false);
            }
            assert(s[0] == u[0]);
            if spec_is_blank(s) {
                assert(u[0] == ' ' || u[0] == '\t');
                assert(false);
            }
            assert(s.len() >= 37);
            assert(s[36] == ' ');
            if spec_has_prefix(s, seq![':', ':']) {
                assert(s.subrange(0, 2)[0] == ':');
                assert(false);
            }
            assert(s.subrange(0, 36) =~= u);
            assert(s.subrange(37, s.len() as int) =~= p);
            assert(spec_parse_line(render_line(l)) == l);
        },
        LineV::Other(o) => {
            assert(spec_parse_line(render_line(l)) == l);
        },
    }
}

} // verus!
