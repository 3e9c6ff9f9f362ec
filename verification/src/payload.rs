//! The row payload codec: a flat object of named fields, written as a
//! single-line JSON object. A field holds a text, a money amount, or a
//! list of texts. Rendering and reading invert each other, which is what
//! the store's round-trip guarantees rest on.

use vstd::prelude::*;
use crate::numtext::{
    MAX_CENTS, is_digit, enc_money, spec_parse_money, parse_money, money_to_chars,
};
use crate::text::push_all;

verus! {

/// A field value.
#[derive(Clone, Debug)]
pub enum PValue {
    /// Free text.
    Text(String),
    /// A money amount in cents.
    Amount(i64),
    /// A list of texts (used for tag references).
    List(Vec<String>),
}

/// The mathematical shape of a field value.
pub enum ValV {
    Text(Seq<char>),
    Amount(int),
    List(Seq<Seq<char>>),
}

impl View for PValue {
    type V = ValV;

    open spec fn view(&self) -> ValV {
        match self {
            PValue::Text(s) => ValV::Text(s@),
            PValue::Amount(m) => ValV::Amount(*m as int),
            PValue::List(l) => ValV::List(l@.map_values(|x: String| x@)),
        }
    }
}

/// A row payload: named fields in order. A key may repeat; lookups take
/// the first occurrence.
#[derive(Clone, Debug)]
pub struct Payload {
    pub fields: Vec<(String, PValue)>,
}

/// The mathematical shape of a payload.
pub type PayloadV = Seq<(Seq<char>, ValV)>;

impl View for Payload {
    type V = PayloadV;

    open spec fn view(&self) -> PayloadV {
        self.fields@.map_values(|f: (String, PValue)| (f.0@, f.1@))
    }
}

/// Amounts a payload may carry.
pub open spec fn wf_val(v: ValV) -> bool {
    match v {
        ValV::Amount(m) => -MAX_CENTS <= m <= MAX_CENTS,
        _ => true,
    }
}

/// Every amount of the payload is within range.
pub open spec fn wf_payload(p: PayloadV) -> bool {
    forall|i: int| 0 <= i < p.len() ==> wf_val(#[trigger] p[i].1)
}

/// Appending an admissible value keeps a payload admissible.
pub proof fn lemma_wf_payload_push(p: PayloadV, x: (Seq<char>, ValV))
    requires
        wf_payload(p),
        wf_val(x.1),
    ensures
        wf_payload(p.push(x)),
{
    assert forall|i: int| 0 <= i < p.push(x).len() implies wf_val(#[trigger] p.push(x)[i].1) by {
        if i < p.len() {
            assert(p.push(x)[i] == p[i]);
        } else {
            assert(p.push(x)[i] == x);
        }
    }
}

// ---------------------------------------------------------------------
// text escaping
// ---------------------------------------------------------------------
/// The written form of one character inside a quoted text.
pub open spec fn esc_char(c: char) -> Seq<char> {
    if c == '"' {
        seq!['\\', '"']
    } else if c == '\\' {
        seq!['\\', '\\']
    } else if c == '\n' {
        seq!['\\', 'n']
    } else {
        seq![c]
    }
}

/// The written form of a text inside quotes.
pub open spec fn escape(s: Seq<char>) -> Seq<char>
    decreases s.len(),
{
    if s.len() == 0 {
        Seq::empty()
    } else {
        esc_char(s[0]) + escape(s.drop_first())
    }
}

/// Escaping distributes over concatenation.
pub proof fn lemma_escape_concat(a: Seq<char>, b: Seq<char>)
    ensures
        escape(a + b) == escape(a) + escape(b),
    decreases a.len(),
{
    if a.len() == 0 {
        assert(a + b =~= b);
        assert(escape(a) + escape(b) =~= escape(b));
    } else {
        assert((a + b).drop_first() =~= a.drop_first() + b);
        lemma_escape_concat(a.drop_first(), b);
        assert(escape(a + b) =~= escape(a) + escape(b));
    }
}

/// A quoted text: quote, escaped characters, quote.
pub open spec fn enc_string(s: Seq<char>) -> Seq<char> {
    seq!['"'] + escape(s) + seq!['"']
}

/// Appends the escaped form of `s` to `out`.
pub fn escape_into(out: &mut Vec<char>, s: &[char])
    ensures
        final(out)@ == old(out)@ + escape(s@),
{
    let n = s.len();
    let mut i: usize = 0;
    while i < n
        invariant
            i <= n,
            n == s@.len(),
            out@ == old(out)@ + escape(s@.subrange(0, i as int)),
        decreases n - i,
    {
        let c = s[i];
        if c == '"' {
            out.push('\\');
            out.push('"');
        } else if c == '\\' {
            out.push('\\');
            out.push('\\');
        } else if c == '\n' {
            out.push('\\');
            out.push('n');
        } else {
            out.push(c);
        }
        proof {
            let pre = s@.subrange(0, i as int);
            let one = seq![s@[i as int]];
            assert(s@.subrange(0, i as int + 1) =~= pre + one);
            lemma_escape_concat(pre, one);
            assert(one.drop_first() =~= Seq::<char>::empty());
            assert(one.len() == 1);
            assert(escape(one) == esc_char(one[0]) + escape(one.drop_first()));
            assert(escape(Seq::<char>::empty()) =~= Seq::<char>::empty());
            assert(escape(one) =~= esc_char(s@[i as int]));
            assert(out@ =~= old(out)@ + escape(s@.subrange(0, i as int + 1)));
        }
        i += 1;
    }
    proof {
        assert(s@.subrange(0, n as int) =~= s@);
    }
}

/// Appends the quoted form of `s` to `out`.
pub fn enc_string_into(out: &mut Vec<char>, s: &[char])
    ensures
        final(out)@ == old(out)@ + enc_string(s@),
{
    out.push('"');
    escape_into(out, s);
    out.push('"');
    proof {
        assert(out@ =~= old(out)@ + enc_string(s@));
    }
}

// ---------------------------------------------------------------------
// reading a quoted text
// ---------------------------------------------------------------------
/// The character an escape pair stands for, if the pair is admitted.
pub open spec fn spec_unesc(c: char) -> Option<char> {
    if c == '"' {
        Some('"')
    } else if c == '\\' {
        Some('\\')
    } else if c == 'n' {
        Some('\n')
    } else {
        None
    }
}

/// Reads the inside of a quoted text from `i` up to its closing quote.
pub open spec fn spec_parse_content(s: Seq<char>, i: int) -> Option<(Seq<char>, int)>
    decreases s.len() - i when 0 <= i <= s.len()
{
    if i >= s.len() {
        None
    } else if s[i] == '"' {
        Some((Seq::empty(), i + 1))
    } else if s[i] == '\\' {
        if i + 1 < s.len() {
            match spec_unesc(s[i + 1]) {
                None => None,
                Some(c) => match spec_parse_content(s, i + 2) {
                    None => None,
                    Some((t, j)) => Some((seq![c] + t, j)),
                },
            }
        } else {
            None
        }
    } else {
        match spec_parse_content(s, i + 1) {
            None => None,
            Some((t, j)) => Some((seq![s[i]] + t, j)),
        }
    }
}

/// What `spec_parse_content` consumes lies within the text.
pub proof fn lemma_parse_content_bounds(s: Seq<char>, i: int)
    requires
        0 <= i <= s.len(),
    ensures
        match spec_parse_content(s, i) {
            Some(p) => i < p.1 <= s.len(),
            None => true,
        },
    decreases s.len() - i,
{
    if i >= s.len() {
    } else if s[i] == '"' {
    } else if s[i] == '\\' {
        if i + 1 < s.len() {
            lemma_parse_content_bounds(s, i + 2);
        }
    } else {
        lemma_parse_content_bounds(s, i + 1);
    }
}

/// Reads the inside of a quoted text, mirroring `spec_parse_content`.
pub fn parse_content(s: &[char], i: usize) -> (r: Option<(Vec<char>, usize)>)
    requires
        i <= s@.len(),
    ensures
        match r {
            Some(p) => spec_parse_content(s@, i as int) == Some((p.0@, p.1 as int)) && i < p.1
                <= s@.len(),
            None => spec_parse_content(s@, i as int).is_none(),
        },
    decreases s@.len() - i,
{
    let n = s.len();
    if i >= n {
        return None;
    }
    let c = s[i];
    if c == '"' {
        let v: Vec<char> = Vec::new();
        proof {
            assert(v@ =~= Seq::<char>::empty());
        }
        return Some((v, i + 1));
    }
    if c == '\\' {
        if i + 1 < n {
            let u = s[i + 1];
            let m: Option<char> = if u == '"' {
                Some('"')
            } else if u == '\\' {
                Some('\\')
            } else if u == 'n' {
                Some('\n')
            } else {
                None
            };
            match m {
                None => None,
                Some(mc) => {
                    match parse_content(s, i + 2) {
                        None => None,
                        Some((t, j)) => {
                            let mut v = t;
                            v.insert(0, mc);
                            proof {
                                let tv = v@.remove(0);
                                assert(v@ =~= seq![mc] + tv);
                            }
                            Some((v, j))
                        },
                    }
                },
            }
        } else {
            None
        }
    } else {
        match parse_content(s, i + 1) {
            None => None,
            Some((t, j)) => {
                let mut v = t;
                v.insert(0, c);
                proof {
                    let tv = v@.remove(0);
                    assert(v@ =~= seq![c] + tv);
                }
                Some((v, j))
            },
        }
    }
}

/// Reading the inside of a quoted text inverts escaping.
pub proof fn lemma_parse_content_enc(s: Seq<char>, i: int, t: Seq<char>)
    requires
        0 <= i,
        i + escape(t).len() + 1 <= s.len(),
        s.subrange(i, i + escape(t).len() + 1) == escape(t) + seq!['"'],
    ensures
        spec_parse_content(s, i) == Some((t, i + escape(t).len() + 1)),
    decreases t.len(),
{
    let l = escape(t).len() as int;
    let e = escape(t) + seq!['"'];
    assert forall|k: int| 0 <= k < l + 1 implies #[trigger] s[i + k] == e[k] by {
        assert(s.subrange(i, i + l + 1)[k] == s[i + k]);
    }
    if t.len() == 0 {
        assert(escape(t) =~= Seq::<char>::empty());
        assert(s[i + 0] == e[0]);
        assert(s[i] == '"');
        assert(t =~= Seq::<char>::empty());
    } else {
        let c = t[0];
        let rest = t.drop_first();
        assert(escape(t) == esc_char(c) + escape(rest));
        let o = esc_char(c).len() as int;
        assert forall|k: int| 0 <= k < o implies s[i + k] == esc_char(c)[k] by {
            assert(e[k] == (esc_char(c) + escape(rest))[k]);
        }
        assert(s.subrange(i + o, i + o + escape(rest).len() + 1) =~= escape(rest) + seq!['"'])
            by {
            assert forall|k: int|
                0 <= k < escape(rest).len() + 1 implies s.subrange(
                i + o,
                i + o + escape(rest).len() + 1,
            )[k] == (escape(rest) + seq!['"'])[k] by {
                assert(s.subrange(i + o, i + o + escape(rest).len() + 1)[k] == s[i + o + k]);
                assert(s[i + o + k] == e[o + k]);
                if k < escape(rest).len() {
                    assert(e[o + k] == escape(t)[o + k]);
                    assert(escape(t)[o + k] == escape(rest)[k]);
                } else {
                    assert(e[o + k] == '"');
                }
            }
        }
        lemma_parse_content_enc(s, i + o, rest);
        if c == '"' || c == '\\' || c == '\n' {
            assert(o == 2);
            assert(s[i + 0] == esc_char(c)[0]);
            assert(s[i] == '\\');
            assert(s[i + 1] == esc_char(c)[1]);
            assert(spec_unesc(s[i + 1]) == Some(c));
            assert(seq![c] + rest =~= t);
        } else {
            assert(o == 1);
            assert(s[i + 0] == esc_char(c)[0]);
            assert(s[i] == c);
            assert(s[i] != '"' && s[i] != '\\');
            assert(seq![c] + rest =~= t);
        }
    }
}

/// A quoted text begins at `i`: reads it.
pub open spec fn spec_parse_string(s: Seq<char>, i: int) -> Option<(Seq<char>, int)> {
    if 0 <= i < s.len() && s[i] == '"' {
        spec_parse_content(s, i + 1)
    } else {
        None
    }
}

/// Reads a quoted text, mirroring `spec_parse_string`.
pub fn parse_string(s: &[char], i: usize) -> (r: Option<(Vec<char>, usize)>)
    requires
        i <= s@.len(),
    ensures
        match r {
            Some(p) => spec_parse_string(s@, i as int) == Some((p.0@, p.1 as int)) && i + 2
                <= p.1 <= s@.len(),
            None => spec_parse_string(s@, i as int).is_none(),
        },
{
    if i < s.len() {
        let c = s[i];
        if c == '"' {
            parse_content(s, i + 1)
        } else {
            None
        }
    } else {
        None
    }
}

/// Reading a quoted text inverts rendering.
pub proof fn lemma_parse_string_enc(s: Seq<char>, i: int, t: Seq<char>)
    requires
        0 <= i,
        i + enc_string(t).len() <= s.len(),
        s.subrange(i, i + enc_string(t).len() as int) == enc_string(t),
    ensures
        spec_parse_string(s, i) == Some((t, i + enc_string(t).len() as int)),
{
    let l = enc_string(t).len() as int;
    assert forall|k: int| 0 <= k < l implies #[trigger] s[i + k] == enc_string(t)[k] by {
        assert(s.subrange(i, i + l)[k] == s[i + k]);
    }
    assert(s[i + 0] == enc_string(t)[0]);
    assert(s[i] == '"');
    assert(s.subrange(i + 1, i + 1 + escape(t).len() + 1) =~= escape(t) + seq!['"']) by {
        assert forall|k: int|
            0 <= k < escape(t).len() + 1 implies s.subrange(
            i + 1,
            i + 1 + escape(t).len() + 1,
        )[k] == (escape(t) + seq!['"'])[k] by {
            assert(s.subrange(i + 1, i + 1 + escape(t).len() + 1)[k] == s[i + 1 + k]);
            assert(s[i + 1 + k] == enc_string(t)[1 + k]);
            if k < escape(t).len() {
                assert(enc_string(t)[1 + k] == escape(t)[k]);
            } else {
                assert(enc_string(t)[1 + k] == '"');
            }
        }
    }
    lemma_parse_content_enc(s, i + 1, t);
}

/// A text that stands, written out, inside `s` splits into its two parts.
pub proof fn lemma_split_parts(s: Seq<char>, i: int, a: Seq<char>, b: Seq<char>)
    requires
        0 <= i,
        i + a.len() + b.len() <= s.len(),
        s.subrange(i, i + a.len() + b.len()) == a + b,
    ensures
        s.subrange(i, i + a.len() as int) == a,
        s.subrange(i + a.len() as int, i + a.len() + b.len()) == b,
{
    let l = a.len() as int;
    let m = b.len() as int;
    assert forall|k: int| 0 <= k < l + m implies #[trigger] s[i + k] == (a + b)[k] by {
        assert(s.subrange(i, i + l + m)[k] == s[i + k]);
    }
    assert(s.subrange(i, i + l) =~= a) by {
        assert forall|k: int| 0 <= k < l implies s.subrange(i, i + l)[k] == a[k] by {
            assert(s.subrange(i, i + l)[k] == s[i + k]);
            assert((a + b)[k] == a[k]);
        }
    }
    assert(s.subrange(i + l, i + l + m) =~= b) by {
        assert forall|k: int| 0 <= k < m implies s.subrange(i + l, i + l + m)[k] == b[k] by {
            assert(s.subrange(i + l, i + l + m)[k] == s[i + l + k]);
            assert((a + b)[l + k] == b[k]);
        }
    }
}

// ---------------------------------------------------------------------
// values
// ---------------------------------------------------------------------
/// The written items of a list, separated by commas.
pub open spec fn enc_items(l: Seq<Seq<char>>) -> Seq<char>
    decreases l.len(),
{
    if l.len() == 0 {
        Seq::empty()
    } else if l.len() == 1 {
        enc_string(l[0])
    } else {
        enc_string(l[0]) + seq![','] + enc_items(l.drop_first())
    }
}

/// Appending an item appends its text after a comma.
pub proof fn lemma_enc_items_push(l: Seq<Seq<char>>, y: Seq<char>)
    requires
        l.len() >= 1,
    ensures
        enc_items(l.push(y)) == enc_items(l) + seq![','] + enc_string(y),
    decreases l.len(),
{
    if l.len() == 1 {
        assert(l.push(y).drop_first() =~= seq![y]);
        assert(enc_items(seq![y]) == enc_string(y));
        assert(enc_items(l.push(y)) =~= enc_items(l) + seq![','] + enc_string(y));
    } else {
        assert(l.push(y).drop_first() =~= l.drop_first().push(y));
        lemma_enc_items_push(l.drop_first(), y);
        assert(enc_items(l.push(y)) =~= enc_items(l) + seq![','] + enc_string(y));
    }
}

/// The written form of a list of texts.
pub open spec fn enc_list(l: Seq<Seq<char>>) -> Seq<char> {
    seq!['['] + enc_items(l) + seq![']']
}

/// The written form of a field value.
pub open spec fn enc_value(v: ValV) -> Seq<char> {
    match v {
        ValV::Text(t) => enc_string(t),
        ValV::Amount(m) => enc_money(m),
        ValV::List(l) => enc_list(l),
    }
}

/// Appends the written form of a value to `out`.
pub fn enc_value_into(out: &mut Vec<char>, v: &PValue)
    requires
        wf_val(v@),
    ensures
        final(out)@ == old(out)@ + enc_value(v@),
{
    match v {
        PValue::Text(t) => {
            let cs = crate::text::to_chars(t.as_str());
            enc_string_into(out, cs.as_slice());
        },
        PValue::Amount(m) => {
            let cs = money_to_chars(*m);
            push_all(out, cs.as_slice());
        },
        PValue::List(l) => {
            out.push('[');
            let ghost lv = l@.map_values(|x: String| x@);
            let n = l.len();
            let mut i: usize = 0;
            while i < n
                invariant
                    i <= n,
                    n == l@.len(),
                    lv == l@.map_values(|x: String| x@),
                    lv.len() == n,
                    out@ == old(out)@ + seq!['['] + enc_items(lv.subrange(0, i as int)),
                decreases n - i,
            {
                if i > 0 {
                    out.push(',');
                }
                let cs = crate::text::to_chars(l[i].as_str());
                enc_string_into(out, cs.as_slice());
                proof {
                    let pre = lv.subrange(0, i as int);
                    assert(lv.subrange(0, i as int + 1) =~= pre.push(lv[i as int]));
                    assert(lv[i as int] == l@[i as int]@);
                    if i > 0 {
                        lemma_enc_items_push(pre, lv[i as int]);
                        assert(out@ =~= old(out)@ + seq!['['] + enc_items(
                            lv.subrange(0, i as int + 1),
                        ));
                    } else {
                        assert(pre.push(lv[i as int]) =~= seq![lv[i as int]]);
                        assert(enc_items(seq![lv[i as int]]) == enc_string(lv[i as int]));
                        assert(out@ =~= old(out)@ + seq!['['] + enc_items(
                            lv.subrange(0, i as int + 1),
                        ));
                    }
                }
                i += 1;
            }
            out.push(']');
            proof {
                assert(lv.subrange(0, n as int) =~= lv);
                assert(out@ =~= old(out)@ + enc_list(lv));
            }
        },
    }
}

/// Reads the items of a list after its opening bracket, up to and past the
/// closing bracket.
pub open spec fn spec_parse_items(s: Seq<char>, i: int) -> Option<(Seq<Seq<char>>, int)>
    decreases s.len() - i when 0 <= i <= s.len()
{
    match spec_parse_string(s, i) {
        None => None,
        Some((t, j)) => {
            if i < j < s.len() {
                if s[j] == ',' {
                    match spec_parse_items(s, j + 1) {
                        None => None,
                        Some((ts, k)) => Some((seq![t] + ts, k)),
                    }
                } else if s[j] == ']' {
                    Some((seq![t], j + 1))
                } else {
                    None
                }
            } else {
                None
            }
        },
    }
}

/// Reads a whole list, brackets included.
pub open spec fn spec_parse_list(s: Seq<char>, i: int) -> Option<(Seq<Seq<char>>, int)> {
    if 0 <= i < s.len() && s[i] == '[' {
        if i + 1 < s.len() && s[i + 1] == ']' {
            Some((Seq::empty(), i + 2))
        } else {
            spec_parse_items(s, i + 1)
        }
    } else {
        None
    }
}

/// Reads a field value: a quoted text, a list, or a money amount.
pub open spec fn spec_parse_value(s: Seq<char>, i: int) -> Option<(ValV, int)> {
    if 0 <= i < s.len() {
        if s[i] == '"' {
            match spec_parse_string(s, i) {
                None => None,
                Some((t, j)) => Some((ValV::Text(t), j)),
            }
        } else if s[i] == '[' {
            match spec_parse_list(s, i) {
                None => None,
                Some((l, j)) => Some((ValV::List(l), j)),
            }
        } else {
            match spec_parse_money(s, i) {
                None => None,
                Some((m, j)) => Some((ValV::Amount(m), j)),
            }
        }
    } else {
        None
    }
}

/// Reads list items, mirroring `spec_parse_items`.
pub fn parse_items(s: &[char], i: usize) -> (r: Option<(Vec<String>, usize)>)
    requires
        i <= s@.len(),
    ensures
        match r {
            Some(p) => spec_parse_items(s@, i as int) == Some(
                (p.0@.map_values(|x: String| x@), p.1 as int),
            ) && i < p.1 <= s@.len(),
            None => spec_parse_items(s@, i as int).is_none(),
        },
    decreases s@.len() - i,
{
    match parse_string(s, i) {
        None => None,
        Some((t, j)) => {
            let ts = crate::text::from_chars(&t);
            if j < s.len() {
                let c = s[j];
                if c == ',' {
                    match parse_items(s, j + 1) {
                        None => None,
                        Some((rest, k)) => {
                            let mut v = rest;
                            v.insert(0, ts);
                            proof {
                                let f = |x: String| x@;
                                let rv = v@.remove(0);
                                assert(v@ =~= seq![ts] + rv);
                                assert(v@.map_values(f) =~= seq![t@] + rv.map_values(f));
                            }
                            Some((v, k))
                        },
                    }
                } else if c == ']' {
                    let mut v: Vec<String> = Vec::new();
                    v.push(ts);
                    proof {
                        let f = |x: String| x@;
                        assert(v@.map_values(f) =~= seq![t@]);
                    }
                    Some((v, j + 1))
                } else {
                    None
                }
            } else {
                None
            }
        },
    }
}

/// Reads a field value, mirroring `spec_parse_value`.
pub fn parse_value(s: &[char], i: usize) -> (r: Option<(PValue, usize)>)
    requires
        i <= s@.len(),
    ensures
        match r {
            Some(p) => spec_parse_value(s@, i as int) == Some((p.0@, p.1 as int)) && i < p.1
                <= s@.len() && wf_val(p.0@),
            None => spec_parse_value(s@, i as int).is_none(),
        },
{
    if i >= s.len() {
        return None;
    }
    let c = s[i];
    if c == '"' {
        match parse_string(s, i) {
            None => None,
            Some((t, j)) => Some((PValue::Text(crate::text::from_chars(&t)), j)),
        }
    } else if c == '[' {
        if i + 1 < s.len() && s[i + 1] == ']' {
            let v: Vec<String> = Vec::new();
            proof {
                let f = |x: String| x@;
                assert(v@.map_values(f) =~= Seq::<Seq<char>>::empty());
            }
            Some((PValue::List(v), i + 2))
        } else {
            match parse_items(s, i + 1) {
                None => None,
                Some((l, j)) => Some((PValue::List(l), j)),
            }
        }
    } else {
        match parse_money(s, i) {
            None => None,
            Some((m, j)) => Some((PValue::Amount(m), j)),
        }
    }
}

// ---------------------------------------------------------------------
// fields and whole payloads
// ---------------------------------------------------------------------
/// The written form of one field: key, colon, value.
pub open spec fn enc_field(f: (Seq<char>, ValV)) -> Seq<char> {
    enc_string(f.0) + seq![':'] + enc_value(f.1)
}

/// The written fields of a payload, separated by commas.
pub open spec fn enc_fields(fs: PayloadV) -> Seq<char>
    decreases fs.len(),
{
    if fs.len() == 0 {
        Seq::empty()
    } else if fs.len() == 1 {
        enc_field(fs[0])
    } else {
        enc_field(fs[0]) + seq![','] + enc_fields(fs.drop_first())
    }
}

/// Appending a field appends its text after a comma.
pub proof fn lemma_enc_fields_push(fs: PayloadV, y: (Seq<char>, ValV))
    requires
        fs.len() >= 1,
    ensures
        enc_fields(fs.push(y)) == enc_fields(fs) + seq![','] + enc_field(y),
    decreases fs.len(),
{
    if fs.len() == 1 {
        assert(fs.push(y).drop_first() =~= seq![y]);
        assert(enc_fields(seq![y]) == enc_field(y));
        assert(enc_fields(fs.push(y)) =~= enc_fields(fs) + seq![','] + enc_field(y));
    } else {
        assert(fs.push(y).drop_first() =~= fs.drop_first().push(y));
        lemma_enc_fields_push(fs.drop_first(), y);
        assert(enc_fields(fs.push(y)) =~= enc_fields(fs) + seq![','] + enc_field(y));
    }
}

/// The written form of a whole payload.
pub open spec fn enc_payload(fs: PayloadV) -> Seq<char> {
    seq!['{'] + enc_fields(fs) + seq!['}']
}

/// Renders a payload as one line of text.
pub fn encode_payload(p: &Payload) -> (r: Vec<char>)
    requires
        wf_payload(p@),
    ensures
        r@ == enc_payload(p@),
{
    let mut out: Vec<char> = Vec::new();
    out.push('{');
    let n = p.fields.len();
    let ghost pv = p@;
    let mut i: usize = 0;
    while i < n
        invariant
            i <= n,
            n == p.fields@.len(),
            pv == p@,
            pv.len() == n,
            wf_payload(pv),
            out@ == seq!['{'] + enc_fields(pv.subrange(0, i as int)),
        decreases n - i,
    {
        if i > 0 {
            out.push(',');
        }
        let key = crate::text::to_chars(p.fields[i].0.as_str());
        enc_string_into(&mut out, key.as_slice());
        out.push(':');
        proof {
            assert(pv[i as int].1 == p.fields@[i as int].1@);
            assert(wf_val(pv[i as int].1));
        }
        enc_value_into(&mut out, &p.fields[i].1);
        proof {
            let pre = pv.subrange(0, i as int);
            assert(pv.subrange(0, i as int + 1) =~= pre.push(pv[i as int]));
            assert(pv[i as int].0 == p.fields@[i as int].0@);
            if i > 0 {
                lemma_enc_fields_push(pre, pv[i as int]);
                assert(out@ =~= seq!['{'] + enc_fields(pv.subrange(0, i as int + 1)));
            } else {
                assert(pre.push(pv[i as int]) =~= seq![pv[i as int]]);
                assert(enc_fields(seq![pv[i as int]]) == enc_field(pv[i as int]));
                assert(out@ =~= seq!['{'] + enc_fields(pv.subrange(0, i as int + 1)));
            }
        }
        i += 1;
    }
    out.push('}');
    proof {
        assert(pv.subrange(0, n as int) =~= pv);
        assert(out@ =~= enc_payload(pv));
    }
    out
}

/// Reads one field: key, colon, value.
pub open spec fn spec_parse_field(s: Seq<char>, i: int) -> Option<((Seq<char>, ValV), int)> {
    match spec_parse_string(s, i) {
        None => None,
        Some((k, j)) => {
            if i < j < s.len() && s[j] == ':' {
                match spec_parse_value(s, j + 1) {
                    None => None,
                    Some((v, e)) => Some(((k, v), e)),
                }
            } else {
                None
            }
        },
    }
}

/// Reads the fields of a payload after its opening brace, up to and past
/// the closing brace.
pub open spec fn spec_parse_fields(s: Seq<char>, i: int) -> Option<(PayloadV, int)>
    decreases s.len() - i when 0 <= i <= s.len()
{
    match spec_parse_field(s, i) {
        None => None,
        Some((f, j)) => {
            if i < j < s.len() {
                if s[j] == ',' {
                    match spec_parse_fields(s, j + 1) {
                        None => None,
                        Some((fs, k)) => Some((seq![f] + fs, k)),
                    }
                } else if s[j] == '}' {
                    Some((seq![f], j + 1))
                } else {
                    None
                }
            } else {
                None
            }
        },
    }
}

/// Reads a whole payload text; the text must be consumed entirely.
pub open spec fn spec_parse_payload(s: Seq<char>) -> Option<PayloadV> {
    if s.len() >= 2 && s[0] == '{' && s[1] == '}' {
        if s.len() == 2 {
            Some(Seq::empty())
        } else {
            None
        }
    } else if s.len() >= 1 && s[0] == '{' {
        match spec_parse_fields(s, 1) {
            None => None,
            Some((fs, j)) => {
                if j == s.len() {
                    Some(fs)
                } else {
                    None
                }
            },
        }
    } else {
        None
    }
}

/// Reads one field, mirroring `spec_parse_field`.
pub fn parse_field(s: &[char], i: usize) -> (r: Option<((String, PValue), usize)>)
    requires
        i <= s@.len(),
    ensures
        match r {
            Some(p) => spec_parse_field(s@, i as int) == Some(
                ((p.0.0@, p.0.1@), p.1 as int),
            ) && i < p.1 <= s@.len() && wf_val(p.0.1@),
            None => spec_parse_field(s@, i as int).is_none(),
        },
{
    match parse_string(s, i) {
        None => None,
        Some((k, j)) => {
            if j < s.len() && s[j] == ':' {
                match parse_value(s, j + 1) {
                    None => None,
                    Some((v, e)) => Some(((crate::text::from_chars(&k), v), e)),
                }
            } else {
                None
            }
        },
    }
}

/// Reads payload fields, mirroring `spec_parse_fields`.
pub fn parse_fields(s: &[char], i: usize) -> (r: Option<(Vec<(String, PValue)>, usize)>)
    requires
        i <= s@.len(),
    ensures
        match r {
            Some(p) => {
                &&& spec_parse_fields(s@, i as int) == Some(
                    (p.0@.map_values(|f: (String, PValue)| (f.0@, f.1@)), p.1 as int),
                )
                &&& i < p.1 <= s@.len()
                &&& wf_payload(p.0@.map_values(|f: (String, PValue)| (f.0@, f.1@)))
            },
            None => spec_parse_fields(s@, i as int).is_none(),
        },
    decreases s@.len() - i,
{
    match parse_field(s, i) {
        None => None,
        Some((f, j)) => {
            if j < s.len() {
                let c = s[j];
                if c == ',' {
                    match parse_fields(s, j + 1) {
                        None => None,
                        Some((rest, k)) => {
                            let ghost fv = (f.0@, f.1@);
                            let ghost restv = rest@.map_values(|x: (String, PValue)| (x.0@, x.1@));
                            let mut v = rest;
                            v.insert(0, f);
                            proof {
                                let g = |x: (String, PValue)| (x.0@, x.1@);
                                let rv = v@.remove(0);
                                assert(v@ =~= seq![(v@[0])] + rv);
                                assert(v@.map_values(g) =~= seq![fv] + rv.map_values(g));
                                assert(rv.map_values(g) =~= restv);
                                let whole = v@.map_values(g);
                                assert(wf_payload(whole)) by {
                                    assert forall|q: int|
                                        0 <= q < whole.len() implies wf_val(
                                        #[trigger] whole[q].1,
                                    ) by {
                                        if q == 0 {
                                            assert(whole[q] == fv);
                                        } else {
                                            assert(whole[q] == restv[q - 1]);
                                            assert(wf_val(restv[q - 1].1));
                                        }
                                    }
                                }
                            }
                            Some((v, k))
                        },
                    }
                } else if c == '}' {
                    let ghost fv = (f.0@, f.1@);
                    let mut v: Vec<(String, PValue)> = Vec::new();
                    v.push(f);
                    proof {
                        let g = |x: (String, PValue)| (x.0@, x.1@);
                        assert(v@.map_values(g) =~= seq![fv]);
                        let whole = v@.map_values(g);
                        assert(wf_payload(whole)) by {
                            assert forall|q: int|
                                0 <= q < whole.len() implies wf_val(#[trigger] whole[q].1) by {
                                assert(whole[q] == fv);
                            }
                        }
                    }
                    Some((v, j + 1))
                } else {
                    None
                }
            } else {
                None
            }
        },
    }
}

/// Reads a whole payload line; `None` when the text is not exactly one
/// well-formed payload.
pub fn parse_payload(s: &[char]) -> (r: Option<Payload>)
    ensures
        match r {
            Some(p) => spec_parse_payload(s@) == Some(p@) && wf_payload(p@),
            None => spec_parse_payload(s@).is_none(),
        },
{
    if s.len() >= 2 && s[0] == '{' && s[1] == '}' {
        if s.len() == 2 {
            let v: Vec<(String, PValue)> = Vec::new();
            let p = Payload { fields: v };
            proof {
                let g = |x: (String, PValue)| (x.0@, x.1@);
                assert(p@ =~= Seq::<(Seq<char>, ValV)>::empty());
            }
            Some(p)
        } else {
            None
        }
    } else if s.len() >= 1 && s[0] == '{' {
        match parse_fields(s, 1) {
            None => None,
            Some((fs, j)) => {
                if j == s.len() {
                    Some(Payload { fields: fs })
                } else {
                    None
                }
            },
        }
    } else {
        None
    }
}

// ---------------------------------------------------------------------
// the round trip
// ---------------------------------------------------------------------
/// Reading a written value inverts rendering.
pub proof fn lemma_parse_value_enc(s: Seq<char>, i: int, v: ValV)
    requires
        wf_val(v),
        0 <= i,
        i + enc_value(v).len() <= s.len(),
        s.subrange(i, i + enc_value(v).len() as int) == enc_value(v),
    ensures
        spec_parse_value(s, i) == Some((v, i + enc_value(v).len() as int)),
    decreases (match v {
        ValV::List(l) => l.len() + 1,
        _ => 0,
    }),
{
    let l = enc_value(v).len() as int;
    assert forall|k: int| 0 <= k < l implies #[trigger] s[i + k] == enc_value(v)[k] by {
        assert(s.subrange(i, i + l)[k] == s[i + k]);
    }
    match v {
        ValV::Text(t) => {
            lemma_parse_string_enc(s, i, t);
            assert(s[i + 0] == enc_value(v)[0]);
            assert(s[i] == '"');
        },
        ValV::Amount(m) => {
            crate::numtext::lemma_parse_money_enc(s, i, m);
            assert(s[i + 0] == enc_value(v)[0]);
            if m < 0 {
                assert(s[i] == '-');
            } else {
                crate::numtext::lemma_digits_of_val((m as nat) / 100);
                assert(enc_money(m)[0] == crate::numtext::digits_of((m as nat) / 100)[0]);
                assert(is_digit(s[i]));
            }
            assert(s[i] != '"' && s[i] != '[');
        },
        ValV::List(items) => {
            assert(s[i + 0] == enc_value(v)[0]);
            assert(s[i] == '[');
            if items.len() == 0 {
                assert(enc_items(items) =~= Seq::<char>::empty());
                assert(s[i + 1] == enc_value(v)[1]);
                assert(s[i + 1] == ']');
                assert(spec_parse_list(s, i) == Some((Seq::<Seq<char>>::empty(), i + 2)));
                assert(items =~= Seq::<Seq<char>>::empty());
                assert(v == ValV::List(Seq::<Seq<char>>::empty()));
            } else {
                let body = enc_items(items) + seq![']'];
                assert(s.subrange(i + 1, i + 1 + body.len() as int) =~= body) by {
                    assert forall|k: int|
                        0 <= k < body.len() implies s.subrange(
                        i + 1,
                        i + 1 + body.len() as int,
                    )[k] == body[k] by {
                        assert(s.subrange(i + 1, i + 1 + body.len() as int)[k] == s[i + 1 + k]);
                        assert(s[i + 1 + k] == enc_value(v)[1 + k]);
                        assert(enc_value(v) == seq!['['] + enc_items(items) + seq![']']);
                        if k < enc_items(items).len() {
                            assert(enc_value(v)[1 + k] == enc_items(items)[k]);
                            assert(body[k] == enc_items(items)[k]);
                        } else {
                            assert(enc_value(v)[1 + k] == ']');
                            assert(body[k] == ']');
                        }
                    }
                }
                lemma_parse_items_enc(s, i + 1, items);
                // the first item's opening quote keeps the empty-list
                // branch from firing
                assert(enc_items(items)[0int] == enc_string(items[0int])[0int]);
                assert(s[i + 1 + 0] == enc_value(v)[1int + 0int]);
                assert(s[i + 1] == '"');
            }
        },
    }
}

/// Reading written list items inverts rendering.
pub proof fn lemma_parse_items_enc(s: Seq<char>, i: int, items: Seq<Seq<char>>)
    requires
        items.len() >= 1,
        0 <= i,
        i + enc_items(items).len() + 1 <= s.len(),
        s.subrange(i, i + enc_items(items).len() + 1) == enc_items(items) + seq![']'],
    ensures
        spec_parse_items(s, i) == Some((items, i + enc_items(items).len() + 1)),
    decreases items.len(),
{
    let t = items[0];
    let l = enc_items(items).len() as int;
    assert forall|k: int| 0 <= k < l + 1 implies #[trigger] s[i + k] == (enc_items(items) + seq![']'])[k] by {
        assert(s.subrange(i, i + l + 1)[k] == s[i + k]);
    }
    if items.len() == 1 {
        assert(enc_items(items) == enc_string(t));
        assert(s.subrange(i, i + enc_string(t).len() as int) =~= enc_string(t)) by {
            assert forall|k: int|
                0 <= k < enc_string(t).len() implies s.subrange(
                i,
                i + enc_string(t).len() as int,
            )[k] == enc_string(t)[k] by {
                assert(s.subrange(i, i + enc_string(t).len() as int)[k] == s[i + k]);
            }
        }
        lemma_parse_string_enc(s, i, t);
        assert(s[i + l] == (enc_items(items) + seq![']'])[l]);
        assert(s[i + l] == ']');
        assert(items =~= seq![t]);
    } else {
        let rest = items.drop_first();
        assert(enc_items(items) == enc_string(t) + seq![','] + enc_items(rest));
        let sl = enc_string(t).len() as int;
        assert(s.subrange(i, i + sl) =~= enc_string(t)) by {
            assert forall|k: int| 0 <= k < sl implies s.subrange(i, i + sl)[k] == enc_string(
                t,
            )[k] by {
                assert(s.subrange(i, i + sl)[k] == s[i + k]);
                assert((enc_string(t) + seq![','] + enc_items(rest))[k] == enc_string(t)[k]);
            }
        }
        lemma_parse_string_enc(s, i, t);
        assert(s[i + sl] == (enc_items(items) + seq![']'])[sl]);
        assert(s[i + sl] == (enc_string(t) + seq![','] + enc_items(rest))[sl]);
        assert(s[i + sl] == ',');
        assert(s.subrange(i + sl + 1, i + sl + 1 + enc_items(rest).len() + 1) =~= enc_items(
            rest,
        ) + seq![']']) by {
            assert forall|k: int|
                0 <= k < enc_items(rest).len() + 1 implies s.subrange(
                i + sl + 1,
                i + sl + 1 + enc_items(rest).len() + 1,
            )[k] == (enc_items(rest) + seq![']'])[k] by {
                assert(s.subrange(i + sl + 1, i + sl + 1 + enc_items(rest).len() + 1)[k] == s[i
                    + sl + 1 + k]);
                if k < enc_items(rest).len() {
                    assert((enc_items(items) + seq![']'])[sl + 1 + k] == enc_items(rest)[k]);
                } else {
                    assert((enc_items(items) + seq![']'])[sl + 1 + k] == ']');
                }
            }
        }
        lemma_parse_items_enc(s, i + sl + 1, rest);
        assert(seq![t] + rest =~= items);
    }
}

/// Reading a written field inverts rendering.
pub proof fn lemma_parse_field_enc(s: Seq<char>, i: int, f: (Seq<char>, ValV))
    requires
        wf_val(f.1),
        0 <= i,
        i + enc_field(f).len() <= s.len(),
        s.subrange(i, i + enc_field(f).len() as int) == enc_field(f),
    ensures
        spec_parse_field(s, i) == Some((f, i + enc_field(f).len() as int)),
{
    let l = enc_field(f).len() as int;
    let kl = enc_string(f.0).len() as int;
    assert forall|k: int| 0 <= k < l implies #[trigger] s[i + k] == enc_field(f)[k] by {
        assert(s.subrange(i, i + l)[k] == s[i + k]);
    }
    assert(s.subrange(i, i + kl) =~= enc_string(f.0)) by {
        assert forall|k: int| 0 <= k < kl implies s.subrange(i, i + kl)[k] == enc_string(
            f.0,
        )[k] by {
            assert(s.subrange(i, i + kl)[k] == s[i + k]);
            assert(enc_field(f)[k] == enc_string(f.0)[k]);
        }
    }
    lemma_parse_string_enc(s, i, f.0);
    assert(s[i + kl] == enc_field(f)[kl]);
    assert(s[i + kl] == ':');
    assert(s.subrange(i + kl + 1, i + kl + 1 + enc_value(f.1).len() as int) =~= enc_value(f.1))
        by {
        assert forall|k: int|
            0 <= k < enc_value(f.1).len() implies s.subrange(
            i + kl + 1,
            i + kl + 1 + enc_value(f.1).len() as int,
        )[k] == enc_value(f.1)[k] by {
            assert(s.subrange(i + kl + 1, i + kl + 1 + enc_value(f.1).len() as int)[k] == s[i + kl
                + 1 + k]);
            assert(enc_field(f)[kl + 1 + k] == enc_value(f.1)[k]);
        }
    }
    lemma_parse_value_enc(s, i + kl + 1, f.1);
}

/// Reading written fields inverts rendering.
pub proof fn lemma_parse_fields_enc(s: Seq<char>, i: int, fs: PayloadV)
    requires
        wf_payload(fs),
        fs.len() >= 1,
        0 <= i,
        i + enc_fields(fs).len() + 1 <= s.len(),
        s.subrange(i, i + enc_fields(fs).len() + 1) == enc_fields(fs) + seq!['}'],
    ensures
        spec_parse_fields(s, i) == Some((fs, i + enc_fields(fs).len() + 1)),
    decreases fs.len(),
{
    let f = fs[0];
    let l = enc_fields(fs).len() as int;
    assert(wf_val(fs[0].1));
    assert forall|k: int| 0 <= k < l + 1 implies #[trigger] s[i + k] == (enc_fields(fs) + seq!['}'])[k] by {
        assert(s.subrange(i, i + l + 1)[k] == s[i + k]);
    }
    if fs.len() == 1 {
        assert(enc_fields(fs) == enc_field(f));
        assert(s.subrange(i, i + enc_field(f).len() as int) =~= enc_field(f)) by {
            assert forall|k: int|
                0 <= k < enc_field(f).len() implies s.subrange(
                i,
                i + enc_field(f).len() as int,
            )[k] == enc_field(f)[k] by {
                assert(s.subrange(i, i + enc_field(f).len() as int)[k] == s[i + k]);
            }
        }
        lemma_parse_field_enc(s, i, f);
        assert(s[i + l] == (enc_fields(fs) + seq!['}'])[l]);
        assert(s[i + l] == '}');
        assert(fs =~= seq![f]);
    } else {
        let rest = fs.drop_first();
        assert(wf_payload(rest)) by {
            assert(forall|k: int| 0 <= k < rest.len() ==> rest[k] == fs[k + 1]);
        }
        assert(enc_fields(fs) == enc_field(f) + seq![','] + enc_fields(rest));
        let fl = enc_field(f).len() as int;
        assert(s.subrange(i, i + fl) =~= enc_field(f)) by {
            assert forall|k: int| 0 <= k < fl implies s.subrange(i, i + fl)[k] == enc_field(
                f,
            )[k] by {
                assert(s.subrange(i, i + fl)[k] == s[i + k]);
                assert((enc_field(f) + seq![','] + enc_fields(rest))[k] == enc_field(f)[k]);
            }
        }
        lemma_parse_field_enc(s, i, f);
        assert(s[i + fl] == (enc_fields(fs) + seq!['}'])[fl]);
        assert(s[i + fl] == (enc_field(f) + seq![','] + enc_fields(rest))[fl]);
        assert(s[i + fl] == ',');
        assert(s.subrange(i + fl + 1, i + fl + 1 + enc_fields(rest).len() + 1) =~= enc_fields(
            rest,
        ) + seq!['}']) by {
            assert forall|k: int|
                0 <= k < enc_fields(rest).len() + 1 implies s.subrange(
                i + fl + 1,
                i + fl + 1 + enc_fields(rest).len() + 1,
            )[k] == (enc_fields(rest) + seq!['}'])[k] by {
                assert(s.subrange(i + fl + 1, i + fl + 1 + enc_fields(rest).len() + 1)[k] == s[i
                    + fl + 1 + k]);
                if k < enc_fields(rest).len() {
                    assert((enc_fields(fs) + seq!['}'])[fl + 1 + k] == enc_fields(rest)[k]);
                } else {
                    assert((enc_fields(fs) + seq!['}'])[fl + 1 + k] == '}');
                }
            }
        }
        lemma_parse_fields_enc(s, i + fl + 1, rest);
        assert(seq![f] + rest =~= fs);
    }
}

/// Reading a written payload yields the payload back: the codec's round
/// trip.
pub proof fn lemma_parse_payload_enc(fs: PayloadV)
    requires
        wf_payload(fs),
    ensures
        spec_parse_payload(enc_payload(fs)) == Some(fs),
{
    let s = enc_payload(fs);
    assert(s[0] == '{');
    if fs.len() == 0 {
        assert(enc_fields(fs) =~= Seq::<char>::empty());
        assert(s.len() == 2);
        assert(s[1] == '}');
        assert(spec_parse_payload(s) == Some(Seq::<(Seq<char>, ValV)>::empty()));
        assert(fs =~= Seq::<(Seq<char>, ValV)>::empty());
    } else {
        let l = enc_fields(fs).len() as int;
        assert(s.len() == l + 2);
        assert(s.subrange(1, 1 + l + 1) =~= enc_fields(fs) + seq!['}']) by {
            assert forall|k: int|
                0 <= k < l + 1 implies s.subrange(1, 1 + l + 1)[k] == (enc_fields(fs)
                + seq!['}'])[k] by {
                assert(s.subrange(1, 1 + l + 1)[k] == s[1 + k]);
                if k < l {
                    assert(s[1 + k] == enc_fields(fs)[k]);
                } else {
                    assert(s[1 + k] == '}');
                }
            }
        }
        lemma_parse_fields_enc(s, 1, fs);
        // a nonempty payload never renders as the empty-object text
        assert(enc_fields(fs)[0] == enc_field(fs[0])[0]);
        assert(enc_field(fs[0])[0] == enc_string(fs[0].0)[0]);
        assert(s[1] == enc_fields(fs)[0]);
        assert(s[1] == '"');
    }
}

// ---------------------------------------------------------------------
// payload text stays on one line
// ---------------------------------------------------------------------
/// Escaped text never holds a line break.
pub proof fn lemma_escape_no_nl(s: Seq<char>)
    ensures
        crate::text::no_nl(escape(s)),
    decreases s.len(),
{
    if s.len() > 0 {
        lemma_escape_no_nl(s.drop_first());
        assert(crate::text::no_nl(esc_char(s[0]))) by {
            if s[0] == '"' || s[0] == '\\' || s[0] == '\n' {
            } else {
                assert(esc_char(s[0]) == seq![s[0]]);
            }
        }
        crate::text::lemma_no_nl_concat(esc_char(s[0]), escape(s.drop_first()));
    }
}

/// Quoted text never holds a line break.
pub proof fn lemma_enc_string_no_nl(s: Seq<char>)
    ensures
        crate::text::no_nl(enc_string(s)),
{
    lemma_escape_no_nl(s);
    crate::text::lemma_no_nl_concat(seq!['"'], escape(s));
    crate::text::lemma_no_nl_concat(seq!['"'] + escape(s), seq!['"']);
}

/// Written list items never hold a line break.
pub proof fn lemma_enc_items_no_nl(l: Seq<Seq<char>>)
    ensures
        crate::text::no_nl(enc_items(l)),
    decreases l.len(),
{
    if l.len() == 0 {
    } else if l.len() == 1 {
        lemma_enc_string_no_nl(l[0]);
    } else {
        lemma_enc_string_no_nl(l[0]);
        lemma_enc_items_no_nl(l.drop_first());
        crate::text::lemma_no_nl_concat(enc_string(l[0]), seq![',']);
        crate::text::lemma_no_nl_concat(enc_string(l[0]) + seq![','], enc_items(l.drop_first()));
    }
}

/// A written value never holds a line break.
pub proof fn lemma_enc_value_no_nl(v: ValV)
    ensures
        crate::text::no_nl(enc_value(v)),
{
    match v {
        ValV::Text(t) => lemma_enc_string_no_nl(t),
        ValV::Amount(m) => crate::numtext::lemma_enc_money_no_nl(m),
        ValV::List(l) => {
            lemma_enc_items_no_nl(l);
            crate::text::lemma_no_nl_concat(seq!['['], enc_items(l));
            crate::text::lemma_no_nl_concat(seq!['['] + enc_items(l), seq![']']);
        },
    }
}

/// Written fields never hold a line break.
pub proof fn lemma_enc_fields_no_nl(fs: PayloadV)
    ensures
        crate::text::no_nl(enc_fields(fs)),
    decreases fs.len(),
{
    if fs.len() == 0 {
    } else {
        lemma_enc_string_no_nl(fs[0].0);
        lemma_enc_value_no_nl(fs[0].1);
        crate::text::lemma_no_nl_concat(enc_string(fs[0].0), seq![':']);
        crate::text::lemma_no_nl_concat(enc_string(fs[0].0) + seq![':'], enc_value(fs[0].1));
        if fs.len() > 1 {
            lemma_enc_fields_no_nl(fs.drop_first());
            crate::text::lemma_no_nl_concat(enc_field(fs[0]), seq![',']);
            crate::text::lemma_no_nl_concat(
                enc_field(fs[0]) + seq![','],
                enc_fields(fs.drop_first()),
            );
        }
    }
}

/// A written payload never holds a line break: a row stays one line.
pub proof fn lemma_enc_payload_no_nl(fs: PayloadV)
    ensures
        crate::text::no_nl(enc_payload(fs)),
{
    lemma_enc_fields_no_nl(fs);
    crate::text::lemma_no_nl_concat(seq!['{'], enc_fields(fs));
    crate::text::lemma_no_nl_concat(seq!['{'] + enc_fields(fs), seq!['}']);
}

// ---------------------------------------------------------------------
// reading and building fields
// ---------------------------------------------------------------------
/// The first value stored under `key`, if any.
pub open spec fn spec_get(p: PayloadV, key: Seq<char>) -> Option<ValV>
    decreases p.len(),
{
    if p.len() == 0 {
        None
    } else if p[0].0 == key {
        Some(p[0].1)
    } else {
        spec_get(p.drop_first(), key)
    }
}

pub proof fn lemma_spec_get_at(p: PayloadV, key: Seq<char>, i: int)
    requires
        0 <= i < p.len(),
        p[i].0 == key,
        forall|j: int| 0 <= j < i ==> p[j].0 != key,
    ensures
        spec_get(p, key) == Some(p[i].1),
    decreases i,
{
    if i > 0 {
        lemma_spec_get_at(p.drop_first(), key, i - 1);
    }
}

pub proof fn lemma_spec_get_none(p: PayloadV, key: Seq<char>)
    requires
        forall|j: int| 0 <= j < p.len() ==> p[j].0 != key,
    ensures
        spec_get(p, key).is_none(),
    decreases p.len(),
{
    if p.len() > 0 {
        lemma_spec_get_none(p.drop_first(), key);
    }
}

/// Looking a key up past an appended field: the earlier fields win.
pub proof fn lemma_spec_get_push(p: PayloadV, x: (Seq<char>, ValV), k: Seq<char>)
    ensures
        spec_get(p.push(x), k) == (if spec_get(p, k) is Some {
            spec_get(p, k)
        } else if x.0 == k {
            Some(x.1)
        } else {
            None
        }),
    decreases p.len(),
{
    if p.len() == 0 {
        assert(p.push(x).drop_first() =~= Seq::<(Seq<char>, ValV)>::empty());
        assert(p.push(x)[0] == x);
    } else {
        assert(p.push(x).drop_first() =~= p.drop_first().push(x));
        assert(p.push(x)[0] == p[0]);
        lemma_spec_get_push(p.drop_first(), x, k);
    }
}

impl Payload {
    /// An empty payload.
    pub fn new() -> (r: Payload)
        ensures
            r@ == Seq::<(Seq<char>, ValV)>::empty(),
            wf_payload(r@),
    {
        let p = Payload { fields: Vec::new() };
        proof {
            assert(p@ =~= Seq::<(Seq<char>, ValV)>::empty());
        }
        p
    }

    /// The first value stored under `key`.
    pub fn get<'a>(&'a self, key: &str) -> (r: Option<&'a PValue>)
        ensures
            match r {
                Some(v) => spec_get(self@, key@) == Some(v@),
                None => spec_get(self@, key@).is_none(),
            },
    {
        let kc = crate::text::to_chars(key);
        let n = self.fields.len();
        let mut i: usize = 0;
        while i < n
            invariant
                i <= n,
                n == self.fields@.len(),
                kc@ == key@,
                forall|j: int| 0 <= j < i ==> self@[j].0 != key@,
            decreases n - i,
        {
            let fc = crate::text::to_chars(self.fields[i].0.as_str());
            if crate::text::chars_eq(fc.as_slice(), kc.as_slice()) {
                proof {
                    assert(self@[i as int].0 == key@);
                    lemma_spec_get_at(self@, key@, i as int);
                }
                return Some(&self.fields[i].1);
            }
            proof {
                assert(self@[i as int].0 != key@);
            }
            i += 1;
        }
        proof {
            lemma_spec_get_none(self@, key@);
        }
        None
    }

    /// Appends a text field.
    pub fn add_text(&mut self, key: &str, val: String)
        ensures
            final(self)@ == old(self)@.push((key@, ValV::Text(val@))),
    {
        let ghost vv = val@;
        self.fields.push((key.to_owned(), PValue::Text(val)));
        proof {
            assert(self@ =~= old(self)@.push((key@, ValV::Text(vv))));
        }
    }

    /// Appends a money field.
    pub fn add_amount(&mut self, key: &str, val: i64)
        ensures
            final(self)@ == old(self)@.push((key@, ValV::Amount(val as int))),
    {
        self.fields.push((key.to_owned(), PValue::Amount(val)));
        proof {
            assert(self@ =~= old(self)@.push((key@, ValV::Amount(val as int))));
        }
    }

    /// Appends a list field.
    pub fn add_list(&mut self, key: &str, val: Vec<String>)
        ensures
            final(self)@ == old(self)@.push(
                (key@, ValV::List(val@.map_values(|x: String| x@))),
            ),
    {
        let ghost vv = val@.map_values(|x: String| x@);
        self.fields.push((key.to_owned(), PValue::List(val)));
        proof {
            assert(self@ =~= old(self)@.push((key@, ValV::List(vv))));
        }
    }
}

} // verus!
