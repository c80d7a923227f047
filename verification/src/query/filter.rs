//! Value filters of queries: a regular expression, an SQL-like wildcard
//! pattern, or a comparison with a value.
use vstd::prelude::*;
use crate::graph::value::{Value, ValueV};
use crate::graph::quad::QuadStore;
use crate::graph::iterator::Shape as IterShape;
use crate::graph::iterator::Null as IterNull;
use crate::graph::iterator::Error as IterError;
use crate::graph::iterator::value_filter::{RegexValueFilter, ComparisonValueFilter, ValueFilter as IterValueFilter, ValueFilters as IterValueFilters, Operator, regex_valid};
use crate::strutil::{chars_of, string_from_chars, string_of};

verus! {

/// The characters that carry a meaning in a regular expression.
pub open spec fn is_meta(c: char) -> bool {
    c == '\\' || c == '.' || c == '+' || c == '*' || c == '?' || c == '(' || c == ')' || c == '|'
        || c == '[' || c == ']' || c == '{' || c == '}' || c == '^' || c == '$'
}

/// `s` with a backslash before each character that means something in a
/// regular expression.
pub open spec fn quote_meta_spec(s: Seq<char>) -> Seq<char>
    decreases s.len(),
{
    if s.len() == 0 {
        Seq::empty()
    } else {
        quote_meta_spec(s.drop_last()) + if is_meta(s.last()) { seq!['\\', s.last()] } else { seq![s.last()] }
    }
}

/// `s` without the leading characters `c`.
pub open spec fn trim_start_spec(s: Seq<char>, c: char) -> Seq<char>
    decreases s.len(),
{
    if s.len() > 0 && s[0] == c {
        trim_start_spec(s.drop_first(), c)
    } else {
        s
    }
}

/// `s` without the trailing characters `c`.
pub open spec fn trim_end_spec(s: Seq<char>, c: char) -> Seq<char>
    decreases s.len(),
{
    if s.len() > 0 && s.last() == c {
        trim_end_spec(s.drop_last(), c)
    } else {
        s
    }
}

/// `s` with each occurrence of `pat` replaced by `rep`, scanning from the
/// left and not overlapping (as `str::replace` does).
pub open spec fn replace_spec(s: Seq<char>, pat: Seq<char>, rep: Seq<char>) -> Seq<char>
    decreases s.len(),
{
    if pat.len() == 0 || s.len() == 0 {
        s
    } else if pat.len() <= s.len() && s.subrange(0, pat.len() as int) == pat {
        rep + replace_spec(s.skip(pat.len() as int), pat, rep)
    } else {
        seq![s[0]] + replace_spec(s.skip(1), pat, rep)
    }
}

/// The regular expression of a wildcard pattern: the pattern is quoted, is
/// anchored at each end that does not start (or end) with `%`, those `%`
/// are dropped, each other `%` matches any text and each `?` any one
/// character.
pub open spec fn wildcard_regexp(p: Seq<char>) -> Seq<char> {
    let q = quote_meta_spec(p);
    let a = if q.len() > 0 && q[0] == '%' { trim_start_spec(q, '%') } else { seq!['^'] + q };
    let b = if a.len() > 0 && a.last() == '%' { trim_end_spec(a, '%') } else { a + seq!['$'] };
    let c = replace_spec(b, seq!['%'], seq!['.', '*']);
    replace_spec(c, seq!['\\', '?'], seq!['.'])
}

/// Quotes the characters of `s` that mean something in a regular expression.
pub fn quote_meta(s: &String) -> (r: String)
    ensures
        r@ == quote_meta_spec(s@),
{
    let v = chars_of(s.as_str());
    let mut out: Vec<char> = Vec::new();
    let mut i: usize = 0;
    while i < v.len()
        invariant
            i <= v@.len(),
            v@ == s@,
            out@ == quote_meta_spec(v@.take(i as int)),
        decreases v@.len() - i,
    {
        let c = v[i];
        proof {
            assert(v@.take(i + 1).drop_last() =~= v@.take(i as int));
        }
        if c == '\\' || c == '.' || c == '+' || c == '*' || c == '?' || c == '(' || c == ')' || c == '|'
            || c == '[' || c == ']' || c == '{' || c == '}' || c == '^' || c == '$' {
            let ghost before = out@;
            out.push('\\');
            out.push(c);
            proof {
                assert(out@ =~= before + seq!['\\', c]);
            }
        } else {
            let ghost before = out@;
            out.push(c);
            proof {
                assert(out@ =~= before + seq![c]);
            }
        }
        i = i + 1;
    }
    proof {
        assert(v@.take(v@.len() as int) =~= v@);
    }
    string_from_chars(&out)
}

fn trim_start(v: &Vec<char>, c: char) -> (r: Vec<char>)
    ensures
        r@ == trim_start_spec(v@, c),
{
    let mut k: usize = 0;
    proof {
        assert(v@.skip(0) =~= v@);
    }
    while k < v.len() && v[k] == c
        invariant
            k <= v@.len(),
            trim_start_spec(v@, c) == trim_start_spec(v@.skip(k as int), c),
        decreases v@.len() - k,
    {
        proof {
            assert(v@.skip(k as int).drop_first() =~= v@.skip(k + 1));
        }
        k = k + 1;
    }
    let mut out: Vec<char> = Vec::new();
    let mut i: usize = k;
    while i < v.len()
        invariant
            k <= i <= v@.len(),
            out@ == v@.subrange(k as int, i as int),
        decreases v@.len() - i,
    {
        out.push(v[i]);
        proof {
            assert(out@ =~= v@.subrange(k as int, i + 1));
        }
        i = i + 1;
    }
    proof {
        assert(out@ =~= v@.skip(k as int));
    }
    out
}

fn trim_end(v: &Vec<char>, c: char) -> (r: Vec<char>)
    ensures
        r@ == trim_end_spec(v@, c),
{
    let mut k: usize = v.len();
    proof {
        assert(v@.take(v@.len() as int) =~= v@);
    }
    while k > 0 && v[k - 1] == c
        invariant
            k <= v@.len(),
            trim_end_spec(v@, c) == trim_end_spec(v@.take(k as int), c),
        decreases k,
    {
        proof {
            assert(v@.take(k as int).drop_last() =~= v@.take(k - 1));
        }
        k = k - 1;
    }
    let mut out: Vec<char> = Vec::new();
    let mut i: usize = 0;
    while i < k
        invariant
            i <= k <= v@.len(),
            out@ == v@.take(i as int),
        decreases k - i,
    {
        out.push(v[i]);
        proof {
            assert(out@ =~= v@.take(i + 1));
        }
        i = i + 1;
    }
    proof {
        if k > 0 {
            assert(v@.take(k as int).last() == v@[k - 1]);
        }
    }
    out
}

proof fn lemma_replace_step(s: Seq<char>, pat: Seq<char>, rep: Seq<char>, i: int)
    requires
        pat.len() > 0,
        0 <= i < s.len(),
    ensures
        pat.len() <= s.len() - i && s.subrange(i, i + pat.len()) == pat ==> replace_spec(s.skip(i), pat, rep)
            == rep + replace_spec(s.skip(i + pat.len()), pat, rep),
        !(pat.len() <= s.len() - i && s.subrange(i, i + pat.len()) == pat) ==> replace_spec(s.skip(i), pat, rep)
            == seq![s[i]] + replace_spec(s.skip(i + 1), pat, rep),
{
    let t = s.skip(i);
    assert(t.len() == s.len() - i);
    if pat.len() <= t.len() {
        assert(t.subrange(0, pat.len() as int) =~= s.subrange(i, i + pat.len()));
        assert(t.skip(pat.len() as int) =~= s.skip(i + pat.len()));
    }
    assert(t.skip(1) =~= s.skip(i + 1));
    assert(t[0] == s[i]);
}

/// Whether `pat` occurs in `v` at position `i`.
fn matches_at(v: &Vec<char>, i: usize, pat: &Vec<char>) -> (r: bool)
    requires
        i <= v@.len(),
    ensures
        r == (pat@.len() <= v@.len() - i && v@.subrange(i as int, i + pat@.len()) == pat@),
{
    if pat.len() > v.len() - i {
        return false;
    }
    let mut j: usize = 0;
    while j < pat.len()
        invariant
            j <= pat@.len(),
            pat@.len() <= v@.len() - i,
            i <= v@.len(),
            forall|k: int| 0 <= k < j ==> v@[i + k] == pat@[k],
        decreases pat@.len() - j,
    {
        let n = v.len();
        assert(i + j < n);
        if v[i + j] != pat[j] {
            proof {
                assert(v@.subrange(i as int, i + pat@.len())[j as int] != pat@[j as int]);
            }
            return false;
        }
        j = j + 1;
    }
    proof {
        assert(v@.subrange(i as int, i + pat@.len()) =~= pat@);
    }
    true
}

fn replace(v: &Vec<char>, pat: &Vec<char>, rep: &Vec<char>) -> (r: Vec<char>)
    requires
        pat@.len() > 0,
    ensures
        r@ == replace_spec(v@, pat@, rep@),
{
    let mut out: Vec<char> = Vec::new();
    let mut i: usize = 0;
    proof {
        assert(v@.skip(0) =~= v@);
        assert(Seq::<char>::empty() + replace_spec(v@, pat@, rep@) =~= replace_spec(v@, pat@, rep@));
    }
    while i < v.len()
        invariant
            i <= v@.len(),
            pat@.len() > 0,
            out@ + replace_spec(v@.skip(i as int), pat@, rep@) == replace_spec(v@, pat@, rep@),
        decreases v@.len() - i,
    {
        let m = matches_at(v, i, pat);
        proof {
            lemma_replace_step(v@, pat@, rep@, i as int);
        }
        if m {
            let ghost before = out@;
            let mut t: usize = 0;
            while t < rep.len()
                invariant
                    t <= rep@.len(),
                    out@ == before + rep@.take(t as int),
                decreases rep@.len() - t,
            {
                out.push(rep[t]);
                proof {
                    assert(rep@.take(t + 1) =~= rep@.take(t as int).push(rep@[t as int]));
                }
                t = t + 1;
            }
            proof {
                assert(rep@.take(rep@.len() as int) =~= rep@);
                assert(out@ + replace_spec(v@.skip(i + pat@.len()), pat@, rep@) =~= before + replace_spec(v@.skip(i as int), pat@, rep@));
            }
            i = i + pat.len();
        } else {
            let ghost before = out@;
            out.push(v[i]);
            proof {
                assert(out@ + replace_spec(v@.skip(i + 1), pat@, rep@) =~= before + replace_spec(v@.skip(i as int), pat@, rep@));
            }
            i = i + 1;
        }
    }
    proof {
        assert(v@.skip(v@.len() as int) =~= Seq::<char>::empty());
        assert(out@ + Seq::<char>::empty() =~= out@);
    }
    out
}

/// A filter by regular expression.
pub struct Regexp {
    pub re: RegexValueFilter,
}

impl Regexp {
    /// The filter for `pattern`; an error when it is no regular expression.
    pub fn new(pattern: String, iri: bool) -> (r: Result<Regexp, String>)
        ensures
            r is Ok <==> regex_valid(pattern@),
            r matches Ok(f) ==> f.re.spec_pattern() == pattern@ && f.re.spec_iri() == iri,
    {
        match RegexValueFilter::new(pattern, iri) {
            Ok(re) => Ok(Regexp { re }),
            Err(e) => Err(e),
        }
    }
}

/// A filter by an SQL-like pattern: `%` stands for any text and `?` for
/// any one character.
pub struct Wildcard {
    pub pattern: String,
}

impl Wildcard {
    pub fn new(pattern: String) -> (r: Wildcard)
        ensures
            r.pattern@ == pattern@,
    {
        Wildcard { pattern }
    }

    /// The regular expression the pattern stands for.
    pub fn regexp(&self) -> (r: String)
        ensures
            r@ == wildcard_regexp(self.pattern@),
    {
        let q = quote_meta(&self.pattern);
        let qv = chars_of(q.as_str());
        let a: Vec<char> = if qv.len() > 0 && qv[0] == '%' {
            trim_start(&qv, '%')
        } else {
            let mut a: Vec<char> = Vec::new();
            a.push('^');
            let mut i: usize = 0;
            while i < qv.len()
                invariant
                    i <= qv@.len(),
                    a@ == seq!['^'] + qv@.take(i as int),
                decreases qv@.len() - i,
            {
                a.push(qv[i]);
                proof {
                    assert(qv@.take(i + 1) =~= qv@.take(i as int).push(qv@[i as int]));
                }
                i = i + 1;
            }
            proof {
                assert(qv@.take(qv@.len() as int) =~= qv@);
            }
            a
        };
        let ghost qs = quote_meta_spec(self.pattern@);
        let ghost a_spec = if qs.len() > 0 && qs[0] == '%' { trim_start_spec(qs, '%') } else { seq!['^'] + qs };
        proof {
            assert(qv@ == qs);
            assert(a@ =~= a_spec);
        }
        let ghost b_spec = if a_spec.len() > 0 && a_spec.last() == '%' { trim_end_spec(a_spec, '%') } else { a_spec + seq!['$'] };
        let b: Vec<char> = if a.len() > 0 && a[a.len() - 1] == '%' {
            trim_end(&a, '%')
        } else {
            let mut b = a;
            b.push('$');
            proof {
                assert(b@ =~= a_spec + seq!['$']);
            }
            b
        };
        proof {
            assert(b@ =~= b_spec);
        }
        let mut pct: Vec<char> = Vec::new();
        pct.push('%');
        let mut any: Vec<char> = Vec::new();
        any.push('.');
        any.push('*');
        let c = replace(&b, &pct, &any);
        let mut q1: Vec<char> = Vec::new();
        q1.push('\\');
        q1.push('?');
        let mut dot: Vec<char> = Vec::new();
        dot.push('.');
        let d = replace(&c, &q1, &dot);
        proof {
            assert(pct@ =~= seq!['%']);
            assert(any@ =~= seq!['.', '*']);
            assert(q1@ =~= seq!['\\', '?']);
            assert(dot@ =~= seq!['.']);
        }
        string_from_chars(&d)
    }
}

/// A comparison with a value.
pub struct Comparison {
    pub op: Operator,
    pub val: Value,
}

impl Comparison {
    pub fn new(op: Operator, val: Value) -> (r: Comparison)
        ensures
            r.op == op,
            r.val == val,
    {
        Comparison { op, val }
    }
}

/// A test on the values of a query's nodes.
pub enum ValueFilter {
    Regexp(Regexp),
    Wildcard(Wildcard),
    Comparison(Comparison),
}

/// Whether a text is made of `%` alone (or is empty).
pub open spec fn only_percent(s: Seq<char>) -> bool {
    forall|i: int| 0 <= i < s.len() ==> s[i] == '%'
}

/// `r` keeps the results of `it` that the regular expression `pat` matches,
/// testing IRIs too when `iri` is set.
pub open spec fn regex_filter_of(r: IterShape, it: IterShape, pat: Seq<char>, iri: bool) -> bool {
    match r {
        IterShape::ValueFilter(vf) => *vf.sub == it && match vf.filter {
            IterValueFilters::Regex(rf) => rf.spec_pattern() == pat && rf.spec_iri() == iri,
            _ => false,
        },
        _ => false,
    }
}

/// `r` keeps the results of `it` that pass the comparison `op` with `val`.
pub open spec fn comparison_filter_of(r: IterShape, it: IterShape, op: Operator, val: ValueV) -> bool {
    match r {
        IterShape::ValueFilter(vf) => *vf.sub == it && match vf.filter {
            IterValueFilters::Comparison(cf) => cf.op == op && cf.val@ == val,
            _ => false,
        },
        _ => false,
    }
}

impl ValueFilter {
    /// The filter applied to the results of `it`: a regular expression
    /// keeps the strings it matches; a wildcard pattern that is empty keeps
    /// nothing, one of `%` alone keeps everything, and any other keeps the
    /// strings its regular expression matches; a comparison keeps the values
    /// that pass it.
    pub fn build_iterator<Q: QuadStore>(&self, qs: &Q, it: IterShape) -> (r: IterShape)
        ensures
            match self {
                ValueFilter::Regexp(f) => regex_filter_of(r, it, f.re.spec_pattern(), f.re.spec_iri()),
                ValueFilter::Wildcard(w) => if w.pattern@.len() == 0 {
                    r is Null
                } else if only_percent(w.pattern@) {
                    r == it
                } else if regex_valid(wildcard_regexp(w.pattern@)) {
                    regex_filter_of(r, it, wildcard_regexp(w.pattern@), true)
                } else {
                    r is Error
                },
                ValueFilter::Comparison(c) => comparison_filter_of(r, it, c.op, c.val@),
            },
    {
        match self {
            ValueFilter::Regexp(f) => IterShape::ValueFilter(IterValueFilter::new(it, IterValueFilters::Regex(f.re.copy()))),
            ValueFilter::Wildcard(w) => {
                let v = chars_of(w.pattern.as_str());
                if v.len() == 0 {
                    return IterNull::new();
                }
                let mut all = true;
                let mut i: usize = 0;
                while i < v.len()
                    invariant
                        i <= v@.len(),
                        all == forall|j: int| 0 <= j < i ==> v@[j] == '%',
                    decreases v@.len() - i,
                {
                    if v[i] != '%' {
                        all = false;
                    }
                    i = i + 1;
                }
                if all {
                    return it;
                }
                match RegexValueFilter::new(w.regexp(), true) {
                    Ok(re) => IterShape::ValueFilter(IterValueFilter::new(it, IterValueFilters::Regex(re))),
                    Err(e) => IterError::new(e),
                }
            },
            ValueFilter::Comparison(c) => IterShape::ValueFilter(IterValueFilter::new(
                it,
                IterValueFilters::Comparison(ComparisonValueFilter { op: c.op, val: c.val.copy() }),
            )),
        }
    }

    pub fn copy(&self) -> (r: ValueFilter)
        ensures
            match (self, r) {
                (ValueFilter::Regexp(a), ValueFilter::Regexp(b)) => a.re.spec_pattern() == b.re.spec_pattern() && a.re.spec_iri() == b.re.spec_iri(),
                (ValueFilter::Wildcard(a), ValueFilter::Wildcard(b)) => a.pattern@ == b.pattern@,
                (ValueFilter::Comparison(a), ValueFilter::Comparison(b)) => a.op == b.op && a.val@ == b.val@,
                _ => false,
            },
    {
        match self {
            ValueFilter::Regexp(f) => ValueFilter::Regexp(Regexp { re: f.re.copy() }),
            ValueFilter::Wildcard(w) => ValueFilter::Wildcard(Wildcard { pattern: w.pattern.clone() }),
            ValueFilter::Comparison(c) => ValueFilter::Comparison(Comparison { op: c.op, val: c.val.copy() }),
        }
    }
}

} // verus!
