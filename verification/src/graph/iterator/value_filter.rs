//! Keeps the results whose value (as the store names it) passes a test:
//! a regular expression, or a comparison with a fixed value.
use vstd::prelude::*;
use crate::graph::refs::{Ref, RefV};
use crate::graph::value::{Value, ValueV, Number, NumberV};
use crate::graph::quad::QuadStore;
use crate::graph::iterator::{Shape, Scanner, Index, Costs};
use crate::graph::iterator::costs::filter_costs;
use crate::graph::iterator::tags::TagMap;
use crate::strutil::{copy_string, string_of, seq_lt, str_lt};

verus! {

/// Whether the regex crate accepts `pattern` as a regular expression.
pub uninterp spec fn regex_valid(pattern: Seq<char>) -> bool;

/// Whether the regular expression `pattern` matches somewhere in `text`.
pub uninterp spec fn regex_matches(pattern: Seq<char>, text: Seq<char>) -> bool;

/// Compiles `pattern` with `regex::Regex::new` and reports whether that
/// succeeded. The outcome depends on the pattern alone.
#[verifier::external_body]
fn regex_check(pattern: &str) -> (r: bool)
    ensures
        r == regex_valid(pattern@),
{
    regex::Regex::new(pattern).is_ok()
}

/// Compiles `pattern` with `regex::Regex::new` and asks `Regex::is_match`
/// whether it matches somewhere in `text`; a function of the two alone.
#[verifier::external_body]
fn regex_is_match(pattern: &str, text: &str) -> (r: bool)
    requires
        regex_valid(pattern@),
    ensures
        r == regex_matches(pattern@, text@),
{
    match regex::Regex::new(pattern) {
        Ok(re) => re.is_match(text),
        Err(_) => false,
    }
}

/// A test by regular expression: strings that it matches pass, and, when
/// `iri` is set, IRIs whose text (without the angle brackets) it matches.
/// The pattern is always one that the regex crate accepts.
pub struct RegexValueFilter {
    pattern: String,
    iri: bool,
}

impl RegexValueFilter {
    #[verifier::type_invariant]
    spec fn valid(&self) -> bool {
        regex_valid(self.pattern@)
    }

    pub closed spec fn spec_pattern(&self) -> Seq<char> {
        self.pattern@
    }

    /// Whether IRIs are tested too.
    pub closed spec fn spec_iri(&self) -> bool {
        self.iri
    }

    /// Whether the value passes: a string the expression matches, or an IRI
    /// it matches when IRIs are tested.
    pub open spec fn passes(&self, v: ValueV) -> bool {
        match v {
            ValueV::String(s) => regex_matches(self.spec_pattern(), s),
            ValueV::IRI(s) => self.spec_iri() && regex_matches(self.spec_pattern(), s),
            _ => false,
        }
    }

    /// The regular expression.
    pub fn pattern(&self) -> (r: &String)
        ensures
            r@ == self.spec_pattern(),
            regex_valid(r@),
    {
        proof {
            use_type_invariant(self);
        }
        &self.pattern
    }

    /// The filter for `pattern`, or an error when it is no regular expression.
    pub fn new(pattern: String, iri: bool) -> (r: Result<RegexValueFilter, String>)
        ensures
            r is Ok <==> regex_valid(pattern@),
            r matches Ok(f) ==> f.spec_pattern() == pattern@ && f.spec_iri() == iri,
    {
        if regex_check(pattern.as_str()) {
            Ok(RegexValueFilter { pattern, iri })
        } else {
            proof {
                reveal_strlit("invalid regular expression");
            }
            Err(string_of("invalid regular expression"))
        }
    }

    /// Strings that the expression matches pass, and IRIs too when they are
    /// tested; other values do not.
    pub fn filter(&self, v: &Value) -> (r: bool)
        ensures
            r == self.passes(v@),
    {
        proof {
            use_type_invariant(self);
        }
        match v {
            Value::String(s) => regex_is_match(self.pattern.as_str(), s.as_str()),
            Value::IRI(s) => self.iri && regex_is_match(self.pattern.as_str(), s.as_str()),
            _ => false,
        }
    }

    pub fn copy(&self) -> (r: RegexValueFilter)
        ensures
            r.spec_pattern() == self.spec_pattern(),
            r.spec_iri() == self.spec_iri(),
    {
        proof {
            use_type_invariant(self);
        }
        RegexValueFilter { pattern: self.pattern.clone(), iri: self.iri }
    }
}

/// A comparison operator.
#[derive(Debug, Clone, Copy, PartialEq, Eq, Structural)]
pub enum Operator {
    LT,
    LTE,
    GT,
    GTE,
}

/// The order of strings compared by `op`.
pub open spec fn str_op_spec(a: Seq<char>, op: Operator, b: Seq<char>) -> bool {
    match op {
        Operator::LT => seq_lt(a, b),
        Operator::GT => seq_lt(b, a),
        Operator::LTE => !seq_lt(b, a),
        Operator::GTE => !seq_lt(a, b),
    }
}

/// Compares two strings with `op`, in the order of Rust strings.
pub fn run_str_op(a: &String, op: &Operator, b: &String) -> (r: bool)
    ensures
        r == str_op_spec(a@, *op, b@),
{
    match op {
        Operator::LT => str_lt(a, b),
        Operator::GT => str_lt(b, a),
        Operator::LTE => !str_lt(b, a),
        Operator::GTE => !str_lt(a, b),
    }
}

/// Two integers compared by `op`.
pub open spec fn int_op_spec(a: int, op: Operator, b: int) -> bool {
    match op {
        Operator::LT => a < b,
        Operator::GT => a > b,
        Operator::LTE => a <= b,
        Operator::GTE => a >= b,
    }
}

/// The magnitude bits (exponent and fraction) of a float's bit pattern.
pub open spec fn float_magnitude(bits: u64) -> u64 {
    bits & 0x7FFF_FFFF_FFFF_FFFFu64
}

/// Whether a float's bit pattern is a NaN.
pub open spec fn float_is_nan(bits: u64) -> bool {
    float_magnitude(bits) > 0x7FF0_0000_0000_0000u64
}

/// A number that orders floats (other than NaN) as their values are
/// ordered: the magnitude, negated when the sign bit is set. Both zeros
/// get zero.
pub open spec fn float_key(bits: u64) -> int {
    if bits >= 0x8000_0000_0000_0000u64 {
        -(float_magnitude(bits) as int)
    } else {
        float_magnitude(bits) as int
    }
}

/// Two floats compared by `op`: false whenever one is a NaN.
pub open spec fn float_op_spec(a: u64, op: Operator, b: u64) -> bool {
    !float_is_nan(a) && !float_is_nan(b) && int_op_spec(float_key(a), op, float_key(b))
}

fn float_key_of(bits: u64) -> (r: i64)
    ensures
        r == float_key(bits),
{
    let m: u64 = bits & 0x7FFF_FFFF_FFFF_FFFFu64;
    proof {
        assert(bits & 0x7FFF_FFFF_FFFF_FFFFu64 <= 0x7FFF_FFFF_FFFF_FFFFu64) by (bit_vector);
    }
    if bits >= 0x8000_0000_0000_0000u64 {
        -(m as i64)
    } else {
        m as i64
    }
}

fn int_op(a: i128, op: &Operator, b: i128) -> (r: bool)
    ensures
        r == int_op_spec(a as int, *op, b as int),
{
    match op {
        Operator::LT => a < b,
        Operator::GT => a > b,
        Operator::LTE => a <= b,
        Operator::GTE => a >= b,
    }
}

/// Two numbers compared by `op`, as JSON numbers are: floats only with
/// floats, integers that fit an `i64` only with such integers, and other
/// non-negative integers only with non-negative integers.
pub open spec fn number_op_spec(a: NumberV, op: Operator, b: NumberV) -> bool {
    if a is Float {
        match (a, b) {
            (NumberV::Float(x), NumberV::Float(y)) => float_op_spec(x, op, y),
            _ => false,
        }
    } else if crate::graph::value::number_as_i64(a) is Some {
        match (crate::graph::value::number_as_i64(a), crate::graph::value::number_as_i64(b)) {
            (Some(x), Some(y)) => int_op_spec(x as int, op, y as int),
            _ => false,
        }
    } else {
        match (a, b) {
            (NumberV::PosInt(x), NumberV::PosInt(y)) => int_op_spec(x as int, op, y as int),
            _ => false,
        }
    }
}

pub fn run_number_op(a: &Number, op: &Operator, b: &Number) -> (r: bool)
    ensures
        r == number_op_spec(a@, *op, b@),
{
    if a.is_f64() {
        match (a, b) {
            (Number::Float { bits: x, .. }, Number::Float { bits: y, .. }) => {
                let m1: u64 = *x & 0x7FFF_FFFF_FFFF_FFFFu64;
                let m2: u64 = *y & 0x7FFF_FFFF_FFFF_FFFFu64;
                if m1 > 0x7FF0_0000_0000_0000u64 || m2 > 0x7FF0_0000_0000_0000u64 {
                    return false;
                }
                let k1 = float_key_of(*x);
                let k2 = float_key_of(*y);
                int_op(k1 as i128, op, k2 as i128)
            },
            _ => false,
        }
    } else if a.is_i64() {
        match (a.as_i64(), b.as_i64()) {
            (Some(x), Some(y)) => int_op(x as i128, op, y as i128),
            _ => false,
        }
    } else {
        match (a.as_u64(), b.as_u64()) {
            (Some(x), Some(y)) => int_op(x as i128, op, y as i128),
            _ => false,
        }
    }
}

/// A test by comparison with a fixed value.
pub struct ComparisonValueFilter {
    pub op: Operator,
    pub val: Value,
}

/// The operator with its operands swapped: `a op b` is `b converse(op) a`.
pub open spec fn converse(op: Operator) -> Operator {
    match op {
        Operator::LT => Operator::GT,
        Operator::GT => Operator::LT,
        Operator::LTE => Operator::GTE,
        Operator::GTE => Operator::LTE,
    }
}

fn converse_of(op: &Operator) -> (r: Operator)
    ensures
        r == converse(*op),
{
    match op {
        Operator::LT => Operator::GT,
        Operator::GT => Operator::LT,
        Operator::LTE => Operator::GTE,
        Operator::GTE => Operator::LTE,
    }
}

/// Whether `qval op val` holds, so that `gt(x)` keeps the values above `x`:
/// strings with strings, numbers with numbers, and otherwise the printed
/// forms. The kind of `val` decides how the two are compared.
pub open spec fn comparison_spec(op: Operator, val: Value, qval: Value) -> bool {
    match (val, qval) {
        (Value::String(a), Value::String(b)) => str_op_spec(a@, converse(op), b@),
        (Value::String(_), _) => false,
        (Value::Number(a), Value::Number(b)) => number_op_spec(a@, converse(op), b@),
        (Value::Number(_), _) => false,
        _ => str_op_spec(val.spec_text(), converse(op), qval.spec_text()),
    }
}

/// Comparing two integers: `lt(n)` keeps the integers below `n`, `lte(n)`
/// those not above it, `gt(n)` those above it and `gte(n)` those not below
/// it.
pub proof fn lemma_compare_integers(n: i64, m: i64, val: Value, q: Value)
    requires
        val@ == crate::graph::value::value_of_i64(n),
        q@ == crate::graph::value::value_of_i64(m),
    ensures
        comparison_spec(Operator::LT, val, q) == (m < n),
        comparison_spec(Operator::LTE, val, q) == (m <= n),
        comparison_spec(Operator::GT, val, q) == (m > n),
        comparison_spec(Operator::GTE, val, q) == (m >= n),
{
    assert(val is Number && q is Number);
    let a = val->Number_0;
    let b = q->Number_0;
    assert(crate::graph::value::number_as_i64(a@) == Some(n));
    assert(crate::graph::value::number_as_i64(b@) == Some(m));
}

/// Comparing two strings: `gte(a)` keeps `b` when `a` does not come after
/// it, and so on, in the order of strings.
pub proof fn lemma_compare_strings(a: String, b: String)
    ensures
        comparison_spec(Operator::LT, Value::String(a), Value::String(b)) == seq_lt(b@, a@),
        comparison_spec(Operator::LTE, Value::String(a), Value::String(b)) == !seq_lt(a@, b@),
        comparison_spec(Operator::GT, Value::String(a), Value::String(b)) == seq_lt(a@, b@),
        comparison_spec(Operator::GTE, Value::String(a), Value::String(b)) == !seq_lt(b@, a@),
{
}

/// A value that is not a NaN is equal to itself: `gte` and `lte` keep it,
/// `gt` and `lt` drop it.
pub proof fn lemma_compare_same(v: Value)
    requires
        !(v matches Value::Number(x) && x@ matches NumberV::Float(bits) && float_is_nan(bits)),
    ensures
        comparison_spec(Operator::GTE, v, v),
        comparison_spec(Operator::LTE, v, v),
        !comparison_spec(Operator::GT, v, v),
        !comparison_spec(Operator::LT, v, v),
{
    match v {
        Value::String(s) => {
            crate::strutil::lemma_seq_lt_irreflexive(s@);
        },
        Value::Number(_) => {},
        _ => {
            crate::strutil::lemma_seq_lt_irreflexive(v.spec_text());
        },
    }
}

/// Swapping the two sides of a comparison: `qval op val` holds exactly
/// when `val converse(op) qval` does, and the converse of the converse is
/// the operator itself.
pub proof fn lemma_converse(op: Operator, a: int, b: int, s: Seq<char>, t: Seq<char>)
    ensures
        converse(converse(op)) == op,
        int_op_spec(a, op, b) == int_op_spec(b, converse(op), a),
        str_op_spec(s, op, t) == str_op_spec(t, converse(op), s),
{
}

impl ComparisonValueFilter {
    pub fn new(op: Operator, val: Value) -> (r: ComparisonValueFilter)
        ensures
            r.op == op,
            r.val == val,
    {
        ComparisonValueFilter { op, val }
    }

    pub fn filter(&self, qval: &Value) -> (r: bool)
        ensures
            r == comparison_spec(self.op, self.val, *qval),
    {
        let op = converse_of(&self.op);
        match (&self.val, qval) {
            (Value::String(a), Value::String(b)) => run_str_op(a, &op, b),
            (Value::String(_), _) => false,
            (Value::Number(a), Value::Number(b)) => run_number_op(a, &op, b),
            (Value::Number(_), _) => false,
            _ => {
                let a = self.val.to_string();
                let b = qval.to_string();
                run_str_op(&a, &op, &b)
            },
        }
    }

    pub fn copy(&self) -> (r: ComparisonValueFilter)
        ensures
            r.op == self.op,
            r.val@ == self.val@,
            r.val.spec_text() == self.val.spec_text(),
    {
        ComparisonValueFilter { op: self.op, val: self.val.copy() }
    }
}

/// The test of a value filter.
pub enum ValueFilters {
    Regex(RegexValueFilter),
    Comparison(ComparisonValueFilter),
}

impl ValueFilters {
    /// Whether the value passes.
    pub open spec fn passes(&self, v: Value) -> bool {
        match self {
            ValueFilters::Regex(f) => f.passes(v@),
            ValueFilters::Comparison(c) => comparison_spec(c.op, c.val, v),
        }
    }

    pub fn filter(&self, v: &Value) -> (r: bool)
        ensures
            r == self.passes(*v),
    {
        match self {
            ValueFilters::Regex(f) => f.filter(v),
            ValueFilters::Comparison(c) => c.filter(v),
        }
    }

    pub fn copy(&self) -> (r: ValueFilters)
        ensures
            forall|v: Value| r.passes(v) == self.passes(v),
    {
        match self {
            ValueFilters::Regex(f) => ValueFilters::Regex(f.copy()),
            ValueFilters::Comparison(c) => ValueFilters::Comparison(c.copy()),
        }
    }
}

/// The results of `sub` whose value passes `filter`.
pub struct ValueFilter {
    pub sub: Box<Shape>,
    pub filter: ValueFilters,
}

impl ValueFilter {
    pub fn new(sub: Shape, filter: ValueFilters) -> (r: ValueFilter)
        ensures
            *r.sub == sub,
            r.filter == filter,
    {
        ValueFilter { sub: Box::new(sub), filter }
    }

    pub open spec fn height(&self) -> nat {
        1 + self.sub.height()
    }

    pub fn stats<Q: QuadStore>(&self, qs: &Q) -> (r: Result<Costs, String>)
        ensures
            crate::graph::iterator::known_costs(*self.sub) matches Some(x) ==> r == Ok::<Costs, String>(crate::graph::iterator::costs::filter_costs_spec(x)),
        decreases self, 2nat,
    {
        let c = self.sub.stats(qs)?;
        Ok(filter_costs(c))
    }

    pub fn iterate<Q: QuadStore>(&self, qs: &Q) -> (r: ValueFilterNext)
        ensures
            r.wf(qs.quad_bound()),
            r.height() <= self.height(),
            r.rank() <= self.sub.max_rank(qs.quad_bound()),
            crate::graph::iterator::scans_as(*self.sub, *r.sub),
            r.result is None,
        decreases self, 0nat,
    {
        ValueFilterNext { sub: Box::new(self.sub.iterate(qs)), filter: self.filter.copy(), result: None, err: None }
    }

    pub fn lookup<Q: QuadStore>(&self, qs: &Q) -> (r: ValueFilterContains)
        ensures
            r.wf(qs.quad_bound()),
            r.height() <= self.height(),
            r.sub.path_bound() <= self.sub.max_path(qs.quad_bound()),
            crate::graph::iterator::checks_as(*self.sub, *r.sub),
        decreases self, 0nat,
    {
        ValueFilterContains { sub: Box::new(self.sub.lookup(qs)), filter: self.filter.copy(), result: None, err: None }
    }
}

/// Whether a filtered walk passes over the result `res`: there is none,
/// the store has no name for it, or its value fails the test.
pub open spec fn filtered_out<Q: QuadStore>(qs: Q, f: ValueFilters, res: Option<RefV>) -> bool {
    match res {
        None => true,
        Some(x) => match qs.spec_name_of(x) {
            None => true,
            Some(n) => exists|y: Value| #[trigger] f.passes(y) == false && y@ == n,
        },
    }
}

/// Whether `n` successful steps lead from `a` to `b`, each to a result
/// that the filter `f` passes over.
pub open spec fn filtered_run<Q: QuadStore>(qs: Q, f: ValueFilters, a: Scanner, b: Scanner, n: nat, qb: nat) -> bool
    decreases n,
{
    if n == 0 {
        a == b
    } else {
        exists|m: Scanner| #[trigger] m.next_step(b, true, qb) && filtered_run(qs, f, a, m, (n - 1) as nat, qb)
            && filtered_out(qs, f, b.spec_result())
    }
}

/// Lists the results of the sub-scanner whose value passes the test.
pub struct ValueFilterNext {
    pub sub: Box<Scanner>,
    pub filter: ValueFilters,
    pub result: Option<Ref>,
    pub err: Option<String>,
}

impl ValueFilterNext {
    pub open spec fn height(&self) -> nat {
        1 + self.sub.height()
    }

    pub open spec fn wf(&self, qb: nat) -> bool {
        self.sub.wf(qb)
    }

    pub open spec fn rank(&self) -> nat {
        self.sub.rank()
    }

    pub open spec fn path_rank(&self) -> nat {
        self.sub.path_rank()
    }

    /// Moves the sub-scanner to the next result whose value passes. A
    /// result the store cannot name stops the walk with an error.
    pub fn next<Q: QuadStore>(&mut self, qs: &Q) -> (r: bool)
        requires
            old(self).wf(qs.quad_bound()),
        ensures
            final(self).wf(qs.quad_bound()),
            final(self).height() <= old(self).height(),
            r ==> final(self).rank() < old(self).rank(),
            !r ==> final(self).rank() <= old(self).rank(),
            r ==> final(self).result is Some,
            r ==> crate::graph::iterator::opt_ref_view(final(self).result) == final(self).sub.spec_result(),
            r ==> (final(self).result matches Some(x)
                && exists|y: Value| #[trigger] old(self).filter.passes(y) && qs.spec_name_of(x@) == Some(y@)),
            !r ==> final(self).result == old(self).result,
            final(self).filter == old(self).filter,
            !r ==> crate::graph::iterator::ended_below(*final(self).sub, qs.quad_bound(), old(self).sub.height()),
            exists|m: Scanner, n: nat| #[trigger] filtered_run(*qs, old(self).filter, *old(self).sub, m, n, qs.quad_bound())
                && m.next_step(*final(self).sub, r, qs.quad_bound()),
        decreases old(self).height(), 0nat,
    {
        let qb = Ghost(qs.quad_bound());
        let ghost mut n: nat = 0;
        proof {
            assert(filtered_run(*qs, self.filter, *self.sub, *self.sub, 0, qb@));
        }
        loop
            invariant
                self.result == old(self).result,
                self.filter == old(self).filter,
                qb@ == qs.quad_bound(),
                self.wf(qb@),
                self.height() <= old(self).height(),
                self.rank() <= old(self).rank(),
                filtered_run(*qs, old(self).filter, *old(self).sub, *self.sub, n, qb@),
            decreases self.rank(),
        {
            let ghost pre = *self.sub;
            if !self.sub.next(qs) {
                self.err = self.sub.err();
                assert(filtered_run(*qs, old(self).filter, *old(self).sub, pre, n, qb@));
                return false;
            }
            match self.sub.result() {
                Some(val) => {
                    match qs.name_of(&val) {
                        Some(qval) => {
                            if self.filter.filter(&qval) {
                                self.result = Some(val);
                                assert(filtered_run(*qs, old(self).filter, *old(self).sub, pre, n, qb@));
                                return true;
                            }
                            proof {
                                assert(self.filter.passes(qval) == false);
                            }
                        },
                        None => {
                            proof {
                                reveal_strlit("no name for val");
                            }
                            self.err = Some(string_of("no name for val"));
                        },
                    }
                },
                None => {},
            }
            proof {
                n = n + 1;
                assert(filtered_run(*qs, old(self).filter, *old(self).sub, *self.sub, n, qb@));
            }
        }
    }

    pub fn next_path<Q: QuadStore>(&mut self, qs: &Q) -> (r: bool)
        requires
            old(self).wf(qs.quad_bound()),
        ensures
            final(self).wf(qs.quad_bound()),
            final(self).height() <= old(self).height(),
            final(self).rank() <= old(self).rank(),
            r ==> final(self).path_rank() < old(self).path_rank(),
            !r ==> final(self).path_rank() <= old(self).path_rank(),
            old(self).sub.path_step(*final(self).sub, r, qs.quad_bound()),
        decreases old(self).height(), 0nat,
    {
        self.sub.next_path(qs)
    }

    pub fn result(&self) -> (r: Option<Ref>)
        ensures
            match (r, self.result) {
                (Some(a), Some(b)) => a@ == b@,
                (None, None) => true,
                _ => false,
            },
    {
        match &self.result {
            Some(v) => Some(v.copy()),
            None => None,
        }
    }

    pub fn err(&self) -> (r: Option<String>)
        ensures
            crate::graph::iterator::opt_text(r) == crate::graph::iterator::opt_text(self.err),
            r is Some == self.err is Some,
    {
        match &self.err {
            Some(e) => Some(copy_string(e)),
            None => None,
        }
    }

    pub fn tag_results(&self, dst: &mut TagMap)
        ensures
            self.sub.tags_step(old(dst)@, final(dst)@),
        decreases self.height(), 0nat,
    {
        self.sub.tag_results(dst)
    }

    pub fn close(&mut self) -> (r: Result<(), String>)
        ensures
            final(self).height() <= old(self).height(),
        decreases old(self).height(), 0nat,
    {
        self.sub.close()
    }
}

/// Accepts what passes the test and the sub-index contains.
pub struct ValueFilterContains {
    pub sub: Box<Index>,
    pub filter: ValueFilters,
    pub result: Option<Ref>,
    pub err: Option<String>,
}

impl ValueFilterContains {
    pub open spec fn height(&self) -> nat {
        1 + self.sub.height()
    }

    pub open spec fn wf(&self, qb: nat) -> bool {
        self.sub.wf(qb)
    }

    pub open spec fn path_rank(&self) -> nat {
        self.sub.path_rank()
    }

    pub open spec fn path_bound(&self) -> nat {
        self.sub.path_bound()
    }

    /// A reference that the store cannot name, or whose value does not
    /// pass, is out; otherwise the sub-index decides.
    pub fn contains<Q: QuadStore>(&mut self, qs: &Q, v: &Ref) -> (r: bool)
        requires
            old(self).wf(qs.quad_bound()),
        ensures
            final(self).path_bound() == old(self).path_bound(),
            final(self).wf(qs.quad_bound()),
            final(self).height() <= old(self).height(),
            qs.spec_name_of(v@) is None ==> !r && *final(self) == *old(self),
            r ==> exists|y: Value| #[trigger] old(self).filter.passes(y) && qs.spec_name_of(v@) == Some(y@),
            r ==> old(self).sub.contains_step(*final(self).sub, v@, true, qs.quad_bound()),
        decreases old(self).height(), 0nat,
    {
        match qs.name_of(v) {
            Some(qval) => {
                if !self.filter.filter(&qval) {
                    return false;
                }
            },
            None => {
                return false;
            },
        }
        let ok = self.sub.contains(qs, v);
        if !ok {
            self.err = self.sub.err();
        }
        ok
    }

    pub fn next_path<Q: QuadStore>(&mut self, qs: &Q) -> (r: bool)
        requires
            old(self).wf(qs.quad_bound()),
        ensures
            final(self).path_bound() == old(self).path_bound(),
            final(self).wf(qs.quad_bound()),
            final(self).height() <= old(self).height(),
            r ==> final(self).path_rank() < old(self).path_rank(),
            !r ==> final(self).path_rank() <= old(self).path_rank(),
            old(self).sub.path_step(*final(self).sub, r, qs.quad_bound()),
        decreases old(self).height(), 0nat,
    {
        self.sub.next_path(qs)
    }

    pub fn result(&self) -> (r: Option<Ref>)
        ensures
            match (r, self.result) {
                (Some(a), Some(b)) => a@ == b@,
                (None, None) => true,
                _ => false,
            },
    {
        match &self.result {
            Some(v) => Some(v.copy()),
            None => None,
        }
    }

    pub fn err(&self) -> (r: Option<String>)
        ensures
            crate::graph::iterator::opt_text(r) == crate::graph::iterator::opt_text(self.err),
            r is Some == self.err is Some,
    {
        match &self.err {
            Some(e) => Some(copy_string(e)),
            None => None,
        }
    }

    pub fn tag_results(&self, dst: &mut TagMap)
        ensures
            self.sub.tags_step(old(dst)@, final(dst)@),
        decreases self.height(), 0nat,
    {
        self.sub.tag_results(dst)
    }

    pub fn close(&mut self) -> (r: Result<(), String>)
        ensures
            final(self).height() <= old(self).height(),
        decreases old(self).height(), 0nat,
    {
        self.sub.close()
    }
}

} // verus!
