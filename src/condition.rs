//! Parsing of textual tag conditions such as `energy>=7`.
use vstd::prelude::*;
use vstd::string::*;

verus! {

/// A comparison operator, from the closed set the query engine accepts.
#[derive(Clone, Copy, Debug, PartialEq, Eq, Structural)]
pub enum Op {
    Eq,
    Gt,
    Lt,
    Ge,
    Le,
    Ne,
}

impl Op {
    /// The operator's text, as it is written in a condition and in a query.
    pub open spec fn symbol(self) -> Seq<char> {
        match self {
            Op::Eq => seq!['='],
            Op::Gt => seq!['>'],
            Op::Lt => seq!['<'],
            Op::Ge => seq!['>', '='],
            Op::Le => seq!['<', '='],
            Op::Ne => seq!['!', '='],
        }
    }

    pub fn as_str(&self) -> (r: &'static str)
        ensures
            r@ == self.symbol(),
    {
        match self {
            Op::Eq => {
                proof { reveal_strlit("="); }
                "="
            },
            Op::Gt => {
                proof { reveal_strlit(">"); }
                ">"
            },
            Op::Lt => {
                proof { reveal_strlit("<"); }
                "<"
            },
            Op::Ge => {
                proof { reveal_strlit(">="); }
                ">="
            },
            Op::Le => {
                proof { reveal_strlit("<="); }
                "<="
            },
            Op::Ne => {
                proof { reveal_strlit("!="); }
                "!="
            },
        }
    }
}

/// The order in which operators are looked for: every two-character operator
/// comes before its one-character prefix.
pub open spec fn op_priority() -> Seq<Op> {
    seq![Op::Ge, Op::Le, Op::Ne, Op::Gt, Op::Lt, Op::Eq]
}

/// Why a condition string was rejected.
#[derive(Clone, Copy, Debug, PartialEq, Eq, Structural)]
pub enum ConditionError {
    EmptyTagName,
    ValueOutOfRange,
    NonNumericValue,
    NoOperatorFound,
}

/// A parsed condition: the song's value for `tag_name` compared by `op` with `value`.
#[derive(Clone, Debug)]
pub struct Condition {
    pub tag_name: String,
    pub value: u8,
    pub op: Op,
}

/// Unicode White_Space, the set that `str::trim` removes.
pub open spec fn is_white(c: char) -> bool {
    ('\u{9}' <= c && c <= '\u{d}') || c == ' ' || c == '\u{85}' || c == '\u{a0}'
        || c == '\u{1680}' || ('\u{2000}' <= c && c <= '\u{200a}') || c == '\u{2028}'
        || c == '\u{2029}' || c == '\u{202f}' || c == '\u{205f}' || c == '\u{3000}'
}

/// First index at or after `i` that does not hold white space.
pub open spec fn skip_white(s: Seq<char>, i: int) -> int
    decreases s.len() - i,
{
    if 0 <= i < s.len() && is_white(s[i]) {
        skip_white(s, i + 1)
    } else {
        i
    }
}

/// Index just past the last character before `j`, and at or after `lo`, that
/// is not white space.
pub open spec fn skip_white_back(s: Seq<char>, lo: int, j: int) -> int
    decreases j - lo,
{
    if lo < j && j <= s.len() && is_white(s[j - 1]) {
        skip_white_back(s, lo, j - 1)
    } else {
        j
    }
}

/// `s` without leading and trailing white space.
pub open spec fn trim(s: Seq<char>) -> Seq<char> {
    let lo = skip_white(s, 0);
    s.subrange(lo, skip_white_back(s, lo, s.len() as int))
}

/// Whether `p` occurs in `s` starting at index `i`.
pub open spec fn occurs_at(s: Seq<char>, p: Seq<char>, i: int) -> bool {
    0 <= i && i + p.len() <= s.len() && s.subrange(i, i + p.len()) == p
}

/// The first index at or after `i` where `p` occurs in `s`.
pub open spec fn find_from(s: Seq<char>, p: Seq<char>, i: int) -> Option<int>
    decreases s.len() - i,
{
    if i < 0 || p.len() == 0 || i + p.len() > s.len() {
        None
    } else if occurs_at(s, p, i) {
        Some(i)
    } else {
        find_from(s, p, i + 1)
    }
}

pub open spec fn is_digit(c: char) -> bool {
    '0' <= c && c <= '9'
}

/// The number written by the decimal digits `d`.
pub open spec fn digits_value(d: Seq<char>) -> nat
    decreases d.len(),
{
    if d.len() == 0 {
        0
    } else {
        digits_value(d.drop_last()) * 10 + (d.last() as nat - '0' as nat) as nat
    }
}

/// Whether a value text starts with a minus sign.
pub open spec fn is_negative(v: Seq<char>) -> bool {
    v.len() > 0 && v[0] == '-'
}

/// The digits of a value text, after an optional leading sign.
pub open spec fn value_digits(v: Seq<char>) -> Seq<char> {
    if v.len() > 0 && (v[0] == '+' || v[0] == '-') {
        v.drop_first()
    } else {
        v
    }
}

/// Whether a value text is a decimal integer, with an optional sign.
pub open spec fn is_number(v: Seq<char>) -> bool {
    let d = value_digits(v);
    d.len() > 0 && forall|i: int| 0 <= i < d.len() ==> is_digit(#[trigger] d[i])
}

/// The outcome of splitting `s` around the operator `op` found at `pos`.
pub open spec fn split_condition(s: Seq<char>, pos: int, op: Op) -> Result<
    (Seq<char>, u8, Op),
    ConditionError,
> {
    let name = trim(s.subrange(0, pos));
    let v = trim(s.subrange(pos + op.symbol().len(), s.len() as int));
    if name.len() == 0 {
        Err(ConditionError::EmptyTagName)
    } else if !is_number(v) {
        Err(ConditionError::NonNumericValue)
    } else if digits_value(value_digits(v)) > 9 || (is_negative(v) && digits_value(value_digits(v))
        != 0) {
        Err(ConditionError::ValueOutOfRange)
    } else {
        Ok((name, digits_value(value_digits(v)) as u8, op))
    }
}

/// Parse `s` with the operators of `op_priority()` from position `k` on: the
/// first operator that occurs anywhere in `s` splits it at its first occurrence.
pub open spec fn parse_from(s: Seq<char>, k: int) -> Result<(Seq<char>, u8, Op), ConditionError>
    decreases 6 - k,
{
    if k < 0 || k >= 6 {
        Err(ConditionError::NoOperatorFound)
    } else {
        match find_from(s, op_priority()[k].symbol(), 0) {
            Some(pos) => split_condition(s, pos, op_priority()[k]),
            None => parse_from(s, k + 1),
        }
    }
}

/// The meaning of a condition string: tag name, value and operator, or the error.
pub open spec fn parse_spec(s: Seq<char>) -> Result<(Seq<char>, u8, Op), ConditionError> {
    parse_from(s, 0)
}

/// Whether an executable parse result is the one `parse_spec` gives.
pub open spec fn parsed_as(
    r: Result<Condition, ConditionError>,
    m: Result<(Seq<char>, u8, Op), ConditionError>,
) -> bool {
    match (r, m) {
        (Ok(c), Ok((n, v, o))) => c.tag_name@ == n && c.value == v && c.op == o,
        (Err(e), Err(f)) => e == f,
        _ => false,
    }
}

/// First index of `op`'s text in `s` (whose length is `n`).
fn find_op(s: &str, n: usize, op: Op) -> (r: Option<usize>)
    requires
        n == s@.len(),
    ensures
        match r {
            Some(i) => find_from(s@, op.symbol(), 0) == Some(i as int),
            None => find_from(s@, op.symbol(), 0) is None,
        },
{
    let p = op.as_str();
    let plen = p.unicode_len();
    let mut i: usize = 0;
    while plen <= n - i
        invariant
            n == s@.len(),
            p@ == op.symbol(),
            plen == p@.len(),
            1 <= plen <= 2,
            i <= n,
            find_from(s@, op.symbol(), 0) == find_from(s@, op.symbol(), i as int),
        decreases n - i,
    {
        let c0 = s.get_char(i);
        let hit = if c0 == p.get_char(0) {
            if plen == 1 {
                true
            } else {
                s.get_char(i + 1) == p.get_char(1)
            }
        } else {
            false
        };
        if hit {
            assert(s@.subrange(i as int, i + plen) =~= p@);
            return Some(i);
        }
        assert(!occurs_at(s@, op.symbol(), i as int)) by {
            if s@.subrange(i as int, i + plen) == p@ {
                assert(s@.subrange(i as int, i + plen)[0] == p@[0]);
                if plen == 2 {
                    assert(s@.subrange(i as int, i + plen)[1] == p@[1]);
                }
            }
        }
        i = i + 1;
    }
    None
}

/// The trimmed range `[lo, hi)` of `s[from..to]`.
fn trim_range(s: &str, from: usize, to: usize) -> (r: (usize, usize))
    requires
        from <= to <= s@.len(),
    ensures
        from <= r.0 <= r.1 <= to,
        s@.subrange(r.0 as int, r.1 as int) == trim(s@.subrange(from as int, to as int)),
{
    let ghost t = s@.subrange(from as int, to as int);
    let mut lo: usize = from;
    while lo < to && is_white_char(s.get_char(lo))
        invariant
            from <= lo <= to <= s@.len(),
            t == s@.subrange(from as int, to as int),
            skip_white(t, 0) == skip_white(t, lo - from),
        decreases to - lo,
    {
        lo = lo + 1;
    }
    assert(skip_white(t, (lo - from) as int) == lo - from);
    let mut hi: usize = to;
    while hi > lo && is_white_char(s.get_char(hi - 1))
        invariant
            from <= lo <= hi <= to <= s@.len(),
            t == s@.subrange(from as int, to as int),
            skip_white_back(t, lo - from, t.len() as int) == skip_white_back(
                t,
                lo - from,
                hi - from,
            ),
        decreases hi - lo,
    {
        hi = hi - 1;
    }
    assert(skip_white_back(t, lo - from, (hi - from) as int) == hi - from);
    assert(s@.subrange(lo as int, hi as int) =~= t.subrange(lo - from, hi - from));
    (lo, hi)
}

fn is_white_char(c: char) -> (r: bool)
    ensures
        r == is_white(c),
{
    ('\u{9}' <= c && c <= '\u{d}') || c == ' ' || c == '\u{85}' || c == '\u{a0}' || c
        == '\u{1680}' || ('\u{2000}' <= c && c <= '\u{200a}') || c == '\u{2028}' || c
        == '\u{2029}' || c == '\u{202f}' || c == '\u{205f}' || c == '\u{3000}'
}

proof fn lemma_find_occurs(s: Seq<char>, p: Seq<char>, i: int)
    requires
        find_from(s, p, i) is Some,
    ensures
        occurs_at(s, p, find_from(s, p, i)->Some_0),
    decreases s.len() - i,
{
    if !occurs_at(s, p, i) {
        lemma_find_occurs(s, p, i + 1);
    }
}

fn priority_op(k: usize) -> (r: Op)
    requires
        k < 6,
    ensures
        r == op_priority()[k as int],
{
    match k {
        0 => Op::Ge,
        1 => Op::Le,
        2 => Op::Ne,
        3 => Op::Gt,
        4 => Op::Lt,
        _ => Op::Eq,
    }
}

/// The value written in `s[lo..hi]`, which must lie in 0..=9.
fn parse_value(s: &str, lo: usize, hi: usize) -> (r: Result<u8, ConditionError>)
    requires
        lo <= hi <= s@.len(),
    ensures
        ({
            let v = s@.subrange(lo as int, hi as int);
            match r {
                Ok(x) => is_number(v) && digits_value(value_digits(v)) == x && x <= 9 && !(
                is_negative(v) && x != 0),
                Err(e) => if !is_number(v) {
                    e == ConditionError::NonNumericValue
                } else {
                    (digits_value(value_digits(v)) > 9 || (is_negative(v) && digits_value(
                        value_digits(v),
                    ) != 0)) && e == ConditionError::ValueOutOfRange
                },
            }
        }),
{
    let ghost v = s@.subrange(lo as int, hi as int);
    let mut start: usize = lo;
    let negative = lo < hi && s.get_char(lo) == '-';
    if lo < hi && (s.get_char(lo) == '+' || s.get_char(lo) == '-') {
        start = lo + 1;
        assert(value_digits(v) =~= s@.subrange(start as int, hi as int));
    } else {
        assert(value_digits(v) =~= s@.subrange(start as int, hi as int));
    }
    let ghost d = value_digits(v);
    if start == hi {
        return Err(ConditionError::NonNumericValue);
    }
    let mut cap: u8 = 0;
    let mut i: usize = start;
    while i < hi
        invariant
            lo <= start <= i <= hi <= s@.len(),
            d == s@.subrange(start as int, hi as int),
            v == s@.subrange(lo as int, hi as int),
            d == value_digits(v),
            negative == is_negative(v),
            forall|j: int| 0 <= j < i - start ==> is_digit(#[trigger] d[j]),
            cap as nat == if digits_value(d.subrange(0, i - start)) >= 10 {
                10
            } else {
                digits_value(d.subrange(0, i - start))
            },
        decreases hi - i,
    {
        let c = s.get_char(i);
        if !('0' <= c && c <= '9') {
            assert(!is_digit(d[i - start]));
            assert(!is_number(v));
            return Err(ConditionError::NonNumericValue);
        }
        let ghost prev = d.subrange(0, i - start);
        let ghost next = d.subrange(0, i + 1 - start);
        assert(next.drop_last() =~= prev);
        let ghost dig = (c as nat - '0' as nat) as nat;
        assert(digits_value(next) == digits_value(prev) * 10 + dig);
        if cap >= 10 {
            assert(digits_value(next) >= 10) by (nonlinear_arith)
                requires
                    digits_value(prev) >= 10,
                    digits_value(next) == digits_value(prev) * 10 + dig,
            ;
        } else {
            let x: u8 = cap * 10 + (c as u8 - '0' as u8);
            cap = if x >= 10 {
                10
            } else {
                x
            };
        }
        i = i + 1;
    }
    assert(d.subrange(0, i - start) =~= d);
    if cap > 9 || (negative && cap != 0) {
        Err(ConditionError::ValueOutOfRange)
    } else {
        Ok(cap)
    }
}

/// Parse a condition such as `energy>=7` into its tag name, value and operator.
///
/// Operators are looked for in the order `>=`, `<=`, `!=`, `>`, `<`, `=`; the
/// first one found anywhere splits the text at its first occurrence. The text
/// before it, trimmed, is the tag name and must not be empty; the text after
/// it, trimmed, must be a decimal number from 0 to 9.
pub fn parse_tag_condition(condition: &str) -> (r: Result<Condition, ConditionError>)
    ensures
        parsed_as(r, parse_spec(condition@)),
{
    let n = condition.unicode_len();
    let mut k: usize = 0;
    while k < 6
        invariant
            0 <= k <= 6,
            n == condition@.len(),
            parse_from(condition@, 0) == parse_from(condition@, k as int),
        decreases 6 - k,
    {
        let op = priority_op(k);
        match find_op(condition, n, op) {
            Some(pos) => {
                proof {
                    lemma_find_occurs(condition@, op.symbol(), 0);
                }
                let end = pos + op.as_str().unicode_len();
                let (a, b) = trim_range(condition, 0, pos);
                if a == b {
                    return Err(ConditionError::EmptyTagName);
                }
                let (c, d) = trim_range(condition, end, n);
                let value = match parse_value(condition, c, d) {
                    Ok(x) => x,
                    Err(e) => {
                        return Err(e);
                    },
                };
                let tag_name = String::from_str(condition.substring_char(a, b));
                return Ok(Condition { tag_name, value, op });
            },
            None => {
                k = k + 1;
            },
        }
    }
    Err(ConditionError::NoOperatorFound)
}

/// Why a `name=value` assignment was rejected.
#[derive(Clone, Copy, Debug, PartialEq, Eq, Structural)]
pub enum AssignmentError {
    Parse(ConditionError),
    /// The text parsed, but with an operator other than `=`.
    NotEquality,
}

/// Parse a value assignment such as `energy=7`: a condition whose operator is `=`.
pub fn parse_tag_assignment(arg: &str) -> (r: Result<Condition, AssignmentError>)
    ensures
        match parse_spec(arg@) {
            Ok((n, v, o)) => if o == Op::Eq {
                r matches Ok(c) && c.tag_name@ == n && c.value == v && c.op == Op::Eq
            } else {
                r == Err::<Condition, AssignmentError>(AssignmentError::NotEquality)
            },
            Err(e) => r == Err::<Condition, AssignmentError>(AssignmentError::Parse(e)),
        },
{
    match parse_tag_condition(arg) {
        Ok(c) => if c.op == Op::Eq {
            Ok(c)
        } else {
            Err(AssignmentError::NotEquality)
        },
        Err(e) => Err(AssignmentError::Parse(e)),
    }
}

/// Parse every condition of a list, stopping at the first that is rejected.
pub fn parse_conditions(texts: &Vec<String>) -> (r: Result<Vec<Condition>, ConditionError>)
    ensures
        match r {
            Ok(cs) => cs@.len() == texts@.len() && forall|i: int|
                0 <= i < texts@.len() ==> parsed_as(
                    Ok(#[trigger] cs@[i]),
                    parse_spec(texts@[i]@),
                ),
            Err(e) => exists|i: int|
                0 <= i < texts@.len() && parse_spec(texts@[i]@) == Err::<(Seq<char>, u8, Op), ConditionError>(e)
                    && forall|j: int| 0 <= j < i ==> #[trigger] parse_spec(texts@[j]@) is Ok,
        },
{
    let mut out: Vec<Condition> = Vec::new();
    let mut i: usize = 0;
    while i < texts.len()
        invariant
            i <= texts@.len(),
            out@.len() == i,
            forall|j: int| 0 <= j < i ==> parsed_as(Ok(#[trigger] out@[j]), parse_spec(texts@[j]@)),
            forall|j: int| 0 <= j < i ==> #[trigger] parse_spec(texts@[j]@) is Ok,
        decreases texts@.len() - i,
    {
        match parse_tag_condition(texts[i].as_str()) {
            Ok(c) => {
                out.push(c);
            },
            Err(e) => {
                return Err(e);
            },
        }
        i = i + 1;
    }
    Ok(out)
}

} // verus!
