//! Command-line values of the scheduling simulator: the comma-separated
//! worker-time pattern and the checks made before a run.
use vstd::prelude::*;

use crate::probe::{trim, trim_text};
use crate::text::{decimal, digit_char};

verus! {

/// The comma-separated fields of a text, in order; a text without commas is
/// one field, and every comma starts a new (possibly empty) field.
pub open spec fn fields(s: Seq<char>) -> Seq<Seq<char>>
    decreases s.len(),
{
    if s.len() == 0 {
        seq![Seq::empty()]
    } else if s.last() == ',' {
        fields(s.drop_last()).push(Seq::empty())
    } else {
        let f = fields(s.drop_last());
        f.update(f.len() - 1, f.last().push(s.last()))
    }
}

pub open spec fn is_digit(c: char) -> bool {
    48 <= (c as u32) <= 57
}

/// The number written by a string of decimal digits.
pub open spec fn digits_value(d: Seq<char>) -> int
    decreases d.len(),
{
    if d.len() == 0 {
        0
    } else {
        digits_value(d.drop_last()) * 10 + ((d.last() as u32) - 48)
    }
}

/// `str::parse::<u64>`: an optional `+`, then one or more decimal digits,
/// with a value that fits in `u64`.
pub open spec fn parse_u64(s: Seq<char>) -> Option<u64> {
    parse_digits(unsigned_digits(s))
}

/// The text after an optional leading `+`.
pub open spec fn unsigned_digits(s: Seq<char>) -> Seq<char> {
    if s.len() > 0 && s[0] == '+' {
        s.drop_first()
    } else {
        s
    }
}

/// The value of a non-empty string of decimal digits that fits in `u64`.
pub open spec fn parse_digits(d: Seq<char>) -> Option<u64> {
    if d.len() > 0 && (forall|i: int| 0 <= i < d.len() ==> #[trigger] is_digit(d[i]))
        && digits_value(d) <= u64::MAX {
        Some(digits_value(d) as u64)
    } else {
        None
    }
}

/// The values of a list of pattern fields, or the first field (trimmed)
/// that is not a `u64`.
pub open spec fn field_values(fs: Seq<Seq<char>>) -> Result<Seq<u64>, Seq<char>>
    decreases fs.len(),
{
    if fs.len() == 0 {
        Ok(Seq::empty())
    } else {
        match field_values(fs.drop_last()) {
            Err(e) => Err(e),
            Ok(vs) => match parse_u64(trim(fs.last())) {
                Some(v) => Ok(vs.push(v)),
                None => Err(trim(fs.last())),
            },
        }
    }
}

/// The worker-time pattern written in `pattern`: empty when absent or blank.
pub open spec fn pattern_spec(pattern: Option<String>) -> Result<Seq<u64>, Seq<char>> {
    let s = match pattern {
        Some(p) => p@,
        None => Seq::empty(),
    };
    if trim(s).len() == 0 {
        Ok(Seq::empty())
    } else {
        field_values(fields(s))
    }
}

proof fn lemma_digits_grow(d: Seq<char>, k: int)
    requires
        0 <= k <= d.len(),
        forall|i: int| 0 <= i < d.len() ==> #[trigger] is_digit(d[i]),
    ensures
        digits_value(d.subrange(0, k)) <= digits_value(d),
        digits_value(d.subrange(0, k)) >= 0,
    decreases d.len() - k,
{
    if k == d.len() {
        assert(d.subrange(0, k) =~= d);
        lemma_digits_nonneg(d);
    } else {
        let longer = d.subrange(0, k + 1);
        assert(longer.drop_last() =~= d.subrange(0, k));
        assert(is_digit(d[k]));
        lemma_digits_grow(d, k + 1);
        lemma_digits_nonneg(d.subrange(0, k));
    }
}

proof fn lemma_digits_nonneg(d: Seq<char>)
    requires
        forall|i: int| 0 <= i < d.len() ==> #[trigger] is_digit(d[i]),
    ensures
        digits_value(d) >= 0,
    decreases d.len(),
{
    if d.len() > 0 {
        let t = d.drop_last();
        assert forall|i: int| 0 <= i < t.len() implies #[trigger] is_digit(t[i]) by {
            assert(t[i] == d[i]);
        }
        lemma_digits_nonneg(t);
        assert(is_digit(d.last()));
    }
}

/// Parses a decimal `u64` as `str::parse::<u64>` does.
pub fn parse_u64_text(s: &str) -> (r: Option<u64>)
    ensures
        r == parse_u64(s@),
{
    let n = s.unicode_len();
    let mut start: usize = 0;
    if n > 0 && s.get_char(0) == '+' {
        start = 1;
    }
    let ghost d = unsigned_digits(s@);
    assert(d =~= s@.subrange(start as int, n as int));
    if start == n {
        return None;
    }
    let mut value: u64 = 0;
    let mut i: usize = start;
    while i < n
        invariant
            n == s@.len(),
            start <= i <= n,
            d == s@.subrange(start as int, n as int),
            d == unsigned_digits(s@),
            forall|j: int| 0 <= j < i - start ==> #[trigger] is_digit(d[j]),
            value == digits_value(d.subrange(0, i - start)),
        decreases n - i,
    {
        let c = s.get_char(i);
        let x = c as u32;
        let ghost k = i - start;
        if x < 48 || x > 57 {
            assert(d[k] == c);
            assert(!is_digit(d[k]));
            assert(parse_digits(d) is None);
            return None;
        }
        assert(d[k] == c);
        assert(d.subrange(0, k + 1).drop_last() =~= d.subrange(0, k));
        let digit = (x - 48) as u64;
        assert(digits_value(d.subrange(0, k + 1)) == value * 10 + digit);
        match value.checked_mul(10) {
            Some(m) => match m.checked_add(digit) {
                Some(v) => {
                    value = v;
                },
                None => {
                    proof {
                        if forall|j2: int| 0 <= j2 < d.len() ==> #[trigger] is_digit(d[j2]) {
                            lemma_digits_grow(d, k + 1);
                        }
                    }
                    return None;
                },
            },
            None => {
                proof {
                    if forall|j2: int| 0 <= j2 < d.len() ==> #[trigger] is_digit(d[j2]) {
                        lemma_digits_grow(d, k + 1);
                        lemma_digits_nonneg(d.subrange(0, k));
                    }
                }
                return None;
            },
        }
        i = i + 1;
    }
    assert(d.subrange(0, n - start) =~= d);
    Some(value)
}


proof fn lemma_fields_nonempty(s: Seq<char>)
    ensures
        fields(s).len() >= 1,
    decreases s.len(),
{
    if s.len() > 0 {
        lemma_fields_nonempty(s.drop_last());
    }
}

/// A comma splits a text into the fields before it and the fields after it.
proof fn lemma_fields_concat(a: Seq<char>, b: Seq<char>)
    ensures
        fields(a + seq![','] + b) == fields(a) + fields(b),
    decreases b.len(),
{
    let x = a + seq![','] + b;
    if b.len() == 0 {
        assert(x.drop_last() =~= a);
        assert(fields(b) =~= seq![Seq::<char>::empty()]);
        assert(fields(x) =~= fields(a) + fields(b));
    } else {
        let b1 = b.drop_last();
        assert(x.drop_last() =~= a + seq![','] + b1);
        assert(x.last() == b.last());
        lemma_fields_concat(a, b1);
        lemma_fields_nonempty(b1);
        if b.last() == ',' {
            assert(fields(x) =~= fields(a) + fields(b));
        } else {
            let f = fields(a) + fields(b1);
            assert(f.last() == fields(b1).last());
            assert(fields(x) =~= fields(a) + fields(b));
        }
    }
}

proof fn lemma_field_values_err_extends(fs: Seq<Seq<char>>, more: Seq<Seq<char>>)
    requires
        field_values(fs) is Err,
    ensures
        field_values(fs + more) == field_values(fs),
    decreases more.len(),
{
    if more.len() > 0 {
        assert((fs + more).drop_last() =~= fs + more.drop_last());
        lemma_field_values_err_extends(fs, more.drop_last());
    } else {
        assert(fs + more =~= fs);
    }
}

fn field_value(s: &str, start: usize, end: usize) -> (r: (String, Option<u64>))
    requires
        start <= end <= s@.len(),
    ensures
        r.0@ == trim(s@.subrange(start as int, end as int)),
        r.1 == parse_u64(r.0@),
{
    let piece = s.substring_char(start, end);
    let trimmed = trim_text(piece);
    let value = parse_u64_text(trimmed.as_str());
    (trimmed, value)
}

/// Reads a comma-separated worker-time pattern. Absent or blank text gives
/// the empty pattern; otherwise every field, trimmed, must be a `u64`, and
/// the first field that is not is returned as the error.
pub fn parse_pattern(pattern: Option<String>) -> (r: Result<Vec<u64>, String>)
    ensures
        match pattern_spec(pattern) {
            Ok(vs) => r is Ok && r->Ok_0@ == vs,
            Err(e) => r is Err && r->Err_0@ == e,
        },
{
    let text = match &pattern {
        Some(p) => p.clone(),
        None => String::new(),
    };
    let s = text.as_str();
    let whole = trim_text(s);
    if whole.unicode_len() == 0 {
        return Ok(Vec::new());
    }
    let n = s.unicode_len();
    assert(pattern_spec(pattern) == field_values(fields(s@)));
    let mut values: Vec<u64> = Vec::new();
    let mut start: usize = 0;
    let mut i: usize = 0;
    let ghost mut done: Seq<Seq<char>> = Seq::empty();
    proof {
        assert(s@.subrange(0, 0) =~= Seq::<char>::empty());
        assert(fields(s@.subrange(0, 0)) =~= done.push(s@.subrange(0, 0)));
    }
    while i < n
        invariant
            n == s@.len(),
            pattern_spec(pattern) == field_values(fields(s@)),
            start <= i <= n,
            fields(s@.subrange(0, i as int)) == done.push(s@.subrange(start as int, i as int)),
            field_values(done) == Ok::<Seq<u64>, Seq<char>>(values@),
        decreases n - i,
    {
        if s.get_char(i) == ',' {
            let (trimmed, value) = field_value(s, start, i);
            let ghost fs = done.push(s@.subrange(start as int, i as int));
            assert(fs.drop_last() =~= done);
            match value {
                Some(v) => {
                    values.push(v);
                },
                None => {
                    proof {
                        assert(fs.last() == s@.subrange(start as int, i as int));
                        assert(field_values(fs) == Err::<Seq<u64>, Seq<char>>(trimmed@));
                        let a = s@.subrange(0, i as int);
                        let b = s@.subrange(i as int + 1, n as int);
                        assert(s@ =~= a + seq![','] + b);
                        lemma_fields_concat(a, b);
                        lemma_field_values_err_extends(fs, fields(b));
                    }
                    return Err(trimmed);
                },
            }
            proof {
                done = fs;
                let p = s@.subrange(0, i as int + 1);
                assert(p.drop_last() =~= s@.subrange(0, i as int));
                assert(s@.subrange(i as int + 1, i as int + 1) =~= Seq::<char>::empty());
            }
            start = i + 1;
        } else {
            proof {
                let p = s@.subrange(0, i as int + 1);
                assert(p.drop_last() =~= s@.subrange(0, i as int));
                assert(s@.subrange(start as int, i as int + 1) =~= s@.subrange(
                    start as int,
                    i as int,
                ).push(s@[i as int]));
            }
        }
        i = i + 1;
    }
    let (trimmed, value) = field_value(s, start, n);
    let ghost fs = done.push(s@.subrange(start as int, n as int));
    assert(fs.drop_last() =~= done);
    assert(s@.subrange(0, n as int) =~= s@);
    match value {
        Some(v) => {
            values.push(v);
            Ok(values)
        },
        None => Err(trimmed),
    }
}


/// A pattern field that is neither blank nor a positive `u64`.
pub open spec fn bad_pattern_field(f: Seq<char>) -> bool {
    trim(f).len() > 0 && (parse_u64(trim(f)) is None || parse_u64(trim(f)) == Some(0u64))
}

/// Some field of the pattern text is neither blank nor a positive `u64`.
pub open spec fn pattern_has_bad_field(p: Seq<char>) -> bool {
    exists|i: int| 0 <= i < fields(p).len() && bad_pattern_field(#[trigger] fields(p)[i])
}

fn is_bad_field(s: &str, start: usize, end: usize) -> (r: bool)
    requires
        start <= end <= s@.len(),
    ensures
        r == bad_pattern_field(s@.subrange(start as int, end as int)),
{
    let (trimmed, value) = field_value(s, start, end);
    if trimmed.unicode_len() == 0 {
        return false;
    }
    match value {
        Some(v) => v == 0,
        None => true,
    }
}

/// Whether some comma-separated field of `s` is neither blank nor a positive `u64`.
fn has_bad_field(s: &str) -> (r: bool)
    ensures
        r == pattern_has_bad_field(s@),
{
    let n = s.unicode_len();
    let mut start: usize = 0;
    let mut i: usize = 0;
    let ghost mut done: Seq<Seq<char>> = Seq::empty();
    proof {
        assert(s@.subrange(0, 0) =~= Seq::<char>::empty());
        assert(fields(s@.subrange(0, 0)) =~= done.push(s@.subrange(0, 0)));
    }
    while i < n
        invariant
            n == s@.len(),
            start <= i <= n,
            fields(s@.subrange(0, i as int)) == done.push(s@.subrange(start as int, i as int)),
            forall|j: int| 0 <= j < done.len() ==> !bad_pattern_field(#[trigger] done[j]),
        decreases n - i,
    {
        if s.get_char(i) == ',' {
            let ghost fs = done.push(s@.subrange(start as int, i as int));
            let ghost a = s@.subrange(0, i as int);
            let ghost b = s@.subrange(i as int + 1, n as int);
            proof {
                assert(s@ =~= a + seq![','] + b);
                lemma_fields_concat(a, b);
                assert(fields(s@) == fs + fields(b));
            }
            if is_bad_field(s, start, i) {
                assert(fields(s@)[fs.len() - 1] == fs.last());
                return true;
            }
            proof {
                done = fs;
                let p = s@.subrange(0, i as int + 1);
                assert(p.drop_last() =~= s@.subrange(0, i as int));
                assert(s@.subrange(i as int + 1, i as int + 1) =~= Seq::<char>::empty());
            }
            start = i + 1;
        } else {
            proof {
                let p = s@.subrange(0, i as int + 1);
                assert(p.drop_last() =~= s@.subrange(0, i as int));
                assert(s@.subrange(start as int, i as int + 1) =~= s@.subrange(
                    start as int,
                    i as int,
                ).push(s@[i as int]));
            }
        }
        i = i + 1;
    }
    assert(s@.subrange(0, n as int) =~= s@);
    let last_bad = is_bad_field(s, start, n);
    proof {
        let fs = fields(s@);
        if !last_bad {
            assert forall|j: int| 0 <= j < fs.len() implies !bad_pattern_field(#[trigger] fs[j]) by {
                if j < done.len() {
                    assert(fs[j] == done[j]);
                }
            }
        } else {
            assert(fs[fs.len() - 1] == s@.subrange(start as int, n as int));
        }
    }
    last_bad
}

/// Why the simulator's arguments are refused.
#[derive(Clone, Copy, Debug, PartialEq, Eq, Structural)]
pub enum SimArgsError {
    DurationZero,
    ChunkZero,
    HopZero,
    QueueCapacityZero,
    PatternValueNotPositive,
}

pub open spec fn sim_args_message(e: SimArgsError) -> Seq<char> {
    match e {
        SimArgsError::DurationZero => "duration-ms must be > 0"@,
        SimArgsError::ChunkZero => "chunk-ms must be > 0"@,
        SimArgsError::HopZero => "hop-ms must be > 0"@,
        SimArgsError::QueueCapacityZero => "queue-capacity must be > 0"@,
        SimArgsError::PatternValueNotPositive => "worker-ms-pattern values must all be > 0 (or omitted)"@,
    }
}

impl SimArgsError {
    pub fn message(&self) -> (m: &'static str)
        ensures
            m@ == sim_args_message(*self),
    {
        match self {
            SimArgsError::DurationZero => "duration-ms must be > 0",
            SimArgsError::ChunkZero => "chunk-ms must be > 0",
            SimArgsError::HopZero => "hop-ms must be > 0",
            SimArgsError::QueueCapacityZero => "queue-capacity must be > 0",
            SimArgsError::PatternValueNotPositive => "worker-ms-pattern values must all be > 0 (or omitted)",
        }
    }
}

/// The first check that the simulator's arguments fail, if any.
pub open spec fn validate_input_spec(
    duration_ms: u64,
    chunk_ms: u64,
    hop_ms: u64,
    queue_capacity: usize,
    worker_ms_pattern: Option<Seq<char>>,
) -> Result<(), SimArgsError> {
    if duration_ms == 0 {
        Err(SimArgsError::DurationZero)
    } else if chunk_ms == 0 {
        Err(SimArgsError::ChunkZero)
    } else if hop_ms == 0 {
        Err(SimArgsError::HopZero)
    } else if queue_capacity == 0 {
        Err(SimArgsError::QueueCapacityZero)
    } else if worker_ms_pattern matches Some(p) && pattern_has_bad_field(p) {
        Err(SimArgsError::PatternValueNotPositive)
    } else {
        Ok(())
    }
}

/// Checks the simulator's arguments: positive durations and capacity, and a
/// pattern whose non-blank fields are positive integers.
pub fn validate_input(
    duration_ms: u64,
    chunk_ms: u64,
    hop_ms: u64,
    queue_capacity: usize,
    worker_ms_pattern: Option<&str>,
) -> (r: Result<(), SimArgsError>)
    ensures
        r == validate_input_spec(
            duration_ms,
            chunk_ms,
            hop_ms,
            queue_capacity,
            match worker_ms_pattern {
                Some(p) => Some(p@),
                None => None,
            },
        ),
{
    if duration_ms == 0 {
        return Err(SimArgsError::DurationZero);
    }
    if chunk_ms == 0 {
        return Err(SimArgsError::ChunkZero);
    }
    if hop_ms == 0 {
        return Err(SimArgsError::HopZero);
    }
    if queue_capacity == 0 {
        return Err(SimArgsError::QueueCapacityZero);
    }
    match worker_ms_pattern {
        Some(p) => {
            if has_bad_field(p) {
                return Err(SimArgsError::PatternValueNotPositive);
            }
        },
        None => {},
    }
    Ok(())
}

proof fn lemma_field_values_ok(fs: Seq<Seq<char>>)
    requires
        field_values(fs) is Ok,
    ensures
        field_values(fs)->Ok_0.len() == fs.len(),
        forall|i: int|
            0 <= i < fs.len() ==> parse_u64(trim(#[trigger] fs[i])) == Some(
                field_values(fs)->Ok_0[i],
            ),
    decreases fs.len(),
{
    if fs.len() > 0 {
        let rest = fs.drop_last();
        lemma_field_values_ok(rest);
        let vs = field_values(fs)->Ok_0;
        assert forall|i: int| 0 <= i < fs.len() implies parse_u64(trim(#[trigger] fs[i])) == Some(
            vs[i],
        ) by {
            if i < rest.len() {
                assert(fs[i] == rest[i]);
            }
        }
    }
}

/// A pattern that `validate_input` accepts and `parse_pattern` reads holds
/// only positive worker times.
pub proof fn law_validated_pattern_is_positive(pattern: String)
    requires
        !pattern_has_bad_field(pattern@),
        pattern_spec(Some(pattern)) is Ok,
    ensures
        forall|i: int|
            0 <= i < pattern_spec(Some(pattern))->Ok_0.len() ==> #[trigger] pattern_spec(
                Some(pattern),
            )->Ok_0[i] > 0,
{
    let s = pattern@;
    if trim(s).len() != 0 {
        let fs = fields(s);
        lemma_field_values_ok(fs);
        let vs = field_values(fs)->Ok_0;
        assert forall|i: int| 0 <= i < vs.len() implies #[trigger] vs[i] > 0 by {
            assert(parse_u64(trim(fs[i])) == Some(vs[i]));
            assert(!bad_pattern_field(fs[i]));
            if trim(fs[i]).len() == 0 {
                assert(unsigned_digits(trim(fs[i])).len() == 0);
            }
        }
    }
}

proof fn lemma_decimal_reads_back(n: nat)
    ensures
        decimal(n).len() >= 1,
        forall|i: int| 0 <= i < decimal(n).len() ==> #[trigger] is_digit(decimal(n)[i]),
        digits_value(decimal(n)) == n,
    decreases n,
{
    if n < 10 {
        let d = decimal(n);
        assert(d == seq![digit_char(n)]);
        assert(d.drop_last() =~= Seq::<char>::empty());
        assert(digits_value(Seq::<char>::empty()) == 0);
        assert(digit_char(n) as u32 == 48 + n);
        assert(digits_value(d) == digits_value(d.drop_last()) * 10 + ((d.last() as u32) - 48));
    } else {
        lemma_decimal_reads_back(n / 10);
        let p = decimal(n / 10);
        let c = digit_char(n % 10);
        let d = decimal(n);
        assert(d == p.push(c));
        assert(d.drop_last() =~= p);
        assert(c as u32 == 48 + n % 10);
        assert(digits_value(d) == digits_value(p) * 10 + ((c as u32) - 48));
        assert(n == (n / 10) * 10 + n % 10);
        assert forall|i: int| 0 <= i < d.len() implies #[trigger] is_digit(d[i]) by {
            if i < p.len() {
                assert(d[i] == p[i]);
            }
        }
    }
}

/// Reading the decimal rendering of any `u64` gives the number back: the
/// pattern parser reads exactly what reports print.
pub proof fn law_parse_reads_decimal(n: u64)
    ensures
        parse_u64(decimal(n as nat)) == Some(n),
{
    lemma_decimal_reads_back(n as nat);
    let d = decimal(n as nat);
    assert(is_digit(d[0]));
    assert(unsigned_digits(d) == d);
}

} // verus!
