use vstd::prelude::*;

verus! {

/// Whether `c` is one of the ASCII digits.
pub open spec fn is_digit(c: char) -> bool {
    48 <= c as u32 <= 57
}

/// The value of a string of decimal digits, most significant first.
pub open spec fn digits_value(d: Seq<char>) -> nat
    decreases d.len(),
{
    if d.len() == 0 {
        0
    } else {
        digits_value(d.drop_last()) * 10 + (d.last() as u32 - 48) as nat
    }
}

/// `s` without its leading `+`, if it has one.
pub open spec fn unsigned_part(s: Seq<char>) -> Seq<char> {
    if s.len() > 0 && s[0] == '+' {
        s.drop_first()
    } else {
        s
    }
}

/// Whether every character of `d` is a digit.
pub open spec fn all_digits(d: Seq<char>) -> bool {
    forall|i: int| 0 <= i < d.len() ==> is_digit(#[trigger] d[i])
}

/// The number that `s` writes in decimal, with an optional leading `+`, if
/// it has at least one digit, nothing else, and fits in a `usize`.
pub open spec fn spec_parse_number(s: Seq<char>) -> Option<nat> {
    let d = unsigned_part(s);
    if d.len() > 0 && all_digits(d) && digits_value(d) <= usize::MAX {
        Some(digits_value(d))
    } else {
        None
    }
}

proof fn lemma_prefix_value(d: Seq<char>, k: int)
    requires
        0 <= k <= d.len(),
        all_digits(d),
    ensures
        digits_value(d.take(k)) <= digits_value(d),
    decreases d.len(),
{
    if k < d.len() {
        assert(d.drop_last().take(k) =~= d.take(k));
        lemma_prefix_value(d.drop_last(), k);
    } else {
        assert(d.take(k) =~= d);
    }
}

/// Read a decimal number as `spec_parse_number` describes.
pub fn parse_number(s: &str) -> (r: Option<usize>)
    ensures
        match r {
            Some(v) => spec_parse_number(s@) == Some(v as nat),
            None => spec_parse_number(s@) is None,
        },
{
    let n = s.unicode_len();
    let start: usize = if n > 0 && s.get_char(0) == '+' {
        1
    } else {
        0
    };
    let ghost d = unsigned_part(s@);
    assert(d =~= s@.skip(start as int));
    if start == n {
        return None;
    }
    let mut v: usize = 0;
    let mut i: usize = start;
    while i < n
        invariant
            n == s@.len(),
            start <= i <= n,
            d == s@.skip(start as int),
            d == unsigned_part(s@),
            forall|j: int| 0 <= j < i - start ==> is_digit(#[trigger] d[j]),
            v as nat == digits_value(d.take(i - start)),
        decreases n - i,
    {
        let c = s.get_char(i);
        proof {
            assert(d[i - start] == c);
            assert(d.take(i - start + 1).drop_last() =~= d.take(i - start));
        }
        let code = c as u32;
        if !(48 <= code && code <= 57) {
            assert(!is_digit(d[i - start]));
            assert(!all_digits(d));
            return None;
        }
        let digit = (code - 48) as usize;
        if v > (usize::MAX - digit) / 10 {
            proof {
                let m = usize::MAX as int;
                assert(v as int * 10 + digit as int > m) by (nonlinear_arith)
                    requires
                        v as int > (m - digit as int) / 10,
                        0 <= digit <= 9,
                        m > 9,
                ;
                assert(digits_value(d.take(i - start + 1)) == v as nat * 10 + digit as nat);
                if all_digits(d) {
                    lemma_prefix_value(d, i - start + 1);
                }
            }
            return None;
        }
        v = v * 10 + digit;
        i = i + 1;
    }
    assert(d.take(i - start) =~= d);
    Some(v)
}

/// Why a number given on the command line was skipped. `arg` is the
/// argument's position among those given.
#[derive(Clone, Copy, PartialEq, Eq, Structural, Debug)]
pub enum IndexIssue {
    /// The argument is not a number.
    NotANumber { arg: usize },
    /// The argument is a number, but no entry carries it.
    OutOfRange { arg: usize, number: usize },
}

/// What the `k`-th argument `a` selects in a list of `len` entries: the
/// 0-based position of the entry that it numbers (from 1), or why it selects
/// none.
pub open spec fn spec_locate(a: Seq<char>, k: int, len: nat) -> Result<usize, IndexIssue> {
    match spec_parse_number(a) {
        None => Err(IndexIssue::NotANumber { arg: k as usize }),
        Some(n) => if 1 <= n <= len {
            Ok((n - 1) as usize)
        } else {
            Err(IndexIssue::OutOfRange { arg: k as usize, number: n as usize })
        },
    }
}

/// Locate the `k`-th argument `a` in a list of `len` entries.
pub fn locate(a: &str, k: usize, len: usize) -> (r: Result<usize, IndexIssue>)
    ensures
        r == spec_locate(a@, k as int, len as nat),
{
    match parse_number(a) {
        None => Err(IndexIssue::NotANumber { arg: k }),
        Some(n) => if 1 <= n && n <= len {
            Ok(n - 1)
        } else {
            Err(IndexIssue::OutOfRange { arg: k, number: n })
        },
    }
}

/// The issues met while locating each of `args`, in order.
pub open spec fn spec_issues(args: Seq<Seq<char>>, len: nat) -> Seq<IndexIssue>
    decreases args.len(),
{
    if args.len() == 0 {
        Seq::empty()
    } else {
        let prev = spec_issues(args.drop_last(), len);
        match spec_locate(args.last(), args.len() - 1, len) {
            Ok(_) => prev,
            Err(e) => prev.push(e),
        }
    }
}

/// The 0-based positions that `args` select, in order.
pub open spec fn spec_targets(args: Seq<Seq<char>>, len: nat) -> Seq<usize>
    decreases args.len(),
{
    if args.len() == 0 {
        Seq::empty()
    } else {
        let prev = spec_targets(args.drop_last(), len);
        match spec_locate(args.last(), args.len() - 1, len) {
            Ok(i) => prev.push(i),
            Err(_) => prev,
        }
    }
}

} // verus!
