//! The one configuration value of a run: how many child processes to ask for.
use vstd::prelude::*;

verus! {

/// The number of child processes a run asks for; never zero.
#[derive(Clone, Copy, Debug, PartialEq, Eq, Structural)]
pub struct TargetCount {
    value: usize,
}

impl TargetCount {
    #[verifier::type_invariant]
    spec fn inv(&self) -> bool {
        self.value > 0
    }
}

/// Why the configured target count could not be used.
#[derive(Clone, Copy, Debug, PartialEq, Eq, Structural)]
pub enum ConfigError {
    /// The value was not supplied at all.
    Missing,
    /// The value was supplied but is not a positive decimal integer that fits in `usize`.
    Invalid,
}

/// The value of a decimal digit character.
pub open spec fn digit_value(c: char) -> nat
    recommends
        '0' <= c <= '9',
{
    (c as u32 - '0' as u32) as nat
}

/// Every character of `s` is an ASCII decimal digit.
pub open spec fn all_digits(s: Seq<char>) -> bool {
    forall|i: int| 0 <= i < s.len() ==> '0' <= #[trigger] s[i] <= '9'
}

/// The number that the decimal digits `s` denote, most significant first.
pub open spec fn digits_value(s: Seq<char>) -> nat
    decreases s.len(),
{
    if s.len() == 0 {
        0
    } else {
        digits_value(s.drop_last()) * 10 + digit_value(s.last())
    }
}

/// The digits of `s` once one leading `+`, if any, is taken off.
pub open spec fn unsigned_body(s: Seq<char>) -> Seq<char> {
    if s.len() > 0 && s[0] == '+' {
        s.subrange(1, s.len() as int)
    } else {
        s
    }
}

/// The `usize` that `s` spells as an unsigned decimal (an optional `+`, then
/// at least one digit), or `None`.
pub open spec fn parsed_usize(s: Seq<char>) -> Option<nat> {
    let body = unsigned_body(s);
    if body.len() > 0 && all_digits(body) && digits_value(body) <= usize::MAX {
        Some(digits_value(body))
    } else {
        None
    }
}

/// What the configuration value `raw` yields as a target count.
pub open spec fn target_count_of(raw: Option<Seq<char>>) -> Result<nat, ConfigError> {
    match raw {
        None => Err(ConfigError::Missing),
        Some(s) => match parsed_usize(s) {
            Some(n) if n > 0 => Ok(n),
            _ => Err(ConfigError::Invalid),
        },
    }
}

impl TargetCount {
    /// The number of processes asked for.
    pub closed spec fn spec_value(&self) -> nat {
        self.value as nat
    }

    /// The target count `n`, or `None` when `n` is zero.
    pub fn new(n: usize) -> (r: Option<TargetCount>)
        ensures
            n == 0 ==> r is None,
            n > 0 ==> (r matches Some(t) && t.spec_value() == n),
    {
        if n == 0 {
            None
        } else {
            Some(TargetCount { value: n })
        }
    }

    /// The number of processes asked for.
    pub fn value(&self) -> (r: usize)
        ensures
            r == self.spec_value(),
            r > 0,
    {
        proof {
            use_type_invariant(self);
        }
        self.value
    }
}

/// The characters of an optional string.
pub open spec fn raw_view(raw: Option<&str>) -> Option<Seq<char>> {
    match raw {
        None => None,
        Some(s) => Some(s@),
    }
}

/// A prefix of a run of digits denotes at most what the whole run denotes.
proof fn lemma_prefix_value_le(s: Seq<char>, j: int)
    requires
        0 <= j <= s.len(),
        all_digits(s),
    ensures
        digits_value(s.subrange(0, j)) <= digits_value(s),
    decreases s.len(),
{
    if j < s.len() {
        let t = s.drop_last();
        assert(all_digits(t));
        assert(t.subrange(0, j) =~= s.subrange(0, j));
        lemma_prefix_value_le(t, j);
    } else {
        assert(s.subrange(0, j) =~= s);
    }
}

/// Reads `s` as an unsigned decimal `usize`: an optional `+`, then one or more
/// digits, with no other character, and a value that fits.
pub fn parse_usize(s: &str) -> (r: Option<usize>)
    ensures
        match parsed_usize(s@) {
            Some(n) => r == Some(n as usize),
            None => r is None,
        },
{
    let n = s.unicode_len();
    let mut start: usize = 0;
    if n > 0 && s.get_char(0) == '+' {
        start = 1;
    }
    let ghost body = unsigned_body(s@);
    assert(body =~= s@.subrange(start as int, n as int));
    if start == n {
        return None;
    }
    let mut acc: usize = 0;
    let mut i: usize = start;
    assert(s@.subrange(start as int, i as int) =~= Seq::<char>::empty());
    while i < n
        invariant
            start <= i <= n,
            n == s@.len(),
            body == s@.subrange(start as int, n as int),
            body == unsigned_body(s@),
            all_digits(s@.subrange(start as int, i as int)),
            acc == digits_value(s@.subrange(start as int, i as int)),
        decreases n - i,
    {
        let c = s.get_char(i);
        let ghost pre = s@.subrange(start as int, i as int);
        let ghost next = s@.subrange(start as int, i + 1);
        assert(next.drop_last() =~= pre);
        assert(next.last() == c);
        if c < '0' || c > '9' {
            assert(body[i - start] == c);
            assert(!all_digits(body));
            return None;
        }
        let d = (c as u32 - '0' as u32) as usize;
        assert(d == digit_value(c));
        if acc > (usize::MAX - d) / 10 {
            proof {
                assert(digits_value(next) > usize::MAX);
                if all_digits(body) {
                    let j = i + 1 - start;
                    assert(body.subrange(0, j) =~= next);
                    lemma_prefix_value_le(body, j);
                }
            }
            return None;
        }
        acc = acc * 10 + d;
        i = i + 1;
        assert(all_digits(next)) by {
            assert forall|k: int| 0 <= k < next.len() implies '0' <= #[trigger] next[k] <= '9' by {
                if k < pre.len() {
                    assert(next[k] == pre[k]);
                }
            }
        }
    }
    assert(s@.subrange(start as int, i as int) =~= body);
    Some(acc)
}

/// Turns the configuration value into a target count: a missing value is
/// `Missing`; one that is not a positive decimal `usize` is `Invalid`.
pub fn parse_target_count(raw: Option<&str>) -> (r: Result<TargetCount, ConfigError>)
    ensures
        match target_count_of(raw_view(raw)) {
            Ok(n) => (r matches Ok(t) && t.spec_value() == n),
            Err(e) => r == Err::<TargetCount, ConfigError>(e),
        },
{
    match raw {
        None => Err(ConfigError::Missing),
        Some(s) => match parse_usize(s) {
            Some(n) => match TargetCount::new(n) {
                Some(t) => Ok(t),
                None => Err(ConfigError::Invalid),
            },
            None => Err(ConfigError::Invalid),
        },
    }
}

} // verus!
