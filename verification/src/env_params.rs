//! Configuration parameters parsed from environment-variable text. Reading
//! the process environment is I/O and stays with the caller; it hands the
//! raw value in, and the parsing rules live here.

use vstd::prelude::*;

verus! {

use vstd::string::StrSliceExecFns;
use vstd::string::StringExecFns;

/// An ASCII decimal digit.
pub open spec fn is_digit(c: char) -> bool {
    ('0' as u32) <= (c as u32) && (c as u32) <= ('9' as u32)
}

/// The number the digit sequence denotes.
pub open spec fn spec_digits_val(s: Seq<char>) -> int
    decreases s.len(),
{
    if s.len() == 0 {
        0
    } else {
        spec_digits_val(s.drop_last()) * 10 + ((s.last() as u32) - ('0' as u32))
    }
}

proof fn lemma_digits_val_nonneg(s: Seq<char>)
    requires
        forall|i: int| 0 <= i < s.len() ==> is_digit(#[trigger] s[i]),
    ensures
        spec_digits_val(s) >= 0,
    decreases s.len(),
{
    if s.len() > 0 {
        assert(forall|i: int| 0 <= i < s.drop_last().len() ==> #[trigger] s.drop_last()[i] == s[i]);
        lemma_digits_val_nonneg(s.drop_last());
    }
}

/// Once a digit prefix already exceeds a bound, the whole number does.
proof fn lemma_digits_prefix_exceeds(s: Seq<char>, m: int, bound: int)
    requires
        forall|i: int| 0 <= i < s.len() ==> is_digit(#[trigger] s[i]),
        0 <= m <= s.len(),
        bound >= 0,
        spec_digits_val(s.take(m)) > bound,
    ensures
        spec_digits_val(s) > bound,
    decreases s.len() - m,
{
    if m < s.len() {
        assert(forall|i: int|
            0 <= i < s.take(m).len() ==> #[trigger] s.take(m)[i] == s[i]);
        lemma_digits_val_nonneg(s.take(m));
        assert(s.take(m + 1).drop_last() =~= s.take(m));
        assert(s.take(m + 1).last() == s[m]);
        assert(spec_digits_val(s.take(m + 1)) == spec_digits_val(s.take(m)) * 10 + ((s[m] as u32)
            - ('0' as u32)));
        lemma_digits_prefix_exceeds(s, m + 1, bound);
    } else {
        assert(s.take(m) =~= s);
    }
}

/// The value a bare digit sequence denotes, when it is one or more digits
/// denoting a value within range.
pub open spec fn spec_u16_digits(d: Seq<char>) -> Option<u16> {
    if d.len() > 0 && (forall|i: int| 0 <= i < d.len() ==> is_digit(#[trigger] d[i]))
        && spec_digits_val(d) <= u16::MAX {
        Some(spec_digits_val(d) as u16)
    } else {
        None
    }
}

/// How `u16` text parses: an optional leading `+`, then one or more
/// decimal digits denoting a value within range.
pub open spec fn spec_u16_str(s: Seq<char>) -> Option<u16> {
    if s.len() > 0 && s[0] == '+' {
        spec_u16_digits(s.drop_first())
    } else {
        spec_u16_digits(s)
    }
}

/// A type a configuration parameter can take. `param_ok` says which texts
/// denote a value, `param_matches` which value a text denotes.
pub trait ConfigParamFromEnv: Sized {
    spec fn param_ok(s: Seq<char>) -> bool;

    spec fn param_matches(s: Seq<char>, v: &Self) -> bool;

    fn parse(val: &str) -> (r: Result<Self, String>)
        ensures
            r is Ok <==> Self::param_ok(val@),
            r matches Ok(v) ==> Self::param_matches(val@, &v),
    ;
}

impl ConfigParamFromEnv for String {
    open spec fn param_ok(s: Seq<char>) -> bool {
        true
    }

    open spec fn param_matches(s: Seq<char>, v: &String) -> bool {
        v@ == s
    }

    fn parse(val: &str) -> (r: Result<Self, String>) {
        Ok(val.to_owned())
    }
}

impl ConfigParamFromEnv for u16 {
    open spec fn param_ok(s: Seq<char>) -> bool {
        spec_u16_str(s) is Some
    }

    open spec fn param_matches(s: Seq<char>, v: &u16) -> bool {
        spec_u16_str(s) == Some(*v)
    }

    fn parse(val: &str) -> (r: Result<Self, String>) {
        let len = val.unicode_len();
        let start: usize = if len > 0 && val.get_char(0) == '+' {
            1
        } else {
            0
        };
        let ghost d = if start == 1 {
            val@.drop_first()
        } else {
            val@
        };
        proof {
            assert(forall|i: int| 0 <= i < d.len() ==> d[i] == val@[i + start]);
            assert(d.len() == len - start);
            assert(d.take(0) =~= Seq::<char>::empty());
        }
        if start >= len {
            return Err(String::from_str("cannot parse integer from empty string"));
        }
        let mut acc: u32 = 0;
        let mut i: usize = start;
        while i < len
            invariant
                start <= i <= len,
                len == val@.len(),
                start == 0 || start == 1,
                (start == 1) == (val@.len() > 0 && val@[0] == '+'),
                start == 1 ==> d == val@.drop_first(),
                start == 0 ==> d == val@,
                d.len() == len - start,
                forall|j: int| 0 <= j < d.len() ==> d[j] == val@[j + start],
                forall|j: int| 0 <= j < i - start ==> is_digit(#[trigger] d[j]),
                acc == spec_digits_val(d.take(i - start)),
                acc <= 0xffff,
            decreases len - i,
        {
            let c = val.get_char(i);
            let u = c as u32;
            if !(48 <= u && u <= 57) {
                proof {
                    assert(!is_digit(d[i - start]));
                    assert(spec_u16_digits(d) is None);
                    assert(spec_u16_str(val@) is None);
                }
                return Err(String::from_str("invalid digit found in string"));
            }
            proof {
                assert(d.take(i - start + 1).drop_last() =~= d.take(i - start));
                assert(d.take(i - start + 1).last() == d[i - start]);
                assert(d[i - start] == c);
            }
            acc = acc * 10 + (u - 48);
            i += 1;
            if acc > 0xffff {
                proof {
                    if forall|j: int| 0 <= j < d.len() ==> is_digit(#[trigger] d[j]) {
                        lemma_digits_prefix_exceeds(d, i - start, 0xffff);
                    }
                    assert(spec_u16_digits(d) is None);
                    assert(spec_u16_str(val@) is None);
                }
                return Err(String::from_str("number too large to fit in target type"));
            }
        }
        proof {
            assert(d.take(len - start) =~= d);
        }
        Ok(acc as u16)
    }
}

/// The position of the first comma, or the length when there is none.
pub open spec fn spec_first_comma(s: Seq<char>) -> nat
    decreases s.len(),
{
    if s.len() == 0 {
        0
    } else if s[0] == ',' {
        0
    } else {
        1 + spec_first_comma(s.drop_first())
    }
}

/// The comma-separated parts of a string, in order; `n` commas yield
/// `n + 1` parts, empty parts included.
pub open spec fn spec_split_commas(s: Seq<char>) -> Seq<Seq<char>>
    decreases s.len(),
{
    let i = spec_first_comma(s);
    if i >= s.len() {
        seq![s]
    } else {
        seq![s.take(i as int)] + spec_split_commas(s.skip(i as int + 1))
    }
}

/// The first comma is where scanning finds it: before `k` no comma, and at
/// `k` either a comma or the end.
proof fn lemma_first_comma_at(s: Seq<char>, k: int)
    requires
        0 <= k <= s.len(),
        forall|j: int| 0 <= j < k ==> s[j] != ',',
        k < s.len() ==> s[k] == ',',
    ensures
        spec_first_comma(s) == k,
    decreases s.len(),
{
    if s.len() > 0 && k > 0 {
        assert(forall|j: int|
            0 <= j < s.drop_first().len() ==> #[trigger] s.drop_first()[j] == s[j + 1]);
        lemma_first_comma_at(s.drop_first(), k - 1);
    }
}

impl<T: ConfigParamFromEnv> ConfigParamFromEnv for Vec<T> {
    open spec fn param_ok(s: Seq<char>) -> bool {
        forall|j: int|
            0 <= j < spec_split_commas(s).len() ==> T::param_ok(#[trigger] spec_split_commas(s)[j])
    }

    open spec fn param_matches(s: Seq<char>, v: &Vec<T>) -> bool {
        &&& v@.len() == spec_split_commas(s).len()
        &&& forall|j: int|
            0 <= j < v@.len() ==> T::param_matches(#[trigger] spec_split_commas(s)[j], &v@[j])
    }

    fn parse(val: &str) -> (r: Result<Self, String>) {
        let ghost full = val@;
        let len = val.unicode_len();
        let mut out: Vec<T> = Vec::new();
        let ghost mut done: Seq<Seq<char>> = Seq::empty();
        let mut start: usize = 0;
        let mut i: usize = 0;
        proof {
            assert(full.skip(0) =~= full);
            assert(Seq::<Seq<char>>::empty() + spec_split_commas(full) =~= spec_split_commas(
                full,
            ));
        }
        loop
            invariant
                start <= i <= len,
                len == full.len(),
                full == val@,
                forall|j: int| start <= j < i ==> full[j] != ',',
                spec_split_commas(full) == done + spec_split_commas(full.skip(start as int)),
                done.len() == out@.len(),
                forall|j: int| 0 <= j < done.len() ==> T::param_ok(#[trigger] done[j]),
                forall|j: int| 0 <= j < done.len() ==> T::param_matches(#[trigger] done[j], &out@[j]),
            decreases len + 1 - i,
        {
            let ghost seg = full.skip(start as int);
            if i == len {
                let part = val.substring_char(start, len);
                proof {
                    assert(forall|j: int| 0 <= j < seg.len() ==> #[trigger] seg[j] == full[j + start]);
                    lemma_first_comma_at(seg, len - start);
                    assert(spec_split_commas(seg) == seq![seg]);
                    assert(part@ =~= seg);
                    assert(spec_split_commas(full)[done.len() as int] == seg);
                }
                match T::parse(part) {
                    Err(e) => {
                        return Err(e);
                    },
                    Ok(v) => {
                        out.push(v);
                        proof {
                            done = done.push(seg);
                            assert(spec_split_commas(full) =~= done);
                        }
                        return Ok(out);
                    },
                }
            }
            let c = val.get_char(i);
            if c == ',' {
                let part = val.substring_char(start, i);
                proof {
                    assert(forall|j: int| 0 <= j < seg.len() ==> #[trigger] seg[j] == full[j + start]);
                    lemma_first_comma_at(seg, i - start);
                    assert(seg.take(i - start) =~= full.subrange(start as int, i as int));
                    assert(seg.skip(i - start + 1) =~= full.skip(i as int + 1));
                    assert(spec_split_commas(seg) == seq![full.subrange(start as int, i as int)]
                        + spec_split_commas(full.skip(i as int + 1)));
                    assert(part@ =~= full.subrange(start as int, i as int));
                    assert(spec_split_commas(full)[done.len() as int] == part@);
                }
                match T::parse(part) {
                    Err(e) => {
                        return Err(e);
                    },
                    Ok(v) => {
                        out.push(v);
                        proof {
                            done = done.push(part@);
                            assert(spec_split_commas(full) =~= done + spec_split_commas(
                                full.skip(i as int + 1),
                            ));
                        }
                        start = i + 1;
                    },
                }
            }
            i += 1;
        }
    }
}

/// Look up an optional configuration parameter: `raw` is the environment
/// variable's value as the process environment supplies it, `None` when the
/// variable is unset. An unset variable is simply absent; a set variable
/// that does not parse is an error.
pub fn get_optional_env_variable<T: ConfigParamFromEnv>(key: &str, raw: Option<String>) -> (r:
    Result<Option<T>, String>)
    ensures
        raw is None ==> (r matches Ok(o) && o is None),
        raw matches Some(s) ==> {
            &&& (r is Ok <==> T::param_ok(s@))
            &&& (r matches Ok(o) ==> (o matches Some(v) && T::param_matches(s@, &v)))
        },
{
    match raw {
        None => Ok(None),
        Some(s) => {
            match T::parse(s.as_str()) {
                Ok(v) => Ok(Some(v)),
                Err(e) => Err(e),
            }
        },
    }
}

/// Look up a required configuration parameter; a missing or unparseable
/// value is configuration-fatal.
pub fn get_env_variable<T: ConfigParamFromEnv>(key: &str, raw: Option<String>) -> (r: Result<
    T,
    String,
>)
    ensures
        raw is None ==> r is Err,
        raw matches Some(s) ==> {
            &&& (r is Ok <==> T::param_ok(s@))
            &&& (r matches Ok(v) ==> T::param_matches(s@, &v))
        },
{
    match get_optional_env_variable::<T>(key, raw) {
        Ok(Some(v)) => Ok(v),
        Ok(None) => Err(
            String::from_str("Environment variable '").concat(key).concat("' not set."),
        ),
        Err(e) => Err(e),
    }
}

/// Look up a configuration parameter that has a default: an unset variable
/// yields the default, a set one must parse.
pub fn get_env_variable_with_default<T: ConfigParamFromEnv>(
    key: &str,
    raw: Option<String>,
    default: T,
) -> (r: Result<T, String>)
    ensures
        raw is None ==> (r matches Ok(v) && v == default),
        raw matches Some(s) ==> {
            &&& (r is Ok <==> T::param_ok(s@))
            &&& (r matches Ok(v) ==> T::param_matches(s@, &v))
        },
{
    match get_optional_env_variable::<T>(key, raw) {
        Ok(Some(v)) => Ok(v),
        Ok(None) => Ok(default),
        Err(e) => Err(e),
    }
}

} // verus!
