//! Configuration: the command-line values a run is driven by, parsed from
//! an argument list into already-validated plain values.

use vstd::prelude::*;
use vstd::string::{StrSliceExecFns, StringExecFns};

use crate::render::Align;

verus! {

/// A decimal digit.
pub open spec fn is_digit(c: char) -> bool {
    48 <= c as u32 <= 57
}

/// The numeric value of a decimal digit.
pub open spec fn digit_val(c: char) -> nat {
    if is_digit(c) {
        (c as u32 - 48) as nat
    } else {
        0
    }
}

pub open spec fn all_digits(s: Seq<char>) -> bool {
    forall|i: int| 0 <= i < s.len() ==> is_digit(#[trigger] s[i])
}

/// The value of a string of decimal digits, most significant first.
pub open spec fn dec_value(s: Seq<char>) -> nat
    decreases s.len(),
{
    if s.len() == 0 {
        0
    } else {
        dec_value(s.drop_last()) * 10 + digit_val(s.last())
    }
}

/// The digit part of a width token: one leading plus sign is accepted.
pub open spec fn digits_of(s: Seq<char>) -> Seq<char> {
    if s.len() > 0 && s[0] == '+' {
        s.drop_first()
    } else {
        s
    }
}

/// A well-formed width token: an optional leading plus sign followed by
/// at least one decimal digit.
pub open spec fn is_width_token(s: Seq<char>) -> bool {
    digits_of(s).len() > 0 && all_digits(digits_of(s))
}

/// A longer digit prefix never has a smaller value.
proof fn lemma_dec_value_prefix(s: Seq<char>, k: int)
    requires
        0 <= k <= s.len(),
    ensures
        dec_value(s.take(k)) <= dec_value(s),
    decreases s.len(),
{
    if k == s.len() {
        assert(s.take(k) =~= s);
    } else {
        assert(s.drop_last().take(k) =~= s.take(k));
        lemma_dec_value_prefix(s.drop_last(), k);
    }
}

/// Reads a width token as a non-negative integer: an optional leading plus
/// sign, then decimal digits. Rejects anything else, and any value that
/// does not fit the machine's word.
pub fn parse_width(s: &str) -> (r: Option<usize>)
    ensures
        match r {
            Some(v) => is_width_token(s@) && dec_value(digits_of(s@)) == v,
            None => !is_width_token(s@) || dec_value(digits_of(s@)) > usize::MAX,
        },
{
    let n = s.unicode_len();
    let start: usize = if n > 0 && s.get_char(0) == '+' {
        1
    } else {
        0
    };
    let ghost digits = digits_of(s@);
    proof {
        assert(digits =~= s@.skip(start as int));
    }
    if start == n {
        return None;
    }
    let mut v: usize = 0;
    let mut i: usize = start;
    proof {
        assert(s@.subrange(start as int, start as int) =~= Seq::<char>::empty());
    }
    while i < n
        invariant
            start <= i <= n,
            n == s@.len(),
            digits == digits_of(s@),
            digits == s@.skip(start as int),
            all_digits(s@.subrange(start as int, i as int)),
            v == dec_value(s@.subrange(start as int, i as int)),
        decreases n - i,
    {
        let c = s.get_char(i);
        let code = c as u32;
        if code < 48 || code > 57 {
            proof {
                assert(digits[i - start] == s@[i as int]);
                assert(!all_digits(digits));
            }
            return None;
        }
        let d = (code - 48) as usize;
        let ghost prefix = s@.subrange(start as int, i as int);
        let ghost prefix1 = s@.subrange(start as int, i as int + 1);
        proof {
            assert(prefix1.drop_last() =~= prefix);
            assert(prefix1.last() == s@[i as int]);
            assert(dec_value(prefix1) == dec_value(prefix) * 10 + digit_val(s@[i as int]));
            assert(prefix1 =~= digits.take(i + 1 - start));
        }
        let scaled = match v.checked_mul(10) {
            Some(x) => x,
            None => {
                proof {
                    lemma_dec_value_prefix(digits, i + 1 - start);
                }
                return None;
            },
        };
        let next = match scaled.checked_add(d) {
            Some(x) => x,
            None => {
                proof {
                    lemma_dec_value_prefix(digits, i + 1 - start);
                }
                return None;
            },
        };
        v = next;
        i = i + 1;
    }
    proof {
        assert(s@.subrange(start as int, n as int) =~= digits);
    }
    Some(v)
}

/// What an outside case-folding routine turns a string into; the result
/// depends on the characters alone.
pub uninterp spec fn lower_of(s: Seq<char>) -> Seq<char>;

/// Relies on `str::to_lowercase`: the returned string is a function of the
/// input characters alone.
#[verifier::external_body]
fn lowercase(s: &str) -> (r: String)
    ensures
        r@ == lower_of(s@),
{
    s.to_lowercase()
}

/// Character-by-character string equality.
fn str_eq(a: &str, b: &str) -> (r: bool)
    ensures
        r == (a@ == b@),
{
    let n = a.unicode_len();
    if n != b.unicode_len() {
        return false;
    }
    let mut i: usize = 0;
    while i < n
        invariant
            i <= n,
            n == a@.len(),
            n == b@.len(),
            forall|j: int| 0 <= j < i ==> a@[j] == b@[j],
        decreases n - i,
    {
        if a.get_char(i) != b.get_char(i) {
            return false;
        }
        i = i + 1;
    }
    proof {
        assert(a@ =~= b@);
    }
    true
}

/// The alignment a (lowercased) mode token selects.
pub open spec fn align_of_token(t: Seq<char>) -> Option<Align> {
    if t == "left"@ {
        Some(Align::Left)
    } else if t == "right"@ {
        Some(Align::Right)
    } else if t == "justify"@ {
        Some(Align::Justify)
    } else {
        None
    }
}

/// Selects the alignment mode named by `token`, which must already be
/// lowercase.
pub fn parse_align(token: &str) -> (r: Option<Align>)
    ensures
        r == align_of_token(token@),
{
    if str_eq(token, "left") {
        Some(Align::Left)
    } else if str_eq(token, "right") {
        Some(Align::Right)
    } else if str_eq(token, "justify") {
        Some(Align::Justify)
    } else {
        None
    }
}

/// The validated values a run is driven by: the alignment, the maximum
/// line width, the source path, and an optional destination path.
#[derive(Debug)]
pub struct Config<'a> {
    pub align: Align,
    pub len: usize,
    pub file_path: &'a str,
    pub destination_path: Option<&'a str>,
}

impl<'a> Config<'a> {
    /// Reads the configuration out of an argument list whose first entry is
    /// the program name: source path, width, alignment token
    /// (case-insensitive), and an optional destination path.
    pub fn build(args: &'a [String]) -> (r: Result<Config<'a>, String>)
        ensures
            match r {
                Ok(c) => {
                    &&& args@.len() >= 4
                    &&& c.file_path@ == args@[1]@
                    &&& is_width_token(args@[2]@)
                    &&& dec_value(digits_of(args@[2]@)) == c.len
                    &&& align_of_token(lower_of(args@[3]@)) == Some(c.align)
                    &&& (args@.len() >= 5 ==> (c.destination_path matches Some(d) && d@
                        == args@[4]@))
                    &&& (args@.len() == 4 ==> c.destination_path is None)
                },
                Err(e) => {
                    ||| (args@.len() < 2 && e@ == "Didn't get a file path"@)
                    ||| (args@.len() == 2 && e@ == "Didn't get a string length"@)
                    ||| (args@.len() >= 3 && (!is_width_token(args@[2]@) || dec_value(
                        digits_of(args@[2]@),
                    ) > usize::MAX) && e@ == "expected usize"@)
                    ||| (args@.len() == 3 && is_width_token(args@[2]@) && dec_value(
                        digits_of(args@[2]@),
                    ) <= usize::MAX && e@ == "Didn't get an align option"@)
                    ||| (args@.len() >= 4 && is_width_token(args@[2]@) && dec_value(
                        digits_of(args@[2]@),
                    ) <= usize::MAX && align_of_token(lower_of(args@[3]@)) is None && e@
                        == "Align option is incorrect. Expected `left`, `right`, `justify`, got: "@
                        + lower_of(args@[3]@))
                },
            },
    {
        if args.len() < 2 {
            return Err(String::from_str("Didn't get a file path"));
        }
        let file_path = args[1].as_str();
        if args.len() < 3 {
            return Err(String::from_str("Didn't get a string length"));
        }
        let len = match parse_width(args[2].as_str()) {
            Some(v) => v,
            None => {
                return Err(String::from_str("expected usize"));
            },
        };
        if args.len() < 4 {
            return Err(String::from_str("Didn't get an align option"));
        }
        let lowered = lowercase(args[3].as_str());
        let align = match parse_align(lowered.as_str()) {
            Some(a) => a,
            None => {
                let mut msg = String::from_str(
                    "Align option is incorrect. Expected `left`, `right`, `justify`, got: ",
                );
                msg.append(lowered.as_str());
                return Err(msg);
            },
        };
        let destination_path = if args.len() >= 5 {
            Some(args[4].as_str())
        } else {
            None
        };
        Ok(Config { align, len, file_path, destination_path })
    }
}

} // verus!
