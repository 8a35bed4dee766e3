//! Run configuration and validation of the numeric count arguments.

use vstd::prelude::*;
use vstd::string::StrSliceExecFns;
use vstd::string::StringExecFns;

verus! {

/// Settings for one run of the bounded reader: the input identifiers to
/// visit in order, the line count for line mode, and the optional byte
/// count whose presence switches the run to byte mode.
#[derive(Debug)]
pub struct Config {
    pub files: Vec<String>,
    pub lines: usize,
    pub bytes: Option<usize>,
}

impl Config {
    /// Both counts are meaningful only when strictly positive; validation
    /// rejects anything else before an input is opened.
    pub open spec fn well_formed(self) -> bool {
        &&& self.lines >= 1
        &&& match self.bytes {
            Some(b) => b >= 1,
            None => true,
        }
    }
}

pub open spec fn is_dec_digit(c: char) -> bool {
    48 <= c as int <= 57
}

pub open spec fn digit_val(c: char) -> nat {
    (c as int - 48) as nat
}

pub open spec fn all_dec_digits(s: Seq<char>) -> bool {
    forall|i: int| 0 <= i < s.len() ==> is_dec_digit(#[trigger] s[i])
}

/// The digit part of an unsigned decimal literal: everything after an
/// optional leading plus sign.
pub open spec fn literal_digits(s: Seq<char>) -> Seq<char> {
    if s.len() > 0 && s[0] == '+' {
        s.skip(1)
    } else {
        s
    }
}

/// The strings that parse as an unsigned integer, range aside: an
/// optional plus sign followed by at least one decimal digit.
pub open spec fn is_uint_literal(s: Seq<char>) -> bool {
    literal_digits(s).len() > 0 && all_dec_digits(literal_digits(s))
}

/// The value of a sequence of decimal digits, most significant first.
pub open spec fn dec_value(s: Seq<char>) -> nat
    decreases s.len(),
{
    if s.len() == 0 {
        0
    } else {
        dec_value(s.drop_last()) * 10 + digit_val(s.last())
    }
}

proof fn lemma_dec_value_step(s: Seq<char>, i: int)
    requires
        0 <= i < s.len(),
    ensures
        dec_value(s.take(i + 1)) == dec_value(s.take(i)) * 10 + digit_val(s[i]),
{
    assert(s.take(i + 1).drop_last() =~= s.take(i));
    assert(s.take(i + 1).last() == s[i]);
}

/// Extending a digit string on the right never decreases its value.
proof fn lemma_dec_value_grows(s: Seq<char>, i: int)
    requires
        0 <= i <= s.len(),
    ensures
        dec_value(s) >= dec_value(s.take(i)),
    decreases s.len() - i,
{
    if i < s.len() {
        lemma_dec_value_step(s, i);
        lemma_dec_value_grows(s, i + 1);
    } else {
        assert(s.take(i) =~= s);
    }
}

/// Parses a strictly positive integer, as the count options demand.
/// Succeeds exactly on the strings that denote an integer between 1 and
/// `usize::MAX`; any other string comes back unchanged as the error, so
/// that reports can quote the offending text.
pub fn parse_positive_int(val: &str) -> (r: Result<usize, String>)
    ensures
        r is Ok <==> is_uint_literal(val@) && 1 <= dec_value(literal_digits(val@))
            <= usize::MAX,
        r is Ok ==> r->Ok_0 as nat == dec_value(literal_digits(val@)),
        r is Err ==> r->Err_0@ == val@,
{
    let len = val.unicode_len();
    let offset: usize = if len > 0 && val.get_char(0) == '+' {
        1
    } else {
        0
    };
    let ghost digits = literal_digits(val@);
    proof {
        assert(digits =~= val@.skip(offset as int));
    }
    if offset == len {
        return Err(val.to_owned());
    }
    let mut acc: usize = 0;
    let mut i: usize = offset;
    while i < len
        invariant
            offset <= i <= len,
            len == val@.len(),
            offset <= 1,
            digits == literal_digits(val@),
            digits =~= val@.skip(offset as int),
            all_dec_digits(digits.take(i - offset)),
            acc as nat == dec_value(digits.take(i - offset)),
        decreases len - i,
    {
        let c = val.get_char(i);
        let u = c as u32;
        if u < 48 || u > 57 {
            proof {
                assert(digits[i - offset] == val@[i as int]);
                assert(!is_dec_digit(digits[i - offset]));
            }
            return Err(val.to_owned());
        }
        let d = (u - 48) as usize;
        proof {
            assert(digits[i - offset] == val@[i as int]);
            lemma_dec_value_step(digits, i - offset);
            assert(digits.take(i - offset + 1) =~= digits.take(i + 1 - offset));
        }
        let next = match acc.checked_mul(10) {
            Some(m) => m.checked_add(d),
            None => None,
        };
        match next {
            Some(n) => {
                acc = n;
            },
            None => {
                proof {
                    assert(dec_value(digits.take(i + 1 - offset)) > usize::MAX);
                    lemma_dec_value_grows(digits, i + 1 - offset);
                }
                return Err(val.to_owned());
            },
        }
        i += 1;
    }
    proof {
        assert(digits.take(i - offset) =~= digits);
    }
    if acc == 0 {
        Err(val.to_owned())
    } else {
        Ok(acc)
    }
}

/// Validates the line-count argument: on failure the error message names
/// the line count and quotes the rejected text.
pub fn validate_line_count(arg: &str) -> (r: Result<usize, String>)
    ensures
        r is Ok <==> is_uint_literal(arg@) && 1 <= dec_value(literal_digits(arg@))
            <= usize::MAX,
        r is Ok ==> r->Ok_0 as nat == dec_value(literal_digits(arg@)),
        r is Err ==> r->Err_0@ == "illegal line count -- "@ + arg@,
{
    match parse_positive_int(arg) {
        Ok(n) => Ok(n),
        Err(text) => {
            let mut msg = String::from_str("illegal line count -- ");
            msg.append(text.as_str());
            Err(msg)
        },
    }
}

/// Validates the byte-count argument: same rule as the line count, under
/// its own message.
pub fn validate_byte_count(arg: &str) -> (r: Result<usize, String>)
    ensures
        r is Ok <==> is_uint_literal(arg@) && 1 <= dec_value(literal_digits(arg@))
            <= usize::MAX,
        r is Ok ==> r->Ok_0 as nat == dec_value(literal_digits(arg@)),
        r is Err ==> r->Err_0@ == "illegal byte count -- "@ + arg@,
{
    match parse_positive_int(arg) {
        Ok(n) => Ok(n),
        Err(text) => {
            let mut msg = String::from_str("illegal byte count -- ");
            msg.append(text.as_str());
            Err(msg)
        },
    }
}

} // verus!

