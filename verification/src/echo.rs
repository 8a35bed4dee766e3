//! Echo formatting: the positional tokens joined with single spaces.

use vstd::prelude::*;
use vstd::string::StringExecFns;

verus! {

/// The tokens joined with a single space between each neighbouring pair;
/// no other transformation.
pub open spec fn joined(ts: Seq<Seq<char>>) -> Seq<char>
    decreases ts.len(),
{
    if ts.len() == 0 {
        Seq::empty()
    } else if ts.len() == 1 {
        ts[0]
    } else {
        joined(ts.drop_last()) + " "@ + ts.last()
    }
}

/// The whole echo output: the joined tokens, with a trailing newline
/// unless its omission was asked for.
pub open spec fn echo_output(ts: Seq<Seq<char>>, omit_newline: bool) -> Seq<char> {
    if omit_newline {
        joined(ts)
    } else {
        joined(ts) + "\n"@
    }
}

/// Joins the tokens with single spaces and appends the trailing newline
/// unless `omit_newline` is set.
pub fn echo_text(tokens: &Vec<String>, omit_newline: bool) -> (r: String)
    ensures
        r@ == echo_output(tokens.deep_view(), omit_newline),
{
    let ghost ts = tokens.deep_view();
    let mut out = String::new();
    let mut i: usize = 0;
    while i < tokens.len()
        invariant
            ts == tokens.deep_view(),
            i <= tokens@.len(),
            ts.len() == tokens@.len(),
            out@ == joined(ts.take(i as int)),
        decreases tokens@.len() - i,
    {
        if i > 0 {
            out.append(" ");
        }
        out.append(tokens[i].as_str());
        proof {
            assert(ts[i as int] == tokens@[i as int]@);
            assert(ts.take(i + 1).drop_last() =~= ts.take(i as int));
            assert(ts.take(i + 1).last() == ts[i as int]);
            if i == 0 {
                assert(out@ =~= joined(ts.take(1)));
            }
        }
        i = i + 1;
    }
    proof {
        assert(ts.take(i as int) =~= ts);
    }
    if !omit_newline {
        out.append("\n");
    }
    out
}

} // verus!
