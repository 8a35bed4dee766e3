//! The bounded reader over one source: the first N lines, terminators
//! kept, or the first N bytes decoded lossily to text.

use vstd::prelude::*;
use vstd::utf8::decode_utf8;
use vstd::utf8::valid_utf8;

verus! {

/// The terminator that delimits lines.
pub const LINE_FEED: u8 = 10;

/// The lines of a byte sequence: each run up to and including a line
/// feed, plus the final unterminated run if the sequence does not end in
/// one. The concatenation of the lines is the sequence itself.
pub open spec fn lines_of(s: Seq<u8>) -> Seq<Seq<u8>>
    decreases s.len(),
{
    if s.len() == 0 {
        Seq::empty()
    } else if s[0] == LINE_FEED {
        seq![s.take(1)] + lines_of(s.skip(1))
    } else {
        let rest = lines_of(s.skip(1));
        if rest.len() == 0 {
            seq![s]
        } else {
            seq![seq![s[0]] + rest[0]] + rest.skip(1)
        }
    }
}

/// The length of the shortest prefix of `s` that holds `n` whole lines,
/// or all of `s` when it has fewer.
pub open spec fn head_span(s: Seq<u8>, n: nat) -> int
    decreases s.len(),
{
    if n == 0 || s.len() == 0 {
        0
    } else if s[0] == LINE_FEED {
        1 + head_span(s.skip(1), (n - 1) as nat)
    } else {
        1 + head_span(s.skip(1), n)
    }
}

pub proof fn lemma_head_span_bounds(s: Seq<u8>, n: nat)
    ensures
        0 <= head_span(s, n) <= s.len(),
    decreases s.len(),
{
    if n == 0 || s.len() == 0 {
    } else if s[0] == LINE_FEED {
        lemma_head_span_bounds(s.skip(1), (n - 1) as nat);
    } else {
        lemma_head_span_bounds(s.skip(1), n);
    }
}

/// The lines of a sequence are a partition of it: concatenated back in
/// order they give the sequence itself.
pub proof fn lemma_lines_flatten(s: Seq<u8>)
    ensures
        lines_of(s).flatten() =~= s,
    decreases s.len(),
{
    if s.len() == 0 {
    } else if s[0] == LINE_FEED {
        lemma_lines_flatten(s.skip(1));
        let ls = seq![s.take(1)] + lines_of(s.skip(1));
        assert(ls.drop_first() =~= lines_of(s.skip(1)));
        assert(ls.flatten() =~= s.take(1) + s.skip(1));
    } else {
        lemma_lines_flatten(s.skip(1));
        let rest = lines_of(s.skip(1));
        if rest.len() == 0 {
            let ls = seq![s];
            assert(ls.drop_first() =~= Seq::<Seq<u8>>::empty());
            assert(ls.flatten() =~= s + Seq::<u8>::empty());
        } else {
            let ls = seq![seq![s[0]] + rest[0]] + rest.skip(1);
            assert(ls.drop_first() =~= rest.skip(1));
            assert(rest.drop_first() =~= rest.skip(1));
            assert(rest.flatten() == rest[0] + rest.skip(1).flatten());
            assert(ls.flatten() =~= seq![s[0]] + rest[0] + rest.skip(1).flatten());
            assert(seq![s[0]] + rest.flatten() =~= s);
        }
    }
}

proof fn lemma_lines_of_nonempty(s: Seq<u8>)
    requires
        s.len() > 0,
    ensures
        lines_of(s).len() > 0,
{
}

/// The law of line mode. A source with at least `n` lines yields exactly
/// the first `n` of them, each one verbatim, terminator included; a
/// source with fewer yields the whole source, and so exactly as many
/// lines as it has.
pub proof fn lemma_head_lines_exact(s: Seq<u8>, n: nat)
    ensures
        n <= lines_of(s).len() ==> lines_of(s.take(head_span(s, n))) =~= lines_of(s).take(
            n as int,
        ),
        n >= lines_of(s).len() ==> head_span(s, n) == s.len(),
    decreases s.len(),
{
    if n == 0 || s.len() == 0 {
        if s.len() == 0 {
            assert(s.take(0) =~= s);
        }
    } else if s[0] == LINE_FEED {
        let s1 = s.skip(1);
        let k = head_span(s1, (n - 1) as nat);
        lemma_head_span_bounds(s1, (n - 1) as nat);
        lemma_head_lines_exact(s1, (n - 1) as nat);
        let t = s.take(1 + k);
        assert(t[0] == LINE_FEED);
        assert(t.take(1) =~= s.take(1));
        assert(t.skip(1) =~= s1.take(k));
        if n <= lines_of(s).len() {
            assert(lines_of(t) =~= seq![s.take(1)] + lines_of(s1).take(n - 1));
            assert(lines_of(s).take(n as int) =~= seq![s.take(1)] + lines_of(s1).take(n - 1));
        }
    } else {
        let s1 = s.skip(1);
        let k = head_span(s1, n);
        lemma_head_span_bounds(s1, n);
        lemma_head_lines_exact(s1, n);
        if s.len() == 1 {
            assert(s.take(1) =~= s);
            assert(lines_of(s1).len() == 0);
            assert(lines_of(s) == seq![s]);
            assert(lines_of(s).take(1) =~= seq![s]);
        } else {
            let rest = lines_of(s1);
            lemma_lines_of_nonempty(s1);
            assert(k >= 1);
            let t = s.take(1 + k);
            assert(t[0] == s[0]);
            assert(t.skip(1) =~= s1.take(k));
            assert(lines_of(s) == seq![seq![s[0]] + rest[0]] + rest.skip(1));
            if n <= lines_of(s).len() {
                let rest_t = lines_of(s1.take(k));
                assert(rest_t =~= rest.take(n as int));
                assert(rest_t.len() >= 1);
                assert(lines_of(t) == seq![seq![t[0]] + rest_t[0]] + rest_t.skip(1));
                assert(rest_t[0] == rest[0]);
                assert(rest_t.skip(1) =~= rest.skip(1).take(n - 1));
                assert(lines_of(s).take(n as int) =~= seq![seq![s[0]] + rest[0]] + rest.skip(
                    1,
                ).take(n - 1));
            }
        }
    }
}

/// Line mode: the longest prefix of `data` holding at most `n` whole
/// lines. The terminators come through untouched, and a source with
/// fewer than `n` lines comes back whole.
pub fn head_lines(data: &Vec<u8>, n: usize) -> (r: Vec<u8>)
    ensures
        r@ == data@.take(head_span(data@, n as nat)),
{
    let ghost s = data@;
    let mut out: Vec<u8> = Vec::new();
    let mut rem: usize = n;
    let mut i: usize = 0;
    proof {
        assert(s.skip(0) =~= s);
    }
    while i < data.len() && rem > 0
        invariant
            data@ == s,
            i <= s.len(),
            rem <= n,
            out@ == s.take(i as int),
            head_span(s, n as nat) == i + head_span(s.skip(i as int), rem as nat),
        decreases s.len() - i,
    {
        let b = data[i];
        out.push(b);
        proof {
            assert(s.skip(i as int)[0] == s[i as int]);
            assert(s.skip(i as int).skip(1) =~= s.skip(i + 1));
            assert(s.take(i as int).push(s[i as int]) =~= s.take(i + 1));
        }
        if b == LINE_FEED {
            rem = rem - 1;
        }
        i = i + 1;
    }
    proof {
        if rem == 0 {
            assert(head_span(s.skip(i as int), rem as nat) == 0);
        } else {
            assert(s.skip(i as int).len() == 0);
            assert(head_span(s.skip(i as int), rem as nat) == 0);
        }
        assert(out@ =~= s.take(head_span(s, n as nat)));
    }
    out
}

/// The length of the prefix byte mode emits: `n`, or all of `s` when it
/// is shorter.
pub open spec fn byte_span(s: Seq<u8>, n: nat) -> int {
    if n <= s.len() {
        n as int
    } else {
        s.len() as int
    }
}

/// What lossy text decoding returns for a given byte sequence: the
/// decoded characters, with a replacement marker standing in for each
/// invalid sequence.
pub uninterp spec fn lossy_of(bytes: Seq<u8>) -> Seq<char>;

/// Relies on String::from_utf8_lossy: the result depends on the bytes
/// alone, valid input decodes exactly, and decoding never fails.
#[verifier::external_body]
fn from_utf8_lossy(bytes: &Vec<u8>) -> (r: String)
    ensures
        r@ == lossy_of(bytes@),
        valid_utf8(bytes@) ==> r@ == decode_utf8(bytes@),
{
    String::from_utf8_lossy(bytes.as_slice()).into_owned()
}

/// Byte mode: the first `n` bytes of `data` (all of it when shorter),
/// decoded lossily to text. Invalid encoding never makes it fail: the
/// law of byte mode.
pub fn head_bytes(data: &Vec<u8>, n: usize) -> (r: String)
    ensures
        r@ == lossy_of(data@.take(byte_span(data@, n as nat))),
        valid_utf8(data@.take(byte_span(data@, n as nat))) ==> r@ == decode_utf8(
            data@.take(byte_span(data@, n as nat)),
        ),
{
    let end = if n <= data.len() {
        n
    } else {
        data.len()
    };
    let mut prefix: Vec<u8> = Vec::new();
    let mut i: usize = 0;
    while i < end
        invariant
            end == byte_span(data@, n as nat),
            i <= end <= data@.len(),
            prefix@ == data@.take(i as int),
        decreases end - i,
    {
        let b = data[i];
        prefix.push(b);
        proof {
            assert(data@.take(i as int).push(data@[i as int]) =~= data@.take(i + 1));
        }
        i = i + 1;
    }
    from_utf8_lossy(&prefix)
}

} // verus!
