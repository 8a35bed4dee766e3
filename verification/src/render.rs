//! Rendering a whole run of the bounded reader: per-source headers, the
//! bodies in line or byte mode, and the per-source error reports.

use crate::head::byte_span;
use crate::head::head_bytes;
use crate::head::head_lines;
use crate::head::head_span;
use crate::head::lossy_of;
use vstd::prelude::*;
use vstd::string::StrSliceExecFns;
use vstd::string::StringExecFns;
use vstd::utf8::encode_utf8;

verus! {

/// What reading one input source came to: its identifier, and either the
/// bytes that were read or the description of the failure to open it.
pub struct SourceReport {
    pub name: String,
    pub outcome: Result<Vec<u8>, String>,
}

/// The mathematical model of a source report.
pub struct SourceModel {
    pub name: Seq<char>,
    pub outcome: Result<Seq<u8>, Seq<char>>,
}

impl View for SourceReport {
    type V = SourceModel;

    open spec fn view(&self) -> SourceModel {
        SourceModel {
            name: self.name@,
            outcome: match self.outcome {
                Ok(data) => Ok(data@),
                Err(e) => Err(e@),
            },
        }
    }
}

/// The models of a run's source reports, in order.
pub open spec fn models_of(v: Seq<SourceReport>) -> Seq<SourceModel> {
    v.map_values(|r: SourceReport| r@)
}

/// The counts a run was configured with, as the specifications see them.
pub open spec fn opt_count(bytes: Option<usize>) -> Option<nat> {
    match bytes {
        Some(b) => Some(b as nat),
        None => None,
    }
}

/// The header printed before a source's output when the run has several
/// sources: the bracketed identifier, preceded by a blank line for every
/// source after the first.
pub open spec fn header_text(name: Seq<char>, follows: bool) -> Seq<char> {
    (if follows {
        "\n"@
    } else {
        Seq::<char>::empty()
    }) + "==> "@ + name + " <==\n"@
}

/// A per-source error report: the identifier, then the description.
pub open spec fn error_text(name: Seq<char>, desc: Seq<char>) -> Seq<char> {
    name + ": "@ + desc
}

/// One source's bytes as the configured mode emits them: a whole-line
/// prefix in line mode, a lossily decoded byte prefix in byte mode.
pub open spec fn body_bytes(data: Seq<u8>, lines: nat, bytes: Option<nat>) -> Seq<u8> {
    match bytes {
        Some(b) => encode_utf8(lossy_of(data.take(byte_span(data, b)))),
        None => data.take(head_span(data, lines)),
    }
}

/// Everything one source contributes to the output stream. A source that
/// failed to open contributes nothing at all.
pub open spec fn source_render(
    m: SourceModel,
    follows: bool,
    multi: bool,
    lines: nat,
    bytes: Option<nat>,
) -> Seq<u8> {
    match m.outcome {
        Ok(data) => (if multi {
            encode_utf8(header_text(m.name, follows))
        } else {
            Seq::<u8>::empty()
        }) + body_bytes(data, lines, bytes),
        Err(_) => Seq::empty(),
    }
}

/// The output stream of the first `k` sources of a run.
pub open spec fn run_out(
    srcs: Seq<SourceModel>,
    k: int,
    multi: bool,
    lines: nat,
    bytes: Option<nat>,
) -> Seq<u8>
    decreases k,
{
    if k <= 0 {
        Seq::empty()
    } else {
        run_out(srcs, k - 1, multi, lines, bytes) + source_render(
            srcs[k - 1],
            k - 1 > 0,
            multi,
            lines,
            bytes,
        )
    }
}

/// The error reports of the first `k` sources of a run, in order.
pub open spec fn run_errs(srcs: Seq<SourceModel>, k: int) -> Seq<Seq<char>>
    decreases k,
{
    if k <= 0 {
        Seq::empty()
    } else {
        run_errs(srcs, k - 1) + match srcs[k - 1].outcome {
            Err(e) => seq![error_text(srcs[k - 1].name, e)],
            Ok(_) => Seq::empty(),
        }
    }
}

/// Builds the header that announces one source.
pub fn header_line(name: &str, follows: bool) -> (r: String)
    ensures
        r@ == header_text(name@, follows),
{
    let mut h = String::new();
    if follows {
        h.append("\n");
    }
    h.append("==> ");
    h.append(name);
    h.append(" <==\n");
    proof {
        assert(h@ =~= header_text(name@, follows));
    }
    h
}

/// Builds the report for a source that could not be opened or read.
pub fn error_line(name: &str, desc: &str) -> (r: String)
    ensures
        r@ == error_text(name@, desc@),
{
    let mut m = String::new();
    m.append(name);
    m.append(": ");
    m.append(desc);
    proof {
        assert(m@ =~= error_text(name@, desc@));
    }
    m
}

/// Renders one source: its header when the run has several sources, then
/// its body in the configured mode. A source that failed contributes
/// nothing to the output and yields its error report instead.
pub fn render_source(
    src: &SourceReport,
    follows: bool,
    multi: bool,
    lines: usize,
    bytes: Option<usize>,
) -> (r: (Vec<u8>, Option<String>))
    ensures
        r.0@ == source_render(src@, follows, multi, lines as nat, opt_count(bytes)),
        match src@.outcome {
            Ok(_) => r.1 is None,
            Err(e) => r.1 is Some && r.1->0@ == error_text(src@.name, e),
        },
{
    match &src.outcome {
        Ok(data) => {
            let mut out: Vec<u8> = Vec::new();
            if multi {
                let h = header_line(src.name.as_str(), follows);
                let mut hb = h.as_str().as_bytes_vec();
                out.append(&mut hb);
            }
            let mut body: Vec<u8> = match bytes {
                Some(b) => {
                    let text = head_bytes(data, b);
                    text.as_str().as_bytes_vec()
                },
                None => head_lines(data, lines),
            };
            out.append(&mut body);
            proof {
                assert(out@ =~= source_render(
                    src@,
                    follows,
                    multi,
                    lines as nat,
                    opt_count(bytes),
                ));
            }
            (out, None)
        },
        Err(desc) => (Vec::new(), Some(error_line(src.name.as_str(), desc.as_str()))),
    }
}

/// Renders a whole run: every source in the order given, each one either
/// adding its header and body to the output stream or its report to the
/// error channel. A failure never stops the sources after it.
pub fn render_run(srcs: &Vec<SourceReport>, lines: usize, bytes: Option<usize>) -> (r: (
    Vec<u8>,
    Vec<String>,
))
    ensures
        r.0@ == run_out(
            models_of(srcs@),
            srcs@.len() as int,
            srcs@.len() > 1,
            lines as nat,
            opt_count(bytes),
        ),
        r.1.deep_view() == run_errs(models_of(srcs@), srcs@.len() as int),
{
    let ghost ms = models_of(srcs@);
    let multi = srcs.len() > 1;
    let mut out: Vec<u8> = Vec::new();
    let mut errs: Vec<String> = Vec::new();
    let mut i: usize = 0;
    while i < srcs.len()
        invariant
            ms == models_of(srcs@),
            ms.len() == srcs@.len(),
            multi == (srcs@.len() > 1),
            i <= srcs@.len(),
            out@ == run_out(ms, i as int, multi, lines as nat, opt_count(bytes)),
            errs.deep_view() == run_errs(ms, i as int),
        decreases srcs@.len() - i,
    {
        let (mut piece, err) = render_source(&srcs[i], i > 0, multi, lines, bytes);
        out.append(&mut piece);
        proof {
            assert(ms[i as int] == srcs@[i as int]@);
            assert(out@ =~= run_out(ms, i + 1, multi, lines as nat, opt_count(bytes)));
        }
        match err {
            Some(e) => {
                errs.push(e);
            },
            None => {},
        }
        proof {
            assert(errs.deep_view() =~~= run_errs(ms, i + 1));
        }
        i = i + 1;
    }
    (out, errs)
}

/// The law of a run with two sources that both open: the output is the
/// first header, which opens with no blank line, then the first body,
/// then the second header, which begins with the blank line, then the
/// second body.
pub proof fn lemma_two_source_layout(
    a: SourceModel,
    b: SourceModel,
    lines: nat,
    bytes: Option<nat>,
)
    requires
        a.outcome is Ok,
        b.outcome is Ok,
    ensures
        run_out(seq![a, b], 2, true, lines, bytes) =~= encode_utf8(header_text(a.name, false))
            + body_bytes(a.outcome->Ok_0, lines, bytes) + encode_utf8(header_text(b.name, true))
            + body_bytes(b.outcome->Ok_0, lines, bytes),
        header_text(a.name, false)[0] == '=',
        header_text(b.name, true)[0] == '\n',
{
    reveal_strlit("==> ");
    reveal_strlit("\n");
    let s = seq![a, b];
    assert(s[0] == a);
    assert(s[1] == b);
    assert(run_out(s, 0, true, lines, bytes) == Seq::<u8>::empty());
    assert(run_out(s, 1, true, lines, bytes) =~= source_render(a, false, true, lines, bytes));
    assert(run_out(s, 2, true, lines, bytes) == run_out(s, 1, true, lines, bytes)
        + source_render(b, true, true, lines, bytes));
    assert(source_render(a, false, true, lines, bytes) == encode_utf8(header_text(a.name, false))
        + body_bytes(a.outcome->Ok_0, lines, bytes));
    assert(source_render(b, true, true, lines, bytes) == encode_utf8(header_text(b.name, true))
        + body_bytes(b.outcome->Ok_0, lines, bytes));
}

proof fn lemma_run_errs_has(srcs: Seq<SourceModel>, k: int, n: int)
    requires
        0 <= k < n <= srcs.len(),
        srcs[k].outcome is Err,
    ensures
        run_errs(srcs, n).contains(error_text(srcs[k].name, srcs[k].outcome->Err_0)),
    decreases n,
{
    let e = error_text(srcs[k].name, srcs[k].outcome->Err_0);
    if n == k + 1 {
        let prev = run_errs(srcs, k);
        assert(run_errs(srcs, n)[prev.len() as int] == e);
    } else {
        lemma_run_errs_has(srcs, k, n - 1);
        let prev = run_errs(srcs, n - 1);
        let i = choose|i: int| 0 <= i < prev.len() && prev[i] == e;
        assert(run_errs(srcs, n)[i] == e);
    }
}

/// The law of per-source failure: a source that cannot be opened is
/// reported on the error channel with its identifier and the error
/// description, contributes nothing to the output stream, and every
/// other source still contributes exactly its own rendering, in order.
pub proof fn lemma_failure_isolated(
    srcs: Seq<SourceModel>,
    k: int,
    multi: bool,
    lines: nat,
    bytes: Option<nat>,
)
    requires
        0 <= k < srcs.len(),
        srcs[k].outcome is Err,
    ensures
        run_errs(srcs, srcs.len() as int).contains(
            error_text(srcs[k].name, srcs[k].outcome->Err_0),
        ),
        source_render(srcs[k], k > 0, multi, lines, bytes) == Seq::<u8>::empty(),
        forall|j: int|
            0 <= j < srcs.len() ==> #[trigger] run_out(srcs, j + 1, multi, lines, bytes)
                == run_out(srcs, j, multi, lines, bytes) + source_render(
                srcs[j],
                j > 0,
                multi,
                lines,
                bytes,
            ),
{
    lemma_run_errs_has(srcs, k, srcs.len() as int);
    assert(source_render(srcs[k], k > 0, multi, lines, bytes) =~= Seq::<u8>::empty());
}

} // verus!
