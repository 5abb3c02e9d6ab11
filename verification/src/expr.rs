//! Parameter expressions: the channel paths they read, rewritten in place.

use vstd::prelude::*;
use crate::wrangle::{
    channel_path_spans, lemma_spans_ordered, path_spans, paths_of, spans_ordered, spans_view, Lex,
};

verus! {

/// The view of an optional owned string.
pub open spec fn opt_string_view(o: Option<String>) -> Option<Seq<char>> {
    match o {
        Some(s) => Some(s@),
        None => None,
    }
}

/// What stands where a path stood: its replacement, or the path itself.
pub open spec fn piece(s: Seq<char>, span: (int, int), rep: Option<Seq<char>>) -> Seq<char> {
    match rep {
        Some(r) => r,
        None => s.subrange(span.0, span.1),
    }
}

/// Where the text after the first `k` spans resumes.
pub open spec fn span_end(spans: Seq<(int, int)>, k: int) -> int {
    if k <= 0 {
        0
    } else {
        spans[k - 1].1
    }
}

/// The text up to the end of span `k - 1`, each of the first `k` spans
/// replaced as `reps` says.
pub open spec fn splice_upto(
    s: Seq<char>,
    spans: Seq<(int, int)>,
    reps: Seq<Option<Seq<char>>>,
    k: int,
) -> Seq<char>
    decreases k,
{
    if k <= 0 {
        seq![]
    } else {
        splice_upto(s, spans, reps, k - 1) + s.subrange(span_end(spans, k - 1), spans[k - 1].0)
            + piece(s, spans[k - 1], reps[k - 1])
    }
}

/// The expression with its `k`-th channel path replaced by `reps[k]` where
/// that is `Some`, and kept where it is `None`; everything else, spacing
/// included, as written.
pub open spec fn spliced(s: Seq<char>, reps: Seq<Option<Seq<char>>>) -> Seq<char> {
    let spans = path_spans(s);
    splice_upto(s, spans, reps, spans.len() as int) + s.subrange(
        span_end(spans, spans.len() as int),
        s.len() as int,
    )
}

/// `f` may answer `r` for the path `p`.
pub open spec fn rewrites_to<F: Fn(&str) -> Option<String>>(
    f: F,
    p: Seq<char>,
    r: Option<Seq<char>>,
) -> bool {
    exists|a: &str, o: Option<String>| a@ == p && call_ensures(f, (a,), o) && r == opt_string_view(o)
}

proof fn lemma_splice_upto_prefix(
    s: Seq<char>,
    spans: Seq<(int, int)>,
    r1: Seq<Option<Seq<char>>>,
    r2: Seq<Option<Seq<char>>>,
    k: int,
)
    requires
        0 <= k <= r1.len(),
        k <= r2.len(),
        forall|j: int| 0 <= j < k ==> r1[j] == r2[j],
    ensures
        splice_upto(s, spans, r1, k) == splice_upto(s, spans, r2, k),
    decreases k,
{
    if k > 0 {
        lemma_splice_upto_prefix(s, spans, r1, r2, k - 1);
    }
}

/// Rewrite the channel paths of an expression (`ch("../sphere1/Radius")`,
/// `chs('../text1/Font')`, ...): each path `p` is replaced by `f(p)` where
/// that is `Some`, and left alone where it is `None`. The rewrite is textual,
/// so the user's spacing survives, and only channel calls hold paths.
pub fn rewrite_paths<F: Fn(&str) -> Option<String>>(src: &str, f: F) -> (out: String)
    requires
        forall|a: &str| call_requires(f, (a,)),
    ensures
        exists|reps: Seq<Option<Seq<char>>>|
            {
                &&& reps.len() == paths_of(src@).len()
                &&& forall|k: int|
                    0 <= k < reps.len() ==> rewrites_to(f, #[trigger] paths_of(src@)[k], reps[k])
                &&& out@ == spliced(src@, reps)
            },
{
    let spans = channel_path_spans(src);
    let ghost s = src@;
    let ghost sv = path_spans(s);
    proof {
        lemma_spans_ordered(s, 0, Lex::Code);
    }
    let mut out = String::new();
    let mut pos: usize = 0;
    let mut k: usize = 0;
    let ghost mut reps: Seq<Option<Seq<char>>> = seq![];
    while k < spans.len()
        invariant
            forall|a: &str| call_requires(f, (a,)),
            spans_view(spans@) == sv,
            sv == path_spans(s),
            s == src@,
            spans_ordered(sv, 0, s.len() as int),
            k <= spans@.len(),
            reps.len() == k,
            pos == span_end(sv, k as int),
            pos <= s.len(),
            k < sv.len() ==> pos <= sv[k as int].0,
            forall|j: int| 0 <= j < k ==> rewrites_to(f, #[trigger] paths_of(s)[j], reps[j]),
            out@ == splice_upto(s, sv, reps, k as int),
        decreases spans@.len() - k,
    {
        let (a, b) = spans[k];
        assert(sv[k as int] == (a as int, b as int));
        let ghost before = out@;
        out.append(src.substring_char(pos, a));
        let path = src.substring_char(a, b);
        let res = f(path);
        let ghost rep = opt_string_view(res);
        proof {
            assert(paths_of(s)[k as int] == s.subrange(a as int, b as int));
            assert(rewrites_to(f, paths_of(s)[k as int], rep));
        }
        match res {
            Some(r) => out.append(r.as_str()),
            None => out.append(path),
        }
        proof {
            let old_reps = reps;
            reps = reps.push(rep);
            lemma_splice_upto_prefix(s, sv, old_reps, reps, k as int);
            assert(out@ == splice_upto(s, sv, reps, k + 1));
            if k + 1 < sv.len() {
                assert(sv[k as int].1 < sv[k + 1].0);
            }
        }
        pos = b;
        k = k + 1;
    }
    out.append(src.substring_char(pos, src.unicode_len()));
    proof {
        assert(paths_of(s).len() == sv.len());
        assert(out@ == spliced(s, reps));
        assert(reps.len() == paths_of(src@).len() && (forall|k: int|
            0 <= k < reps.len() ==> rewrites_to(f, #[trigger] paths_of(src@)[k], reps[k]))
            && out@ == spliced(src@, reps));
    }
    out
}

proof fn lemma_splice_unchanged(
    s: Seq<char>,
    spans: Seq<(int, int)>,
    reps: Seq<Option<Seq<char>>>,
    k: int,
)
    requires
        spans_ordered(spans, 0, s.len() as int),
        0 <= k <= spans.len(),
        reps.len() == spans.len(),
        forall|j: int| 0 <= j < k ==> piece(s, spans[j], #[trigger] reps[j]) == s.subrange(spans[j].0, spans[j].1),
    ensures
        splice_upto(s, spans, reps, k) == s.subrange(0, span_end(spans, k)),
    decreases k,
{
    if k > 0 {
        lemma_splice_unchanged(s, spans, reps, k - 1);
        assert(piece(s, spans[k - 1], reps[k - 1]) == s.subrange(spans[k - 1].0, spans[k - 1].1));
        if k > 1 {
            assert(spans[k - 2].1 < spans[k - 1].0);
        }
        assert(s.subrange(0, span_end(spans, k)) =~= s.subrange(0, span_end(spans, k - 1)) + s.subrange(
            span_end(spans, k - 1),
            spans[k - 1].0,
        ) + s.subrange(spans[k - 1].0, spans[k - 1].1));
    }
}

/// A rewrite that renames nothing changes nothing: where every path is
/// kept (`None`) or replaced by itself, the expression comes back exactly
/// as written.
pub proof fn unchanged_paths_keep_the_text(s: Seq<char>, reps: Seq<Option<Seq<char>>>)
    requires
        reps.len() == path_spans(s).len(),
        forall|k: int|
            0 <= k < reps.len() ==> #[trigger] reps[k] is None || reps[k] == Some(
                s.subrange(path_spans(s)[k].0, path_spans(s)[k].1),
            ),
    ensures
        spliced(s, reps) == s,
{
    let spans = path_spans(s);
    lemma_spans_ordered(s, 0, Lex::Code);
    assert forall|j: int| 0 <= j < spans.len() implies piece(s, spans[j], #[trigger] reps[j])
        == s.subrange(spans[j].0, spans[j].1) by {}
    lemma_splice_unchanged(s, spans, reps, spans.len() as int);
    if spans.len() > 0 {
        assert(span_end(spans, spans.len() as int) <= s.len());
    }
    assert(s.subrange(0, span_end(spans, spans.len() as int)) + s.subrange(
        span_end(spans, spans.len() as int),
        s.len() as int,
    ) =~= s);
}

} // verus!
