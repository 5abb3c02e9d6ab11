//! The command palette's fuzzy ranking: shortest contiguous span, then
//! earliest start, then alphabetical.

use vstd::prelude::*;
use crate::text::{ascii_lower, ascii_lowercase, chars_of, is_white_space, str_eq, white_space};

verus! {

/// The query as matched: white space dropped, ASCII folded to lower case.
pub open spec fn pattern_of(q: Seq<char>) -> Seq<char>
    decreases q.len(),
{
    if q.len() == 0 {
        seq![]
    } else if is_white_space(q.last()) {
        pattern_of(q.drop_last())
    } else {
        pattern_of(q.drop_last()).push(ascii_lower(q.last()))
    }
}

/// Where the earliest embedding of `p` in `t`, from position `i` on, ends
/// (one past its last char), or -1 when `p` is not a subsequence there.
pub open spec fn match_end(t: Seq<char>, p: Seq<char>, i: int) -> int
    decreases p.len(), t.len() - i,
{
    if p.len() == 0 {
        i
    } else if i < 0 || i >= t.len() {
        -1
    } else if t[i] == p[0] {
        match_end(t, p.drop_first(), i + 1)
    } else {
        match_end(t, p, i + 1)
    }
}

/// The span of the match of a non-empty `p` that starts at `a`, if one does.
pub open spec fn span_at(t: Seq<char>, p: Seq<char>, a: int) -> Option<int> {
    if 0 <= a < t.len() && p.len() > 0 && t[a] == p[0] && match_end(t, p.drop_first(), a + 1) >= 0 {
        Some(match_end(t, p.drop_first(), a + 1) - a)
    } else {
        None
    }
}

/// The tightest match of `p` among the starts below `a`, as `(span,
/// start)`, the earliest start winning a tie.
pub open spec fn best_below(t: Seq<char>, p: Seq<char>, a: int) -> Option<(int, int)>
    decreases a,
{
    if a <= 0 {
        None
    } else {
        let prev = best_below(t, p, a - 1);
        match span_at(t, p, a - 1) {
            Some(sp) => match prev {
                Some(b) => if sp < b.0 {
                    Some((sp, a - 1))
                } else {
                    prev
                },
                None => Some((sp, a - 1)),
            },
            None => prev,
        }
    }
}

/// The tightest match of `p` in `t`, as `(span, start)`.
pub open spec fn best_match(t: Seq<char>, p: Seq<char>) -> Option<(int, int)> {
    best_below(t, p, t.len() as int)
}

/// `a` comes strictly before `b` in code-point order (`str`'s order).
pub open spec fn text_lt(a: Seq<char>, b: Seq<char>) -> bool
    decreases a.len(),
{
    if a.len() == 0 {
        b.len() > 0
    } else if b.len() == 0 {
        false
    } else if a[0] != b[0] {
        (a[0] as int) < (b[0] as int)
    } else {
        text_lt(a.drop_first(), b.drop_first())
    }
}

/// The ranking key of a matching item: span, start, label, position.
pub struct RankKey {
    pub span: int,
    pub start: int,
    pub label: Seq<char>,
    pub index: int,
}

/// `x` ranks strictly ahead of `y`.
pub open spec fn key_lt(x: RankKey, y: RankKey) -> bool {
    ||| x.span < y.span
    ||| x.span == y.span && x.start < y.start
    ||| x.span == y.span && x.start == y.start && text_lt(x.label, y.label)
    ||| x.span == y.span && x.start == y.start && x.label == y.label && x.index < y.index
}

/// The key item `i` ranks by under pattern `p`, if it matches.
pub open spec fn key_of(items: Seq<&str>, p: Seq<char>, i: int) -> Option<RankKey> {
    match best_match(ascii_lowercase(items[i]@), p) {
        Some(b) => Some(RankKey { span: b.0, start: b.1, label: items[i]@, index: i }),
        None => None,
    }
}

/// What `fuzzy_rank(query, items)` returns: with an empty pattern, every
/// item in order; otherwise exactly the matching items, each once, in
/// strictly increasing rank key.
pub open spec fn ranked(q: Seq<char>, items: Seq<&str>, out: Seq<usize>) -> bool {
    let p = pattern_of(q);
    if p.len() == 0 {
        out == Seq::new(items.len(), |i: int| i as usize)
    } else {
        &&& forall|k: int| 0 <= k < out.len() ==> #[trigger] out[k] < items.len() && key_of(items, p, out[k] as int) is Some
        &&& forall|i: int| 0 <= i < items.len() && key_of(items, p, i) is Some ==> out.contains(i as usize)
        &&& forall|j: int, k: int| 0 <= j < k < out.len() ==> key_lt(
            key_of(items, p, out[j] as int)->0,
            key_of(items, p, out[k] as int)->0,
        )
    }
}

proof fn lemma_text_lt_irreflexive(a: Seq<char>)
    ensures
        !text_lt(a, a),
    decreases a.len(),
{
    if a.len() > 0 {
        lemma_text_lt_irreflexive(a.drop_first());
    }
}

proof fn lemma_text_lt_transitive(a: Seq<char>, b: Seq<char>, c: Seq<char>)
    requires
        text_lt(a, b),
        text_lt(b, c),
    ensures
        text_lt(a, c),
    decreases a.len(),
{
    if a.len() > 0 && b.len() > 0 && c.len() > 0 && a[0] == b[0] && b[0] == c[0] {
        lemma_text_lt_transitive(a.drop_first(), b.drop_first(), c.drop_first());
    }
}

proof fn lemma_text_lt_total(a: Seq<char>, b: Seq<char>)
    ensures
        text_lt(a, b) || text_lt(b, a) || a == b,
    decreases a.len(),
{
    if a.len() > 0 && b.len() > 0 && a[0] == b[0] {
        lemma_text_lt_total(a.drop_first(), b.drop_first());
        if a.drop_first() == b.drop_first() {
            assert(a =~= seq![a[0]] + a.drop_first());
            assert(b =~= seq![b[0]] + b.drop_first());
        }
    } else if a.len() == 0 && b.len() == 0 {
        assert(a =~= b);
    }
}

proof fn lemma_text_lt_asymmetric(a: Seq<char>, b: Seq<char>)
    requires
        text_lt(a, b),
    ensures
        !text_lt(b, a),
    decreases a.len(),
{
    if a.len() > 0 && b.len() > 0 && a[0] == b[0] {
        lemma_text_lt_asymmetric(a.drop_first(), b.drop_first());
    }
}

proof fn lemma_key_lt_transitive(x: RankKey, y: RankKey, z: RankKey)
    requires
        key_lt(x, y),
        key_lt(y, z),
    ensures
        key_lt(x, z),
{
    if x.span == y.span && y.span == z.span && x.start == y.start && y.start == z.start {
        if text_lt(x.label, y.label) && text_lt(y.label, z.label) {
            lemma_text_lt_transitive(x.label, y.label, z.label);
        }
    }
}

proof fn lemma_key_lt_total(x: RankKey, y: RankKey)
    requires
        x.index != y.index,
    ensures
        key_lt(x, y) || key_lt(y, x),
{
    lemma_text_lt_total(x.label, y.label);
}

proof fn lemma_key_lt_asymmetric(x: RankKey, y: RankKey)
    requires
        key_lt(x, y),
    ensures
        !key_lt(y, x),
{
    if text_lt(x.label, y.label) {
        lemma_text_lt_asymmetric(x.label, y.label);
    }
    if x.label == y.label {
        lemma_text_lt_irreflexive(x.label);
    }
}

proof fn lemma_byte_char(b: u8, l: char)
    requires
        l == b as char,
    ensures
        l as int == b as int,
{
}

proof fn lemma_char_code(c: char)
    ensures
        c as u32 == c as int,
        0 <= c as int <= 0x10FFFF,
{
}

proof fn lemma_ascii_lower_code(c: char)
    requires
        65 <= c as int <= 90,
    ensures
        ascii_lower(c) as int == c as int + 32,
{
    let a = ascii_lower(c);
    assert(a as int == c as int + 32);
}

proof fn lemma_char_code_eq(a: char, b: char)
    requires
        a as int == b as int,
    ensures
        a == b,
{
}

/// `c` folded to ASCII lower case.
fn lower_char(c: char) -> (l: char)
    ensures
        l == ascii_lower(c),
{
    let u: u32 = c as u32;
    if 65 <= u && u <= 90 {
        let b: u8 = (u + 32) as u8;
        let l = b as char;
        proof {
            lemma_byte_char(b, l);
            lemma_char_code(c);
            assert(ascii_lower(c) as int == c as int + 32) by {
                lemma_ascii_lower_code(c);
            }
            assert(l as int == ascii_lower(c) as int);
            lemma_char_code_eq(l, ascii_lower(c));
        }
        l
    } else {
        c
    }
}

/// The query as matched: white space dropped, ASCII folded to lower case.
pub fn pattern(query: &str) -> (p: Vec<char>)
    ensures
        p@ == pattern_of(query@),
{
    let q = chars_of(query);
    let mut p: Vec<char> = Vec::new();
    let mut i: usize = 0;
    assert(q@.take(0) =~= seq![]);
    while i < q.len()
        invariant
            q@ == query@,
            i <= q@.len(),
            p@ == pattern_of(q@.take(i as int)),
        decreases q@.len() - i,
    {
        assert(q@.take(i + 1).drop_last() =~= q@.take(i as int));
        let c = q[i];
        if !white_space(c) {
            p.push(lower_char(c));
        }
        i = i + 1;
    }
    assert(q@.take(q@.len() as int) =~= q@);
    p
}

/// The chars of `s` folded to ASCII lower case.
fn lower_chars(s: &str) -> (v: Vec<char>)
    ensures
        v@ == ascii_lowercase(s@),
{
    let c = chars_of(s);
    let mut v: Vec<char> = Vec::new();
    let mut i: usize = 0;
    while i < c.len()
        invariant
            c@ == s@,
            i <= c@.len(),
            v@ == ascii_lowercase(s@).take(i as int),
        decreases c@.len() - i,
    {
        v.push(lower_char(c[i]));
        i = i + 1;
        assert(v@ =~= ascii_lowercase(s@).take(i as int));
    }
    assert(ascii_lowercase(s@).take(i as int) =~= ascii_lowercase(s@));
    v
}

proof fn lemma_match_end_range(t: Seq<char>, p: Seq<char>, i: int)
    requires
        0 <= i,
    ensures
        match_end(t, p, i) == -1 || i <= match_end(t, p, i),
    decreases p.len(), t.len() - i,
{
    if p.len() > 0 && i < t.len() {
        if t[i] == p[0] {
            lemma_match_end_range(t, p.drop_first(), i + 1);
        } else {
            lemma_match_end_range(t, p, i + 1);
        }
    }
}

/// Where the earliest embedding of `p[k..]` in `t[i..]` ends, if there is one.
fn match_end_exec(t: &Vec<char>, p: &Vec<char>, k: usize, i: usize) -> (e: Option<usize>)
    requires
        k <= p@.len(),
        i <= t@.len(),
    ensures
        match e {
            Some(x) => match_end(t@, p@.subrange(k as int, p@.len() as int), i as int) == x as int,
            None => match_end(t@, p@.subrange(k as int, p@.len() as int), i as int) == -1,
        },
{
    let mut j = i;
    let mut m = k;
    while m < p.len()
        invariant
            k <= m <= p@.len(),
            i <= j <= t@.len(),
            match_end(t@, p@.subrange(k as int, p@.len() as int), i as int) == match_end(
                t@,
                p@.subrange(m as int, p@.len() as int),
                j as int,
            ),
        decreases p@.len() - m, t@.len() - j,
    {
        let ghost rest = p@.subrange(m as int, p@.len() as int);
        if j >= t.len() {
            return None;
        }
        if t[j] == p[m] {
            assert(rest.drop_first() =~= p@.subrange(m + 1, p@.len() as int));
            m = m + 1;
        }
        j = j + 1;
    }
    assert(p@.subrange(m as int, p@.len() as int) =~= Seq::<char>::empty());
    Some(j)
}

/// The tightest match of the non-empty pattern `p` in `t`, as `(span, start)`.
fn best_match_exec(t: &Vec<char>, p: &Vec<char>) -> (b: Option<(usize, usize)>)
    requires
        p@.len() > 0,
    ensures
        match b {
            Some(x) => best_match(t@, p@) == Some((x.0 as int, x.1 as int)),
            None => best_match(t@, p@) is None,
        },
{
    let mut best: Option<(usize, usize)> = None;
    let mut a: usize = 0;
    while a < t.len()
        invariant
            p@.len() > 0,
            a <= t@.len(),
            match best {
                Some(x) => best_below(t@, p@, a as int) == Some((x.0 as int, x.1 as int)),
                None => best_below(t@, p@, a as int) is None,
            },
        decreases t@.len() - a,
    {
        if t[a] == p[0] {
            assert(p@.subrange(1, p@.len() as int) =~= p@.drop_first());
            proof {
                lemma_match_end_range(t@, p@.drop_first(), a + 1);
            }
            match match_end_exec(t, p, 1, a + 1) {
                Some(e) => {
                    let sp = e - a;
                    match best {
                        Some(x) => {
                            if sp < x.0 {
                                best = Some((sp, a));
                            }
                        },
                        None => {
                            best = Some((sp, a));
                        },
                    }
                },
                None => {},
            }
        }
        a = a + 1;
    }
    best
}

/// `a` strictly before `b` in code-point order.
fn text_less(a: &str, b: &str) -> (r: bool)
    ensures
        r == text_lt(a@, b@),
{
    let x = chars_of(a);
    let y = chars_of(b);
    let mut k: usize = 0;
    assert(a@.subrange(0, a@.len() as int) =~= a@);
    assert(b@.subrange(0, b@.len() as int) =~= b@);
    while k < x.len() && k < y.len() && x[k] == y[k]
        invariant
            x@ == a@,
            y@ == b@,
            k <= x@.len(),
            k <= y@.len(),
            text_lt(a@, b@) == text_lt(a@.subrange(k as int, a@.len() as int), b@.subrange(k as int, b@.len() as int)),
        decreases x@.len() - k,
    {
        assert(a@.subrange(k as int, a@.len() as int).drop_first() =~= a@.subrange(k + 1, a@.len() as int));
        assert(b@.subrange(k as int, b@.len() as int).drop_first() =~= b@.subrange(k + 1, b@.len() as int));
        k = k + 1;
    }
    if k == x.len() {
        k < y.len()
    } else if k == y.len() {
        false
    } else {
        let xc = x[k];
        let yc = y[k];
        proof {
            lemma_char_code(xc);
            lemma_char_code(yc);
            assert(a@.subrange(k as int, a@.len() as int)[0] == xc);
            assert(b@.subrange(k as int, b@.len() as int)[0] == yc);
        }
        (xc as u32) < (yc as u32)
    }
}

/// The keys of a ranked list of matching items.
pub open spec fn keys_of(items: Seq<&str>, p: Seq<char>, out: Seq<usize>) -> Seq<RankKey> {
    out.map_values(|o: usize| key_of(items, p, o as int)->0)
}

/// Each key ranks strictly ahead of every later one.
pub open spec fn strictly_ranked(ks: Seq<RankKey>) -> bool {
    forall|j: int, k: int| 0 <= j < k < ks.len() ==> key_lt(#[trigger] ks[j], #[trigger] ks[k])
}

proof fn lemma_insert_ranked(ks: Seq<RankKey>, pos: int, x: RankKey)
    requires
        strictly_ranked(ks),
        0 <= pos <= ks.len(),
        forall|q: int| 0 <= q < pos ==> key_lt(#[trigger] ks[q], x),
        pos < ks.len() ==> key_lt(x, ks[pos]),
    ensures
        strictly_ranked(ks.insert(pos, x)),
{
    let n = ks.insert(pos, x);
    assert forall|j: int, k: int| 0 <= j < k < n.len() implies key_lt(#[trigger] n[j], #[trigger] n[k]) by {
        if k < pos {
            assert(n[j] == ks[j] && n[k] == ks[k]);
        } else if k == pos {
            assert(n[j] == ks[j] && n[k] == x);
        } else if j == pos {
            assert(n[k] == ks[k - 1]);
            if k - 1 > pos {
                assert(key_lt(ks[pos], ks[k - 1]));
                lemma_key_lt_transitive(x, ks[pos], ks[k - 1]);
            }
        } else if j < pos {
            assert(n[j] == ks[j] && n[k] == ks[k - 1]);
        } else {
            assert(n[j] == ks[j - 1] && n[k] == ks[k - 1]);
        }
    }
}

/// Does the item `i` with `(span, start)` `ki` rank ahead of item `j` with `kj`?
fn ranks_before(items: &[&str], i: usize, ki: (usize, usize), j: usize, kj: (usize, usize)) -> (r: bool)
    requires
        i < items@.len(),
        j < items@.len(),
    ensures
        r == key_lt(
            RankKey { span: ki.0 as int, start: ki.1 as int, label: items@[i as int]@, index: i as int },
            RankKey { span: kj.0 as int, start: kj.1 as int, label: items@[j as int]@, index: j as int },
        ),
{
    if ki.0 != kj.0 {
        ki.0 < kj.0
    } else if ki.1 != kj.1 {
        ki.1 < kj.1
    } else if text_less(items[i], items[j]) {
        true
    } else if str_eq(items[i], items[j]) {
        i < j
    } else {
        false
    }
}

/// Rank the palette's `items` against `query`, fuzzy-finder style: the
/// query's chars (white space dropped, ASCII case ignored) must appear in
/// order; items where they do not drop out; the rest rank by the shortest
/// contiguous span holding them, then the earliest start, then the label
/// alphabetically (then position). An empty query lists every item in
/// order.
pub fn fuzzy_rank(query: &str, items: &[&str]) -> (out: Vec<usize>)
    ensures
        ranked(query@, items@, out@),
{
    let p = pattern(query);
    let n = items.len();
    let mut out: Vec<usize> = Vec::new();
    if p.len() == 0 {
        let mut i: usize = 0;
        while i < n
            invariant
                n == items@.len(),
                i <= n,
                out@ == Seq::new(i as nat, |k: int| k as usize),
            decreases n - i,
        {
            out.push(i);
            i = i + 1;
            assert(out@ =~= Seq::new(i as nat, |k: int| k as usize));
        }
        return out;
    }
    let ghost pv = p@;
    let ghost iv = items@;
    let mut keys: Vec<(usize, usize)> = Vec::new();
    let mut i: usize = 0;
    while i < n
        invariant
            pv == p@,
            pv == pattern_of(query@),
            pv.len() > 0,
            iv == items@,
            n == iv.len(),
            i <= n,
            out@.len() == keys@.len(),
            forall|k: int|
                0 <= k < out@.len() ==> #[trigger] out@[k] < i && key_of(iv, pv, out@[k] as int)
                    == Some(
                    RankKey {
                        span: keys@[k].0 as int,
                        start: keys@[k].1 as int,
                        label: iv[out@[k] as int]@,
                        index: out@[k] as int,
                    },
                ),
            forall|m: int| 0 <= m < i && key_of(iv, pv, m) is Some ==> out@.contains(m as usize),
            strictly_ranked(keys_of(iv, pv, out@)),
        decreases n - i,
    {
        let t = lower_chars(items[i]);
        match best_match_exec(&t, &p) {
            Some(b) => {
                let ghost x = RankKey {
                    span: b.0 as int,
                    start: b.1 as int,
                    label: iv[i as int]@,
                    index: i as int,
                };
                assert(key_of(iv, pv, i as int) == Some(x));
                let ghost ks = keys_of(iv, pv, out@);
                let mut pos: usize = 0;
                while pos < out.len() && !ranks_before(items, i, b, out[pos], keys[pos])
                    invariant
                        pos <= out@.len(),
                        out@.len() == keys@.len(),
                        ks == keys_of(iv, pv, out@),
                        iv == items@,
                        n == iv.len(),
                        i < n,
                        key_of(iv, pv, i as int) == Some(x),
                        x == (RankKey { span: b.0 as int, start: b.1 as int, label: iv[i as int]@, index: i as int }),
                        forall|k: int|
                            0 <= k < out@.len() ==> #[trigger] out@[k] < i && key_of(iv, pv, out@[k] as int)
                                == Some(
                                RankKey {
                                    span: keys@[k].0 as int,
                                    start: keys@[k].1 as int,
                                    label: iv[out@[k] as int]@,
                                    index: out@[k] as int,
                                },
                            ),
                        forall|q: int| 0 <= q < pos ==> key_lt(#[trigger] ks[q], x),
                    decreases out@.len() - pos,
                {
                    proof {
                        assert(ks[pos as int] == key_of(iv, pv, out@[pos as int] as int)->0);
                        lemma_key_lt_total(x, ks[pos as int]);
                    }
                    pos = pos + 1;
                }
                proof {
                    if pos < out@.len() {
                        assert(ks[pos as int] == key_of(iv, pv, out@[pos as int] as int)->0);
                    }
                    lemma_insert_ranked(ks, pos as int, x);
                }
                let ghost old_out = out@;
                out.insert(pos, i);
                keys.insert(pos, b);
                proof {
                    assert(keys_of(iv, pv, out@) =~= ks.insert(pos as int, x));
                    assert forall|m: int| 0 <= m < i + 1 && key_of(iv, pv, m) is Some implies out@.contains(m as usize) by {
                        if m < i {
                            let w = choose|w: int| 0 <= w < old_out.len() && old_out[w] == m as usize;
                            if w < pos {
                                assert(out@[w] == m as usize);
                            } else {
                                assert(out@[w + 1] == m as usize);
                            }
                        } else {
                            assert(out@[pos as int] == i);
                        }
                    }
                    assert forall|k: int| 0 <= k < out@.len() implies #[trigger] out@[k] < i + 1 && key_of(iv, pv, out@[k] as int)
                        == Some(
                        RankKey {
                            span: keys@[k].0 as int,
                            start: keys@[k].1 as int,
                            label: iv[out@[k] as int]@,
                            index: out@[k] as int,
                        },
                    ) by {
                        if k < pos {
                            assert(out@[k] == old_out[k]);
                        } else if k > pos {
                            assert(out@[k] == old_out[k - 1]);
                        }
                    }
                }
            },
            None => {
                assert(key_of(iv, pv, i as int) is None);
            },
        }
        i = i + 1;
    }
    proof {
        assert forall|k: int| 0 <= k < out@.len() implies #[trigger] out@[k] < iv.len() && key_of(iv, pv, out@[k] as int) is Some by {}
        assert forall|j: int, k: int| 0 <= j < k < out@.len() implies key_lt(
            key_of(iv, pv, out@[j] as int)->0,
            key_of(iv, pv, out@[k] as int)->0,
        ) by {
            let ks = keys_of(iv, pv, out@);
            assert(key_lt(ks[j], ks[k]));
        }
    }
    out
}

/// `f` places the chars of `p`, in order, at positions of `t` inside the
/// window `[a, e)`.
pub open spec fn is_embedding(t: Seq<char>, p: Seq<char>, a: int, e: int, f: Seq<int>) -> bool {
    &&& 0 <= a <= e <= t.len()
    &&& f.len() == p.len()
    &&& forall|k: int| 0 <= k < f.len() ==> a <= #[trigger] f[k] < e && t[f[k]] == p[k]
    &&& forall|j: int, k: int| 0 <= j < k < f.len() ==> #[trigger] f[j] < #[trigger] f[k]
}

/// The window `[a, e)` of `t` holds `p` as a subsequence.
pub open spec fn embeds(t: Seq<char>, p: Seq<char>, a: int, e: int) -> bool {
    exists|f: Seq<int>| #[trigger] is_embedding(t, p, a, e, f)
}

/// Any embedding from `i` on ends no earlier than the greedy one.
proof fn lemma_greedy_earliest(t: Seq<char>, p: Seq<char>, i: int, e: int, f: Seq<int>)
    requires
        is_embedding(t, p, i, e, f),
    ensures
        i <= match_end(t, p, i) <= e,
    decreases p.len(), t.len() - i,
{
    if p.len() > 0 {
        assert(i <= f[0] < e);
        if t[i] == p[0] {
            let g = f.drop_first();
            assert forall|k: int| 0 <= k < g.len() implies i + 1 <= #[trigger] g[k] < e && t[g[k]]
                == p.drop_first()[k] by {
                assert(f[0] < f[k + 1]);
            }
            assert forall|j: int, k: int| 0 <= j < k < g.len() implies #[trigger] g[j] < #[trigger] g[k] by {
                assert(f[j + 1] < f[k + 1]);
            }
            assert(is_embedding(t, p.drop_first(), i + 1, e, g));
            lemma_greedy_earliest(t, p.drop_first(), i + 1, e, g);
        } else {
            assert forall|k: int| 0 <= k < f.len() implies i + 1 <= #[trigger] f[k] < e && t[f[k]]
                == p[k] by {
                if k > 0 {
                    assert(f[0] < f[k]);
                }
            }
            lemma_greedy_earliest(t, p, i + 1, e, f);
        }
    }
}

/// The greedy match is an embedding, in the window it ends.
proof fn lemma_greedy_embeds(t: Seq<char>, p: Seq<char>, i: int) -> (f: Seq<int>)
    requires
        0 <= i <= t.len(),
        match_end(t, p, i) >= 0,
    ensures
        is_embedding(t, p, i, match_end(t, p, i), f),
    decreases p.len(), t.len() - i,
{
    if p.len() == 0 {
        seq![]
    } else if t[i] == p[0] {
        let g = lemma_greedy_embeds(t, p.drop_first(), i + 1);
        let f = seq![i] + g;
        assert forall|k: int| 0 <= k < f.len() implies i <= #[trigger] f[k] < match_end(t, p, i)
            && t[f[k]] == p[k] by {
            if k > 0 {
                assert(f[k] == g[k - 1]);
            }
        }
        assert forall|j: int, k: int| 0 <= j < k < f.len() implies #[trigger] f[j] < #[trigger] f[k] by {
            if j > 0 {
                assert(f[j] == g[j - 1] && f[k] == g[k - 1]);
            } else {
                assert(f[k] == g[k - 1]);
            }
        }
        f
    } else {
        lemma_greedy_embeds(t, p, i + 1)
    }
}

/// What `best_below` keeps: the tightest start below `a`, the earliest on
/// a tie.
proof fn lemma_best_below(t: Seq<char>, p: Seq<char>, a: int)
    requires
        0 <= a,
    ensures
        match best_below(t, p, a) {
            Some(b) => {
                &&& 0 <= b.1 < a
                &&& span_at(t, p, b.1) == Some(b.0)
                &&& forall|x: int|
                    0 <= x < a && (#[trigger] span_at(t, p, x)) is Some ==> b.0 < span_at(t, p, x)->0 || (
                    b.0 == span_at(t, p, x)->0 && b.1 <= x)
            },
            None => forall|x: int| 0 <= x < a ==> (#[trigger] span_at(t, p, x)) is None,
        },
    decreases a,
{
    if a > 0 {
        lemma_best_below(t, p, a - 1);
    }
}

/// The fuzzy match is the tightest window: for a non-empty pattern,
/// `best_match` gives the shortest contiguous window of `t` that holds `p`
/// in order, the earliest such window on a tie, and nothing exactly when
/// no window holds it.
pub proof fn fuzzy_match_is_the_tightest_window(t: Seq<char>, p: Seq<char>)
    requires
        p.len() > 0,
    ensures
        match best_match(t, p) {
            Some((s, a)) => {
                &&& embeds(t, p, a, a + s)
                &&& forall|a2: int, e2: int|
                    #[trigger] embeds(t, p, a2, e2) ==> s < e2 - a2 || (s == e2 - a2 && a <= a2)
            },
            None => forall|a2: int, e2: int| !#[trigger] embeds(t, p, a2, e2),
        },
{
    lemma_best_below(t, p, t.len() as int);
    if let Some((s, a)) = best_match(t, p) {
        let g = lemma_greedy_embeds(t, p.drop_first(), a + 1);
        let f = seq![a] + g;
        assert forall|k: int| 0 <= k < f.len() implies a <= #[trigger] f[k] < a + s && t[f[k]] == p[k] by {
            if k > 0 {
                assert(f[k] == g[k - 1]);
            }
        }
        assert forall|j: int, k: int| 0 <= j < k < f.len() implies #[trigger] f[j] < #[trigger] f[k] by {
            if j > 0 {
                assert(f[j] == g[j - 1] && f[k] == g[k - 1]);
            } else {
                assert(f[k] == g[k - 1]);
            }
        }
        assert(is_embedding(t, p, a, a + s, f));
    }
    assert forall|a2: int, e2: int| #[trigger] embeds(t, p, a2, e2) implies match best_match(t, p) {
        Some((s, a)) => s < e2 - a2 || (s == e2 - a2 && a <= a2),
        None => false,
    } by {
        let f = choose|f: Seq<int>| is_embedding(t, p, a2, e2, f);
        let x = f[0];
        let g = f.drop_first();
        assert forall|k: int| 0 <= k < g.len() implies x + 1 <= #[trigger] g[k] < e2 && t[g[k]]
            == p.drop_first()[k] by {
            assert(f[0] < f[k + 1]);
        }
        assert forall|j: int, k: int| 0 <= j < k < g.len() implies #[trigger] g[j] < #[trigger] g[k] by {
            assert(f[j + 1] < f[k + 1]);
        }
        assert(is_embedding(t, p.drop_first(), x + 1, e2, g));
        lemma_greedy_earliest(t, p.drop_first(), x + 1, e2, g);
        assert(span_at(t, p, x) is Some);
    }
}

/// Two ranked lists of the same items are the same list.
proof fn lemma_ranked_unique(items: Seq<&str>, p: Seq<char>, a: Seq<usize>, b: Seq<usize>)
    requires
        forall|k: int| 0 <= k < a.len() ==> key_of(items, p, #[trigger] a[k] as int) is Some,
        forall|k: int| 0 <= k < b.len() ==> key_of(items, p, #[trigger] b[k] as int) is Some,
        forall|x: usize| a.contains(x) <==> b.contains(x),
        forall|j: int, k: int| 0 <= j < k < a.len() ==> key_lt(
            key_of(items, p, a[j] as int)->0,
            key_of(items, p, a[k] as int)->0,
        ),
        forall|j: int, k: int| 0 <= j < k < b.len() ==> key_lt(
            key_of(items, p, b[j] as int)->0,
            key_of(items, p, b[k] as int)->0,
        ),
    ensures
        a == b,
    decreases a.len(),
{
    let kk = |i: usize| key_of(items, p, i as int)->0;
    if a.len() == 0 {
        if b.len() > 0 {
            assert(b.contains(b[0]));
        }
        assert(a =~= b);
    } else if b.len() == 0 {
        assert(a.contains(a[0]));
    } else {
        // Both heads are the least item.
        assert(b.contains(a[0]));
        assert(a.contains(b[0]));
        if a[0] != b[0] {
            let ja = choose|j: int| 0 <= j < b.len() && b[j] == a[0];
            let jb = choose|j: int| 0 <= j < a.len() && a[j] == b[0];
            assert(key_lt(kk(b[0]), kk(a[0])));
            assert(key_lt(kk(a[0]), kk(b[0])));
            lemma_key_lt_asymmetric(kk(a[0]), kk(b[0]));
        }
        let a1 = a.drop_first();
        let b1 = b.drop_first();
        assert forall|x: usize| a1.contains(x) <==> b1.contains(x) by {
            if a1.contains(x) {
                let j = choose|j: int| 0 <= j < a1.len() && a1[j] == x;
                lemma_key_lt_asymmetric(kk(a[0]), kk(a[j + 1]));
                assert(b.contains(x));
                let m = choose|m: int| 0 <= m < b.len() && b[m] == x;
                if m == 0 {
                    assert(x == a[0]);
                    assert(false);
                }
                assert(b1[m - 1] == x);
            }
            if b1.contains(x) {
                let j = choose|j: int| 0 <= j < b1.len() && b1[j] == x;
                lemma_key_lt_asymmetric(kk(b[0]), kk(b[j + 1]));
                assert(a.contains(x));
                let m = choose|m: int| 0 <= m < a.len() && a[m] == x;
                if m == 0 {
                    assert(x == b[0]);
                    assert(false);
                }
                assert(a1[m - 1] == x);
            }
        }
        lemma_ranked_unique(items, p, a1, b1);
        assert(a =~= seq![a[0]] + a1);
        assert(b =~= seq![b[0]] + b1);
    }
}

/// The ranking is a function of the query and the items: only one list
/// meets [`ranked`], so `fuzzy_rank`'s contract fixes its result.
pub proof fn ranking_is_unique(q: Seq<char>, items: Seq<&str>, a: Seq<usize>, b: Seq<usize>)
    requires
        ranked(q, items, a),
        ranked(q, items, b),
    ensures
        a == b,
{
    let p = pattern_of(q);
    if p.len() > 0 {
        assert forall|x: usize| a.contains(x) <==> b.contains(x) by {
            if a.contains(x) {
                let j = choose|j: int| 0 <= j < a.len() && a[j] == x;
                assert(key_of(items, p, a[j] as int) is Some);
            }
            if b.contains(x) {
                let j = choose|j: int| 0 <= j < b.len() && b[j] == x;
                assert(key_of(items, p, b[j] as int) is Some);
            }
        }
        lemma_ranked_unique(items, p, a, b);
    }
}

proof fn lemma_text_lt_prefix(a: Seq<char>, b: Seq<char>)
    ensures
        a.len() < b.len() && b.take(a.len() as int) == a ==> text_lt(a, b),
        b.len() <= a.len() && a.take(b.len() as int) == b ==> !text_lt(a, b),
    decreases a.len(),
{
    if a.len() > 0 && b.len() > 0 {
        lemma_text_lt_prefix(a.drop_first(), b.drop_first());
        if a.len() < b.len() && b.take(a.len() as int) == a {
            assert(b.take(a.len() as int)[0] == b[0]);
            assert(b.drop_first().take(a.drop_first().len() as int) =~= a.drop_first());
        }
        if b.len() <= a.len() && a.take(b.len() as int) == b {
            assert(a.take(b.len() as int)[0] == a[0]);
            assert(a.drop_first().take(b.drop_first().len() as int) =~= b.drop_first());
        }
    }
}

proof fn lemma_text_lt_first_difference(a: Seq<char>, b: Seq<char>, k: int)
    requires
        0 <= k < a.len(),
        k < b.len(),
        a.take(k) == b.take(k),
        a[k] != b[k],
    ensures
        text_lt(a, b) <==> (a[k] as int) < (b[k] as int),
    decreases k,
{
    if k > 0 {
        assert(a.take(k)[0] == a[0] && b.take(k)[0] == b[0]);
        assert(a.drop_first().take(k - 1) =~= a.take(k).drop_first());
        assert(b.drop_first().take(k - 1) =~= b.take(k).drop_first());
        lemma_text_lt_first_difference(a.drop_first(), b.drop_first(), k - 1);
    }
}

/// Labels tie-break in `str`'s order: at the first char where two labels
/// differ, the smaller code point comes first, and where one label is a
/// proper prefix of the other, the shorter comes first.
pub proof fn labels_order_as_strings(a: Seq<char>, b: Seq<char>)
    ensures
        a.len() < b.len() && b.take(a.len() as int) == a ==> text_lt(a, b),
        b.len() <= a.len() && a.take(b.len() as int) == b ==> !text_lt(a, b),
        forall|k: int|
            0 <= k < a.len() && k < b.len() && #[trigger] a.take(k) == b.take(k) && a[k] != b[k] ==> (
            text_lt(a, b) <==> (a[k] as int) < (b[k] as int)),
{
    lemma_text_lt_prefix(a, b);
    assert forall|k: int|
        0 <= k < a.len() && k < b.len() && #[trigger] a.take(k) == b.take(k) && a[k] != b[k] implies (
        text_lt(a, b) <==> (a[k] as int) < (b[k] as int)) by {
        lemma_text_lt_first_difference(a, b, k);
    }
}

} // verus!
