//! The surface of wrangle scripts: the `@name` sugar and the channel
//! references a script reads.

use vstd::prelude::*;
use crate::text::{chars_of, is_white_space, white_space};

verus! {

/// Where the scanner stands in the text of a script.
#[derive(Clone, Copy, Debug, PartialEq, Eq, Structural)]
pub enum Lex {
    /// Plain code.
    Code,
    /// Inside a string or char literal opened by this quote.
    Quoted(char),
    /// Inside a `//` comment, up to the end of the line.
    LineComment,
    /// Inside a `/* */` comment.
    BlockComment,
}

/// An ASCII letter or underscore: what may start a name.
pub open spec fn is_ident_start(c: char) -> bool {
    ('a' <= c && c <= 'z') || ('A' <= c && c <= 'Z') || c == '_'
}

/// An ASCII letter, digit or underscore: what a name is made of.
pub open spec fn is_ident_char(c: char) -> bool {
    is_ident_start(c) || ('0' <= c && c <= '9')
}

/// The end of the run of name characters that starts at `i`.
pub open spec fn ident_end(s: Seq<char>, i: int) -> int
    decreases s.len() - i,
{
    if 0 <= i < s.len() && is_ident_char(s[i]) {
        ident_end(s, i + 1)
    } else {
        i
    }
}

pub proof fn lemma_ident_end(s: Seq<char>, i: int)
    requires
        0 <= i <= s.len(),
    ensures
        i <= ident_end(s, i) <= s.len(),
        forall|k: int| i <= k < ident_end(s, i) ==> is_ident_char(#[trigger] s[k]),
        ident_end(s, i) < s.len() ==> !is_ident_char(s[ident_end(s, i)]),
    decreases s.len() - i,
{
    if i < s.len() && is_ident_char(s[i]) {
        lemma_ident_end(s, i + 1);
    }
}

/// The text of `s` from `i` on, read in state `st`, with every `@name` in
/// code (not in a string, char literal or comment) written as the element
/// index `__at["name"]`. A bare `@` is left as it is.
pub open spec fn desugar_from(s: Seq<char>, i: int, st: Lex) -> Seq<char>
    decreases s.len() - i,
{
    if i < 0 || i >= s.len() {
        seq![]
    } else {
        let c = s[i];
        let next_is = |d: char| i + 1 < s.len() && s[i + 1] == d;
        match st {
            Lex::Code => {
                if c == '"' || c == '\'' {
                    seq![c] + desugar_from(s, i + 1, Lex::Quoted(c))
                } else if c == '/' && next_is('/') {
                    seq![c, '/'] + desugar_from(s, i + 2, Lex::LineComment)
                } else if c == '/' && next_is('*') {
                    seq![c, '*'] + desugar_from(s, i + 2, Lex::BlockComment)
                } else if c == '@' && i + 1 < s.len() && is_ident_start(s[i + 1]) {
                    proof {
                        lemma_ident_end(s, i + 1);
                    }
                    let j = ident_end(s, i + 1);
                    "__at[\""@ + s.subrange(i + 1, j) + "\"]"@ + desugar_from(s, j, Lex::Code)
                } else {
                    seq![c] + desugar_from(s, i + 1, Lex::Code)
                }
            },
            Lex::Quoted(q) => {
                if c == '\\' && i + 1 < s.len() {
                    seq![c, s[i + 1]] + desugar_from(s, i + 2, Lex::Quoted(q))
                } else if c == q {
                    seq![c] + desugar_from(s, i + 1, Lex::Code)
                } else {
                    seq![c] + desugar_from(s, i + 1, Lex::Quoted(q))
                }
            },
            Lex::LineComment => {
                if c == '\n' {
                    seq![c] + desugar_from(s, i + 1, Lex::Code)
                } else {
                    seq![c] + desugar_from(s, i + 1, Lex::LineComment)
                }
            },
            Lex::BlockComment => {
                if c == '*' && next_is('/') {
                    seq![c, '/'] + desugar_from(s, i + 2, Lex::Code)
                } else {
                    seq![c] + desugar_from(s, i + 1, Lex::BlockComment)
                }
            },
        }
    }
}

/// The script with `@name` sugar written out; see [`desugar_from`].
pub open spec fn desugared(s: Seq<char>) -> Seq<char> {
    desugar_from(s, 0, Lex::Code)
}

fn is_ident_start_exec(c: char) -> (b: bool)
    ensures
        b == is_ident_start(c),
{
    ('a' <= c && c <= 'z') || ('A' <= c && c <= 'Z') || c == '_'
}

fn is_ident_char_exec(c: char) -> (b: bool)
    ensures
        b == is_ident_char(c),
{
    is_ident_start_exec(c) || ('0' <= c && c <= '9')
}

/// The end of the run of name characters that starts at `i`.
fn scan_ident(v: &Vec<char>, i: usize) -> (j: usize)
    requires
        i <= v@.len(),
    ensures
        j == ident_end(v@, i as int),
{
    let mut j = i;
    while j < v.len() && is_ident_char_exec(v[j])
        invariant
            i <= j <= v@.len(),
            ident_end(v@, i as int) == ident_end(v@, j as int),
        decreases v@.len() - j,
    {
        j = j + 1;
    }
    j
}

/// `src[from..to]` at the end of `out`.
fn append_range(out: &mut String, src: &str, from: usize, to: usize)
    requires
        from <= to <= src@.len(),
    ensures
        final(out)@ == old(out)@ + src@.subrange(from as int, to as int),
{
    out.append(src.substring_char(from, to));
}

/// Write out the `@name` sugar of a wrangle script: in code, `@name` becomes
/// the element index `__at["name"]`; inside strings, char literals and
/// comments an `@` is left alone, and so is an `@` not followed by a name.
pub fn desugar(src: &str) -> (out: String)
    ensures
        out@ == desugared(src@),
{
    let v = chars_of(src);
    let n = v.len();
    let mut out = String::new();
    let mut run: usize = 0;
    let mut i: usize = 0;
    let mut st = Lex::Code;
    proof {
        reveal_strlit("__at[\"");
        reveal_strlit("\"]");
    }
    while i < n
        invariant
            n == v@.len(),
            v@ == src@,
            run <= i <= n,
            out@ + src@.subrange(run as int, i as int) + desugar_from(src@, i as int, st) == desugared(
                src@,
            ),
        decreases n - i,
    {
        let c = v[i];
        let next: Option<char> = if i + 1 < n {
            Some(v[i + 1])
        } else {
            None
        };
        let ghost s = src@;
        let ghost i0 = i;
        let ghost run0 = run;
        let ghost out0 = out@;
        let ghost st0 = st;
        match st {
            Lex::Code => {
                if c == '"' || c == '\'' {
                    st = Lex::Quoted(c);
                    i = i + 1;
                } else if c == '/' && next == Some('/') {
                    st = Lex::LineComment;
                    i = i + 2;
                } else if c == '/' && next == Some('*') {
                    st = Lex::BlockComment;
                    i = i + 2;
                } else if c == '@' && i + 1 < n && is_ident_start_exec(v[i + 1]) {
                    proof {
                        lemma_ident_end(s, i + 1);
                    }
                    let j = scan_ident(&v, i + 1);
                    append_range(&mut out, src, run, i);
                    out.append("__at[\"");
                    append_range(&mut out, src, i + 1, j);
                    out.append("\"]");
                    run = j;
                    i = j;
                } else {
                    i = i + 1;
                }
            },
            Lex::Quoted(q) => {
                if c == '\\' && i + 1 < n {
                    i = i + 2;
                } else if c == q {
                    st = Lex::Code;
                    i = i + 1;
                } else {
                    i = i + 1;
                }
            },
            Lex::LineComment => {
                if c == '\n' {
                    st = Lex::Code;
                }
                i = i + 1;
            },
            Lex::BlockComment => {
                if c == '*' && next == Some('/') {
                    st = Lex::Code;
                    i = i + 2;
                } else {
                    i = i + 1;
                }
            },
        }
        proof {
            if run == run0 {
                if i == i0 + 1 {
                    assert(s.subrange(i0 as int, i as int) =~= seq![c]);
                } else {
                    assert(s.subrange(i0 as int, i as int) =~= seq![c, s[i0 + 1]]);
                }
                assert(desugar_from(s, i0 as int, st0) == s.subrange(i0 as int, i as int)
                    + desugar_from(s, i as int, st));
                assert(s.subrange(run0 as int, i as int) =~= s.subrange(run0 as int, i0 as int)
                    + s.subrange(i0 as int, i as int));
                assert(out@ + s.subrange(run as int, i as int) + desugar_from(s, i as int, st)
                    =~= out0 + s.subrange(run0 as int, i0 as int) + desugar_from(s, i0 as int, st0));
            } else {
                assert(s.subrange(run as int, i as int) =~= Seq::<char>::empty());
                assert(out@ + s.subrange(run as int, i as int) + desugar_from(s, i as int, st)
                    =~= out0 + s.subrange(run0 as int, i0 as int) + desugar_from(s, i0 as int, st0));
            }
        }
    }
    append_range(&mut out, src, run, n);
    proof {
        assert(desugar_from(src@, i as int, st) =~= Seq::<char>::empty());
        assert(out@ =~= desugared(src@));
    }
    out
}

/// The names of the channel-reading calls: `ch`, `chb`, `chf`, `chi`, `chs`.
pub open spec fn is_channel_name(t: Seq<char>) -> bool {
    ||| t == "ch"@
    ||| t == "chb"@
    ||| t == "chf"@
    ||| t == "chi"@
    ||| t == "chs"@
}

/// The first position from `i` on that is not white space.
pub open spec fn skip_space(s: Seq<char>, i: int) -> int
    decreases s.len() - i,
{
    if 0 <= i < s.len() && is_white_space(s[i]) {
        skip_space(s, i + 1)
    } else {
        i
    }
}

/// The first position from `i` on that holds `q`, or the end.
pub open spec fn find_char(s: Seq<char>, i: int, q: char) -> int
    decreases s.len() - i,
{
    if 0 <= i < s.len() && s[i] != q {
        find_char(s, i + 1, q)
    } else {
        i
    }
}

pub proof fn lemma_skip_space(s: Seq<char>, i: int)
    requires
        0 <= i <= s.len(),
    ensures
        i <= skip_space(s, i) <= s.len(),
    decreases s.len() - i,
{
    if i < s.len() && is_white_space(s[i]) {
        lemma_skip_space(s, i + 1);
    }
}

pub proof fn lemma_find_char(s: Seq<char>, i: int, q: char)
    requires
        0 <= i <= s.len(),
    ensures
        i <= find_char(s, i, q) <= s.len(),
        find_char(s, i, q) < s.len() ==> s[find_char(s, i, q)] == q,
    decreases s.len() - i,
{
    if i < s.len() && s[i] != q {
        lemma_find_char(s, i + 1, q);
    }
}

/// Where the quoted path sits, when the name that starts at `i` is a
/// channel call with a quoted argument: `ch ( "path"`, white space allowed
/// around the parenthesis, either quote.
pub open spec fn call_path(s: Seq<char>, i: int) -> Option<(int, int)> {
    let j = ident_end(s, i);
    let k = skip_space(s, j);
    let m = skip_space(s, k + 1);
    if is_channel_name(s.subrange(i, j)) && k < s.len() && s[k] == '(' && m < s.len() && (s[m] == '"'
        || s[m] == '\'') {
        let r = find_char(s, m + 1, s[m]);
        if r < s.len() {
            Some((m + 1, r))
        } else {
            None
        }
    } else {
        None
    }
}

pub proof fn lemma_call_path(s: Seq<char>, i: int)
    requires
        0 <= i < s.len(),
        is_ident_char(s[i]),
    ensures
        i < ident_end(s, i) <= s.len(),
        call_path(s, i) matches Some(p) ==> i < p.0 <= p.1 < s.len(),
{
    lemma_ident_end(s, i);
    let j = ident_end(s, i);
    lemma_skip_space(s, j);
    let k = skip_space(s, j);
    if k < s.len() {
        lemma_skip_space(s, k + 1);
        let m = skip_space(s, k + 1);
        if m < s.len() {
            lemma_find_char(s, m + 1, s[m]);
        }
    }
}

/// The quoted paths of the channel calls in code from `i` on, read in
/// state `st`, as `(start, end)` positions; strings and comments are not
/// code, and a name is only a call when the whole name is a channel name.
pub open spec fn spans_from(s: Seq<char>, i: int, st: Lex) -> Seq<(int, int)>
    decreases s.len() - i,
{
    if i < 0 || i >= s.len() {
        seq![]
    } else {
        let c = s[i];
        let next_is = |d: char| i + 1 < s.len() && s[i + 1] == d;
        match st {
            Lex::Code => {
                if c == '"' || c == '\'' {
                    spans_from(s, i + 1, Lex::Quoted(c))
                } else if c == '/' && next_is('/') {
                    spans_from(s, i + 2, Lex::LineComment)
                } else if c == '/' && next_is('*') {
                    spans_from(s, i + 2, Lex::BlockComment)
                } else if is_ident_char(c) {
                    proof {
                        lemma_call_path(s, i);
                    }
                    match call_path(s, i) {
                        Some(p) => seq![p] + spans_from(s, p.1 + 1, Lex::Code),
                        None => spans_from(s, ident_end(s, i), Lex::Code),
                    }
                } else {
                    spans_from(s, i + 1, Lex::Code)
                }
            },
            Lex::Quoted(q) => {
                if c == '\\' && i + 1 < s.len() {
                    spans_from(s, i + 2, Lex::Quoted(q))
                } else if c == q {
                    spans_from(s, i + 1, Lex::Code)
                } else {
                    spans_from(s, i + 1, Lex::Quoted(q))
                }
            },
            Lex::LineComment => {
                if c == '\n' {
                    spans_from(s, i + 1, Lex::Code)
                } else {
                    spans_from(s, i + 1, Lex::LineComment)
                }
            },
            Lex::BlockComment => {
                if c == '*' && next_is('/') {
                    spans_from(s, i + 2, Lex::Code)
                } else {
                    spans_from(s, i + 1, Lex::BlockComment)
                }
            },
        }
    }
}

/// Where the channel paths of a script sit, in order.
pub open spec fn path_spans(s: Seq<char>) -> Seq<(int, int)> {
    spans_from(s, 0, Lex::Code)
}

/// The channel paths a script reads, in order.
pub open spec fn paths_of(s: Seq<char>) -> Seq<Seq<char>> {
    path_spans(s).map_values(|p: (int, int)| s.subrange(p.0, p.1))
}

/// Is `v[i..j]` a channel call's name?
fn channel_name_at(v: &Vec<char>, i: usize, j: usize) -> (b: bool)
    requires
        i <= j <= v@.len(),
    ensures
        b == is_channel_name(v@.subrange(i as int, j as int)),
{
    proof {
        reveal_strlit("ch");
        reveal_strlit("chb");
        reveal_strlit("chf");
        reveal_strlit("chi");
        reveal_strlit("chs");
    }
    let ghost t = v@.subrange(i as int, j as int);
    assert("ch"@.len() == 2 && "chb"@.len() == 3 && "chf"@.len() == 3);
    assert("chi"@.len() == 3 && "chs"@.len() == 3);
    assert("ch"@[0] == 'c' && "ch"@[1] == 'h');
    assert("chb"@[2] == 'b' && "chf"@[2] == 'f' && "chi"@[2] == 'i' && "chs"@[2] == 's');
    assert("chb"@[0] == 'c' && "chf"@[0] == 'c' && "chi"@[0] == 'c' && "chs"@[0] == 'c');
    assert("chb"@[1] == 'h' && "chf"@[1] == 'h' && "chi"@[1] == 'h' && "chs"@[1] == 'h');
    if j - i == 2 {
        let b = v[i] == 'c' && v[i + 1] == 'h';
        proof {
            if b {
                assert(t =~= "ch"@);
            } else {
                assert(t[0] != 'c' || t[1] != 'h');
            }
        }
        b
    } else if j - i == 3 {
        let c = v[i + 2];
        let b = v[i] == 'c' && v[i + 1] == 'h' && (c == 'b' || c == 'f' || c == 'i' || c == 's');
        proof {
            if b {
                if c == 'b' {
                    assert(t =~= "chb"@);
                } else if c == 'f' {
                    assert(t =~= "chf"@);
                } else if c == 'i' {
                    assert(t =~= "chi"@);
                } else {
                    assert(t =~= "chs"@);
                }
            } else {
                assert(t.len() == 3);
                assert(t[0] != 'c' || t[1] != 'h' || !(t[2] == 'b' || t[2] == 'f' || t[2] == 'i' || t[2] == 's'));
            }
        }
        b
    } else {
        false
    }
}

fn skip_space_exec(v: &Vec<char>, i: usize) -> (j: usize)
    requires
        i <= v@.len(),
    ensures
        j == skip_space(v@, i as int),
{
    let mut j = i;
    while j < v.len() && white_space(v[j])
        invariant
            i <= j <= v@.len(),
            skip_space(v@, i as int) == skip_space(v@, j as int),
        decreases v@.len() - j,
    {
        j = j + 1;
    }
    j
}

fn find_char_exec(v: &Vec<char>, i: usize, q: char) -> (j: usize)
    requires
        i <= v@.len(),
    ensures
        j == find_char(v@, i as int, q),
{
    let mut j = i;
    while j < v.len() && v[j] != q
        invariant
            i <= j <= v@.len(),
            find_char(v@, i as int, q) == find_char(v@, j as int, q),
        decreases v@.len() - j,
    {
        j = j + 1;
    }
    j
}

fn call_path_exec(v: &Vec<char>, i: usize) -> (r: Option<(usize, usize)>)
    requires
        i < v@.len(),
        is_ident_char(v@[i as int]),
    ensures
        match r {
            Some(p) => call_path(v@, i as int) == Some((p.0 as int, p.1 as int)),
            None => call_path(v@, i as int) is None,
        },
{
    proof {
        lemma_call_path(v@, i as int);
        lemma_ident_end(v@, i as int);
    }
    let j = scan_ident(v, i);
    if !channel_name_at(v, i, j) {
        return None;
    }
    proof {
        lemma_skip_space(v@, j as int);
    }
    let k = skip_space_exec(v, j);
    if k >= v.len() || v[k] != '(' {
        return None;
    }
    proof {
        lemma_skip_space(v@, k + 1);
    }
    let m = skip_space_exec(v, k + 1);
    if m >= v.len() || !(v[m] == '"' || v[m] == '\'') {
        return None;
    }
    proof {
        lemma_find_char(v@, m + 1, v@[m as int]);
    }
    let r = find_char_exec(v, m + 1, v[m]);
    if r >= v.len() {
        return None;
    }
    Some((m + 1, r))
}

/// The view of the found spans, as integer pairs.
pub open spec fn spans_view(v: Seq<(usize, usize)>) -> Seq<(int, int)> {
    v.map_values(|p: (usize, usize)| (p.0 as int, p.1 as int))
}

/// Where the channel paths of a script sit, as char positions, in order.
pub fn channel_path_spans(src: &str) -> (spans: Vec<(usize, usize)>)
    ensures
        spans_view(spans@) == path_spans(src@),
        forall|k: int| 0 <= k < spans@.len() ==> #[trigger] spans@[k].0 <= spans@[k].1 <= src@.len(),
{
    let v = chars_of(src);
    let n = v.len();
    let mut spans: Vec<(usize, usize)> = Vec::new();
    let mut i: usize = 0;
    let mut st = Lex::Code;
    while i < n
        invariant
            n == v@.len(),
            v@ == src@,
            i <= n,
            spans_view(spans@) + spans_from(src@, i as int, st) == path_spans(src@),
            forall|k: int| 0 <= k < spans@.len() ==> #[trigger] spans@[k].0 <= spans@[k].1 <= n,
        decreases n - i,
    {
        let c = v[i];
        let next: Option<char> = if i + 1 < n {
            Some(v[i + 1])
        } else {
            None
        };
        let ghost s = src@;
        let ghost i0 = i;
        let ghost st0 = st;
        let ghost sp0 = spans@;
        match st {
            Lex::Code => {
                if c == '"' || c == '\'' {
                    st = Lex::Quoted(c);
                    i = i + 1;
                } else if c == '/' && next == Some('/') {
                    st = Lex::LineComment;
                    i = i + 2;
                } else if c == '/' && next == Some('*') {
                    st = Lex::BlockComment;
                    i = i + 2;
                } else if is_ident_char_exec(c) {
                    proof {
                        lemma_call_path(s, i as int);
                    }
                    match call_path_exec(&v, i) {
                        Some(p) => {
                            spans.push(p);
                            i = p.1 + 1;
                            proof {
                                assert(spans_view(spans@) =~= spans_view(sp0).push((p.0 as int, p.1 as int)));
                            }
                        },
                        None => {
                            i = scan_ident(&v, i);
                        },
                    }
                } else {
                    i = i + 1;
                }
            },
            Lex::Quoted(q) => {
                if c == '\\' && i + 1 < n {
                    i = i + 2;
                } else if c == q {
                    st = Lex::Code;
                    i = i + 1;
                } else {
                    i = i + 1;
                }
            },
            Lex::LineComment => {
                if c == '\n' {
                    st = Lex::Code;
                }
                i = i + 1;
            },
            Lex::BlockComment => {
                if c == '*' && next == Some('/') {
                    st = Lex::Code;
                    i = i + 2;
                } else {
                    i = i + 1;
                }
            },
        }
        proof {
            assert(spans_view(spans@) + spans_from(s, i as int, st) =~= spans_view(sp0) + spans_from(
                s,
                i0 as int,
                st0,
            ));
        }
    }
    proof {
        assert(spans_view(spans@) =~= path_spans(src@));
    }
    spans
}

/// The channel paths a wrangle script reads (`ch("../Radius")`,
/// `chs('Name')`, ...), in order; calls inside strings or comments, and
/// names that merely end in a channel name, do not count.
pub fn channel_refs(src: &str) -> (refs: Vec<String>)
    ensures
        refs@.map_values(|r: String| r@) == paths_of(src@),
{
    let spans = channel_path_spans(src);
    let mut refs: Vec<String> = Vec::new();
    let mut k: usize = 0;
    while k < spans.len()
        invariant
            k <= spans@.len(),
            spans_view(spans@) == path_spans(src@),
            forall|m: int| 0 <= m < spans@.len() ==> #[trigger] spans@[m].0 <= spans@[m].1 <= src@.len(),
            refs@.map_values(|r: String| r@) == paths_of(src@).take(k as int),
        decreases spans@.len() - k,
    {
        let (a, b) = spans[k];
        let mut r = String::new();
        append_range(&mut r, src, a, b);
        proof {
            assert(r@ =~= src@.subrange(a as int, b as int));
        }
        let ghost old_refs = refs@;
        refs.push(r);
        k = k + 1;
        proof {
            assert(refs@.map_values(|r: String| r@) =~= old_refs.map_values(|r: String| r@).push(
                src@.subrange(a as int, b as int),
            ));
            assert(paths_of(src@).take(k as int) =~= paths_of(src@).take(k - 1).push(
                src@.subrange(a as int, b as int),
            ));
        }
    }
    proof {
        assert(paths_of(src@).take(k as int) =~= paths_of(src@));
    }
    refs
}

/// Every span of `spans_from(s, i, st)` lies past `i`, inside `s`, and after
/// the one before it.
pub open spec fn spans_ordered(spans: Seq<(int, int)>, lo: int, len: int) -> bool {
    &&& forall|k: int| 0 <= k < spans.len() ==> lo <= #[trigger] spans[k].0 <= spans[k].1 < len
    &&& forall|k: int| 0 < k < spans.len() ==> #[trigger] spans[k - 1].1 < spans[k].0
}

pub proof fn lemma_spans_ordered(s: Seq<char>, i: int, st: Lex)
    requires
        0 <= i,
    ensures
        spans_ordered(spans_from(s, i, st), i, s.len() as int),
    decreases s.len() - i,
{
    if i < s.len() {
        let c = s[i];
        let next_is = |d: char| i + 1 < s.len() && s[i + 1] == d;
        match st {
            Lex::Code => {
                if c == '"' || c == '\'' {
                    lemma_spans_ordered(s, i + 1, Lex::Quoted(c));
                } else if c == '/' && next_is('/') {
                    lemma_spans_ordered(s, i + 2, Lex::LineComment);
                } else if c == '/' && next_is('*') {
                    lemma_spans_ordered(s, i + 2, Lex::BlockComment);
                } else if is_ident_char(c) {
                    lemma_call_path(s, i);
                    match call_path(s, i) {
                        Some(p) => {
                            lemma_spans_ordered(s, p.1 + 1, Lex::Code);
                            let rest = spans_from(s, p.1 + 1, Lex::Code);
                            let all = seq![p] + rest;
                            assert(spans_from(s, i, st) == all);
                            assert forall|k: int| 0 < k < all.len() implies #[trigger] all[k - 1].1 < all[k].0 by {
                                if k > 1 {
                                    assert(all[k - 1] == rest[k - 2]);
                                    assert(all[k] == rest[k - 1]);
                                } else {
                                    assert(all[k] == rest[0]);
                                }
                            }
                            assert forall|k: int| 0 <= k < all.len() implies i <= #[trigger] all[k].0 <= all[k].1 < s.len() by {
                                if k > 0 {
                                    assert(all[k] == rest[k - 1]);
                                }
                            }
                        },
                        None => {
                            lemma_spans_ordered(s, ident_end(s, i), Lex::Code);
                        },
                    }
                } else {
                    lemma_spans_ordered(s, i + 1, Lex::Code);
                }
            },
            Lex::Quoted(q) => {
                if c == '\\' && i + 1 < s.len() {
                    lemma_spans_ordered(s, i + 2, Lex::Quoted(q));
                } else if c == q {
                    lemma_spans_ordered(s, i + 1, Lex::Code);
                } else {
                    lemma_spans_ordered(s, i + 1, Lex::Quoted(q));
                }
            },
            Lex::LineComment => {
                if c == '\n' {
                    lemma_spans_ordered(s, i + 1, Lex::Code);
                } else {
                    lemma_spans_ordered(s, i + 1, Lex::LineComment);
                }
            },
            Lex::BlockComment => {
                if c == '*' && next_is('/') {
                    lemma_spans_ordered(s, i + 2, Lex::Code);
                } else {
                    lemma_spans_ordered(s, i + 1, Lex::BlockComment);
                }
            },
        }
    }
}

proof fn lemma_desugar_plain(s: Seq<char>, i: int, st: Lex)
    requires
        0 <= i <= s.len(),
        forall|k: int| 0 <= k < s.len() ==> s[k] != '@',
    ensures
        desugar_from(s, i, st) == s.subrange(i, s.len() as int),
    decreases s.len() - i,
{
    if i < s.len() {
        let c = s[i];
        let next_is = |d: char| i + 1 < s.len() && s[i + 1] == d;
        match st {
            Lex::Code => {
                if c == '"' || c == '\'' {
                    lemma_desugar_plain(s, i + 1, Lex::Quoted(c));
                } else if c == '/' && next_is('/') {
                    lemma_desugar_plain(s, i + 2, Lex::LineComment);
                } else if c == '/' && next_is('*') {
                    lemma_desugar_plain(s, i + 2, Lex::BlockComment);
                } else {
                    lemma_desugar_plain(s, i + 1, Lex::Code);
                }
            },
            Lex::Quoted(q) => {
                if c == '\\' && i + 1 < s.len() {
                    lemma_desugar_plain(s, i + 2, Lex::Quoted(q));
                } else if c == q {
                    lemma_desugar_plain(s, i + 1, Lex::Code);
                } else {
                    lemma_desugar_plain(s, i + 1, Lex::Quoted(q));
                }
            },
            Lex::LineComment => {
                if c == '\n' {
                    lemma_desugar_plain(s, i + 1, Lex::Code);
                } else {
                    lemma_desugar_plain(s, i + 1, Lex::LineComment);
                }
            },
            Lex::BlockComment => {
                if c == '*' && next_is('/') {
                    lemma_desugar_plain(s, i + 2, Lex::Code);
                } else {
                    lemma_desugar_plain(s, i + 1, Lex::BlockComment);
                }
            },
        }
        if i + 1 < s.len() {
            assert(s.subrange(i, s.len() as int) =~= seq![c, s[i + 1]] + s.subrange(
                i + 2,
                s.len() as int,
            ));
        }
        assert(s.subrange(i, s.len() as int) =~= seq![c] + s.subrange(i + 1, s.len() as int));
    }
}

/// Only `@name` is sugar: a script with no `@` in it desugars to itself.
pub proof fn desugar_keeps_text_without_at(s: Seq<char>)
    requires
        forall|k: int| 0 <= k < s.len() ==> s[k] != '@',
    ensures
        desugared(s) == s,
{
    lemma_desugar_plain(s, 0, Lex::Code);
    assert(s.subrange(0, s.len() as int) =~= s);
}

proof fn lemma_ident_run(s: Seq<char>, i: int, e: int)
    requires
        0 <= i <= e <= s.len(),
        forall|k: int| i <= k < e ==> is_ident_char(#[trigger] s[k]),
        e < s.len() ==> !is_ident_char(s[e]),
    ensures
        ident_end(s, i) == e,
    decreases e - i,
{
    if i < e {
        lemma_ident_run(s, i + 1, e);
    }
}

proof fn lemma_find_run(s: Seq<char>, i: int, e: int, q: char)
    requires
        0 <= i <= e < s.len(),
        forall|k: int| i <= k < e ==> #[trigger] s[k] != q,
        s[e] == q,
    ensures
        find_char(s, i, q) == e,
    decreases e - i,
{
    if i < e {
        lemma_find_run(s, i + 1, e, q);
    }
}

/// Every channel-reading call counts: `ch`, `chb`, `chf`, `chi` and `chs`
/// with a double-quoted path each read that one path, so a rename reaches
/// all of them.
pub proof fn every_channel_call_reads_its_path(name: Seq<char>, p: Seq<char>)
    requires
        name == "ch"@ || name == "chb"@ || name == "chf"@ || name == "chi"@ || name == "chs"@,
        forall|k: int| 0 <= k < p.len() ==> #[trigger] p[k] != '"',
    ensures
        paths_of(name + seq!['(', '"'] + p + seq!['"', ')']) == seq![p],
{
    reveal_strlit("ch");
    reveal_strlit("chb");
    reveal_strlit("chf");
    reveal_strlit("chi");
    reveal_strlit("chs");
    let s = name + seq!['(', '"'] + p + seq!['"', ')'];
    let j = name.len() as int;
    let r = j + 2 + p.len();
    assert(2 <= j <= 3);
    assert(s[j] == '(' && s[j + 1] == '"' && s[r] == '"' && s[r + 1] == ')');
    assert(s.len() == r + 2);
    assert forall|k: int| 0 <= k < j implies is_ident_char(#[trigger] s[k]) by {
        assert(s[k] == name[k]);
    }
    assert(is_ident_char(s[0]));
    lemma_ident_run(s, 0, j);
    assert(skip_space(s, j) == j);
    assert(skip_space(s, j + 1) == j + 1);
    assert forall|k: int| j + 2 <= k < r implies #[trigger] s[k] != '"' by {
        assert(s[k] == p[k - j - 2]);
    }
    lemma_find_run(s, j + 2, r, '"');
    assert(s.subrange(0, j) =~= name);
    assert(call_path(s, 0) == Some((j + 2, r)));
    assert(spans_from(s, r + 2, Lex::Code) == Seq::<(int, int)>::empty());
    assert(!is_ident_char(s[r + 1]));
    assert(spans_from(s, r + 1, Lex::Code) == spans_from(s, r + 2, Lex::Code));
    assert(path_spans(s) =~= seq![(j + 2, r)]);
    assert(s.subrange(j + 2, r) =~= p);
    assert(paths_of(s) =~= seq![p]);
}

proof fn lemma_ident_end_shift(s: Seq<char>, k: int, i: int)
    requires
        0 <= k <= i <= s.len(),
    ensures
        ident_end(s, i) == k + ident_end(s.subrange(k, s.len() as int), i - k),
    decreases s.len() - i,
{
    let t = s.subrange(k, s.len() as int);
    if i < s.len() {
        assert(t[i - k] == s[i]);
        lemma_ident_end_shift(s, k, i + 1);
    }
}

/// Desugaring from a position reads only the text from there on.
proof fn lemma_desugar_shift(s: Seq<char>, k: int, i: int, st: Lex)
    requires
        0 <= k <= i <= s.len(),
    ensures
        desugar_from(s, i, st) == desugar_from(s.subrange(k, s.len() as int), i - k, st),
    decreases s.len() - i,
{
    let t = s.subrange(k, s.len() as int);
    if i < s.len() {
        let c = s[i];
        assert(t[i - k] == c);
        if i + 1 < s.len() {
            assert(t[i + 1 - k] == s[i + 1]);
        }
        match st {
            Lex::Code => {
                if c == '"' || c == '\'' {
                    lemma_desugar_shift(s, k, i + 1, Lex::Quoted(c));
                } else if c == '/' && i + 1 < s.len() && s[i + 1] == '/' {
                    lemma_desugar_shift(s, k, i + 2, Lex::LineComment);
                } else if c == '/' && i + 1 < s.len() && s[i + 1] == '*' {
                    lemma_desugar_shift(s, k, i + 2, Lex::BlockComment);
                } else if c == '@' && i + 1 < s.len() && is_ident_start(s[i + 1]) {
                    lemma_ident_end(s, i + 1);
                    lemma_ident_end_shift(s, k, i + 1);
                    let j = ident_end(s, i + 1);
                    lemma_desugar_shift(s, k, j, Lex::Code);
                    assert(s.subrange(i + 1, j) =~= t.subrange(i + 1 - k, j - k));
                } else {
                    lemma_desugar_shift(s, k, i + 1, Lex::Code);
                }
            },
            Lex::Quoted(q) => {
                if c == '\\' && i + 1 < s.len() {
                    lemma_desugar_shift(s, k, i + 2, Lex::Quoted(q));
                } else if c == q {
                    lemma_desugar_shift(s, k, i + 1, Lex::Code);
                } else {
                    lemma_desugar_shift(s, k, i + 1, Lex::Quoted(q));
                }
            },
            Lex::LineComment => {
                if c == '\n' {
                    lemma_desugar_shift(s, k, i + 1, Lex::Code);
                } else {
                    lemma_desugar_shift(s, k, i + 1, Lex::LineComment);
                }
            },
            Lex::BlockComment => {
                if c == '*' && i + 1 < s.len() && s[i + 1] == '/' {
                    lemma_desugar_shift(s, k, i + 2, Lex::Code);
                } else {
                    lemma_desugar_shift(s, k, i + 1, Lex::BlockComment);
                }
            },
        }
    }
}

/// Plain code (no `@`, quote or slash) is copied as it is.
proof fn lemma_desugar_plain_run(s: Seq<char>, i: int, e: int)
    requires
        0 <= i <= e <= s.len(),
        forall|k: int|
            i <= k < e ==> #[trigger] s[k] != '@' && s[k] != '"' && s[k] != '\'' && s[k] != '/',
    ensures
        desugar_from(s, i, Lex::Code) == s.subrange(i, e) + desugar_from(s, e, Lex::Code),
    decreases e - i,
{
    if i < e {
        lemma_desugar_plain_run(s, i + 1, e);
        assert(s.subrange(i, e) =~= seq![s[i]] + s.subrange(i + 1, e));
    } else {
        assert(s.subrange(i, e) =~= Seq::<char>::empty());
    }
}

/// Inside a string opened by `q`, text up to the closing `q` is copied as
/// it is, and code resumes after it.
proof fn lemma_desugar_string_run(s: Seq<char>, i: int, e: int, q: char)
    requires
        0 <= i <= e < s.len(),
        q == '"' || q == '\'',
        forall|k: int| i <= k < e ==> #[trigger] s[k] != q && s[k] != '\\',
        s[e] == q,
    ensures
        desugar_from(s, i, Lex::Quoted(q)) == s.subrange(i, e + 1) + desugar_from(s, e + 1, Lex::Code),
    decreases e - i,
{
    if i < e {
        lemma_desugar_string_run(s, i + 1, e, q);
    }
    assert(s.subrange(i, e + 1) =~= seq![s[i]] + s.subrange(i + 1, e + 1));
}

/// A string ends only at the quote that opened it: after plain code `p`, a
/// string quoted with `q` whose text `m` holds neither `q` nor a backslash
/// (it may hold the other quote, `@` names, slashes) is kept as written,
/// and the code `r` after it is desugared as code.
pub proof fn a_string_ends_at_its_own_quote(p: Seq<char>, q: char, m: Seq<char>, r: Seq<char>)
    requires
        q == '"' || q == '\'',
        forall|k: int|
            0 <= k < p.len() ==> #[trigger] p[k] != '@' && p[k] != '"' && p[k] != '\'' && p[k] != '/',
        forall|k: int| 0 <= k < m.len() ==> #[trigger] m[k] != q && m[k] != '\\',
    ensures
        desugared(p + seq![q] + m + seq![q] + r) == p + seq![q] + m + seq![q] + desugared(r),
{
    let s = p + seq![q] + m + seq![q] + r;
    let e1 = p.len() as int;
    let e2 = e1 + 1 + m.len();
    assert forall|k: int| 0 <= k < e1 implies #[trigger] s[k] != '@' && s[k] != '"' && s[k] != '\''
        && s[k] != '/' by {
        assert(s[k] == p[k]);
    }
    lemma_desugar_plain_run(s, 0, e1);
    assert(s[e1] == q);
    assert(desugar_from(s, e1, Lex::Code) == seq![q] + desugar_from(s, e1 + 1, Lex::Quoted(q)));
    assert forall|k: int| e1 + 1 <= k < e2 implies #[trigger] s[k] != q && s[k] != '\\' by {
        assert(s[k] == m[k - e1 - 1]);
    }
    assert(s[e2] == q);
    lemma_desugar_string_run(s, e1 + 1, e2, q);
    lemma_desugar_shift(s, e2 + 1, e2 + 1, Lex::Code);
    assert(s.subrange(e2 + 1, s.len() as int) =~= r);
    assert(s.subrange(0, e1) =~= p);
    assert(s.subrange(e1 + 1, e2 + 1) =~= m + seq![q]);
    assert(desugared(s) =~= p + seq![q] + m + seq![q] + desugared(r));
}

/// `@name` in code is the element index `__at["name"]`: after plain code
/// `p`, an `@` followed by a whole name becomes the index, and the code `r`
/// after the name is desugared as code.
pub proof fn an_at_name_in_code_is_an_index(p: Seq<char>, name: Seq<char>, r: Seq<char>)
    requires
        forall|k: int|
            0 <= k < p.len() ==> #[trigger] p[k] != '@' && p[k] != '"' && p[k] != '\'' && p[k] != '/',
        name.len() > 0,
        is_ident_start(name[0]),
        forall|k: int| 0 <= k < name.len() ==> is_ident_char(#[trigger] name[k]),
        r.len() > 0 ==> !is_ident_char(r[0]),
    ensures
        desugared(p + seq!['@'] + name + r) == p + "__at[\""@ + name + "\"]"@ + desugared(r),
{
    let s = p + seq!['@'] + name + r;
    let e1 = p.len() as int;
    let j = e1 + 1 + name.len();
    assert forall|k: int| 0 <= k < e1 implies #[trigger] s[k] != '@' && s[k] != '"' && s[k] != '\''
        && s[k] != '/' by {
        assert(s[k] == p[k]);
    }
    lemma_desugar_plain_run(s, 0, e1);
    assert(s[e1] == '@' && s[e1 + 1] == name[0]);
    assert forall|k: int| e1 + 1 <= k < j implies is_ident_char(#[trigger] s[k]) by {
        assert(s[k] == name[k - e1 - 1]);
    }
    if j < s.len() {
        assert(s[j] == r[0]);
    }
    lemma_ident_run(s, e1 + 1, j);
    assert(s.subrange(e1 + 1, j) =~= name);
    assert(desugar_from(s, e1, Lex::Code) == "__at[\""@ + name + "\"]"@ + desugar_from(s, j, Lex::Code));
    lemma_desugar_shift(s, j, j, Lex::Code);
    assert(s.subrange(j, s.len() as int) =~= r);
    assert(s.subrange(0, e1) =~= p);
    assert(desugared(s) =~= p + "__at[\""@ + name + "\"]"@ + desugared(r));
}

} // verus!
