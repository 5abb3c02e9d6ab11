//! Character-level text helpers: ASCII case folding, Unicode white space
//! and trimming, stated over the `Seq<char>` view of a string.

use vstd::prelude::*;

verus! {

/// `c` with an ASCII capital letter taken to its small letter; every other
/// char, non-ASCII ones included, is left as it is.
pub open spec fn ascii_lower(c: char) -> char {
    if 65 <= (c as int) <= 90 {
        ((c as int) + 32) as char
    } else {
        c
    }
}

/// The whole sequence folded through [`ascii_lower`], char by char.
pub open spec fn ascii_lowercase(s: Seq<char>) -> Seq<char> {
    s.map_values(|c: char| ascii_lower(c))
}

/// The Unicode `White_Space` property, the set of code points that
/// `char::is_whitespace` accepts.
pub open spec fn is_white_space(c: char) -> bool {
    let u = c as int;
    ||| 9 <= u <= 13
    ||| u == 32
    ||| u == 0x85
    ||| u == 0xA0
    ||| u == 0x1680
    ||| 0x2000 <= u <= 0x200A
    ||| u == 0x2028
    ||| u == 0x2029
    ||| u == 0x202F
    ||| u == 0x205F
    ||| u == 0x3000
}

/// `s` without its leading white space.
pub open spec fn trim_start(s: Seq<char>) -> Seq<char>
    decreases s.len(),
{
    if s.len() > 0 && is_white_space(s[0]) {
        trim_start(s.drop_first())
    } else {
        s
    }
}

/// `s` without its trailing white space.
pub open spec fn trim_end(s: Seq<char>) -> Seq<char>
    decreases s.len(),
{
    if s.len() > 0 && is_white_space(s.last()) {
        trim_end(s.drop_last())
    } else {
        s
    }
}

/// `s` without white space at either end, as `str::trim` gives it.
pub open spec fn trimmed(s: Seq<char>) -> Seq<char> {
    trim_end(trim_start(s))
}

/// The char with the Unicode `White_Space` property?
pub fn white_space(c: char) -> (b: bool)
    ensures
        b == is_white_space(c),
{
    let u: u32 = c as u32;
    (9 <= u && u <= 13) || u == 32 || u == 0x85 || u == 0xA0 || u == 0x1680 || (0x2000 <= u
        && u <= 0x200A) || u == 0x2028 || u == 0x2029 || u == 0x202F || u == 0x205F || u == 0x3000
}

/// The chars of `s`, in order.
pub fn chars_of(s: &str) -> (v: Vec<char>)
    ensures
        v@ == s@,
{
    let n = s.unicode_len();
    let mut v: Vec<char> = Vec::new();
    let mut i: usize = 0;
    while i < n
        invariant
            n == s@.len(),
            i <= n,
            v@ == s@.subrange(0, i as int),
        decreases n - i,
    {
        v.push(s.get_char(i));
        i = i + 1;
    }
    v
}

proof fn lemma_trim_start_skip(s: Seq<char>, i: int)
    requires
        0 <= i < s.len(),
        is_white_space(s[i]),
    ensures
        trim_start(s.subrange(i, s.len() as int)) == trim_start(s.subrange(i + 1, s.len() as int)),
{
    let t = s.subrange(i, s.len() as int);
    assert(t.drop_first() =~= s.subrange(i + 1, s.len() as int));
}

proof fn lemma_trim_end_skip(s: Seq<char>, i: int, j: int)
    requires
        0 <= i < j <= s.len(),
        is_white_space(s[j - 1]),
    ensures
        trim_end(s.subrange(i, j)) == trim_end(s.subrange(i, j - 1)),
{
    let t = s.subrange(i, j);
    assert(t.drop_last() =~= s.subrange(i, j - 1));
}

/// How one char folds onto another, in terms of their code points.
proof fn lemma_fold_char(c: char, t: char)
    ensures
        c as u32 == c as int,
        t as u32 == t as int,
        (ascii_lower(c) == t) == (if 65 <= c as int <= 90 {
            t as int == c as int + 32
        } else {
            c == t
        }),
{
    if 65 <= c as int <= 90 {
        let a = ascii_lower(c);
        assert(a as int == c as int + 32);
        if t as int == c as int + 32 {
            assert(a as int == t as int);
        }
    }
}

/// Where the trimmed part of `v` begins and ends: `v[start..end]` is
/// `trimmed(v)`.
pub fn trim_bounds(v: &Vec<char>) -> (r: (usize, usize))
    ensures
        r.0 <= r.1 <= v@.len(),
        v@.subrange(r.0 as int, r.1 as int) == trimmed(v@),
{
    let n = v.len();
    let mut i: usize = 0;
    assert(v@.subrange(0, n as int) =~= v@);
    while i < n && white_space(v[i])
        invariant
            n == v@.len(),
            i <= n,
            trim_start(v@) == trim_start(v@.subrange(i as int, n as int)),
        decreases n - i,
    {
        proof {
            lemma_trim_start_skip(v@, i as int);
        }
        i = i + 1;
    }
    let mut j: usize = n;
    assert(trim_start(v@.subrange(i as int, n as int)) == v@.subrange(i as int, n as int));
    while j > i && white_space(v[j - 1])
        invariant
            n == v@.len(),
            i <= j <= n,
            trimmed(v@) == trim_end(v@.subrange(i as int, j as int)),
        decreases j - i,
    {
        proof {
            lemma_trim_end_skip(v@, i as int, j as int);
        }
        j = j - 1;
    }
    (i, j)
}

/// Does `v[from..to]`, folded to ASCII lower case, spell `target`?
pub fn lower_range_eq(v: &Vec<char>, from: usize, to: usize, target: &str) -> (b: bool)
    requires
        from <= to <= v@.len(),
    ensures
        b == (ascii_lowercase(v@.subrange(from as int, to as int)) == target@),
{
    let t = chars_of(target);
    let ghost seg = v@.subrange(from as int, to as int);
    if to - from != t.len() {
        assert(ascii_lowercase(seg).len() != target@.len());
        return false;
    }
    let mut k: usize = 0;
    while k < t.len()
        invariant
            from <= to <= v@.len(),
            to - from == t@.len(),
            t@ == target@,
            seg == v@.subrange(from as int, to as int),
            k <= t@.len(),
            forall|m: int| 0 <= m < k ==> ascii_lower(#[trigger] seg[m]) == t@[m],
        decreases t@.len() - k,
    {
        let c = v[from + k];
        let tk = t[k];
        let u: u32 = c as u32;
        let same: bool = if 65 <= u && u <= 90 {
            (tk as u32) == u + 32
        } else {
            c == tk
        };
        proof {
            lemma_fold_char(c, tk);
        }
        if !same {
            assert(ascii_lowercase(seg)[k as int] != target@[k as int]);
            return false;
        }
        k = k + 1;
    }
    assert(ascii_lowercase(seg) =~= target@);
    true
}

/// Does `s`, folded to ASCII lower case, spell `target`? (`s.to_ascii_lowercase() == target`.)
pub fn lower_eq(s: &str, target: &str) -> (b: bool)
    ensures
        b == (ascii_lowercase(s@) == target@),
{
    let v = chars_of(s);
    assert(v@.subrange(0, v@.len() as int) =~= v@);
    lower_range_eq(&v, 0, v.len(), target)
}

/// Does `s`, trimmed and folded to ASCII lower case, spell `target`?
/// (`s.trim().to_ascii_lowercase() == target`.)
pub fn trimmed_lower_eq(s: &str, target: &str) -> (b: bool)
    ensures
        b == (ascii_lowercase(trimmed(s@)) == target@),
{
    let v = chars_of(s);
    let (i, j) = trim_bounds(&v);
    lower_range_eq(&v, i, j, target)
}

/// Are the two strings the same chars?
pub fn str_eq(a: &str, b: &str) -> (r: bool)
    ensures
        r == (a@ == b@),
{
    let x = chars_of(a);
    let y = chars_of(b);
    if x.len() != y.len() {
        return false;
    }
    let mut k: usize = 0;
    while k < x.len()
        invariant
            x@ == a@,
            y@ == b@,
            x@.len() == y@.len(),
            k <= x@.len(),
            forall|m: int| 0 <= m < k ==> x@[m] == y@[m],
        decreases x@.len() - k,
    {
        if x[k] != y[k] {
            return false;
        }
        k = k + 1;
    }
    assert(x@ =~= y@);
    true
}

/// Is `s`, trimmed, the same chars as `target`? (`s.trim() == target`.)
pub fn trimmed_eq(s: &str, target: &str) -> (r: bool)
    ensures
        r == (trimmed(s@) == target@),
{
    let v = chars_of(s);
    let t = chars_of(target);
    let (i, j) = trim_bounds(&v);
    let ghost seg = v@.subrange(i as int, j as int);
    if j - i != t.len() {
        assert(seg.len() != target@.len());
        return false;
    }
    let mut k: usize = 0;
    while k < t.len()
        invariant
            i <= j <= v@.len(),
            j - i == t@.len(),
            t@ == target@,
            seg == v@.subrange(i as int, j as int),
            seg == trimmed(s@),
            k <= t@.len(),
            forall|m: int| 0 <= m < k ==> #[trigger] seg[m] == t@[m],
        decreases t@.len() - k,
    {
        if v[i + k] != t[k] {
            assert(seg[k as int] != target@[k as int]);
            return false;
        }
        k = k + 1;
    }
    assert(seg =~= target@);
    true
}

} // verus!
