//! Text over sequences of characters: the splitting, trimming and matching
//! that the command-output parsers of this crate are built from.
use vstd::prelude::*;

verus! {

// ---------------------------------------------------------------------------
// Specifications
// ---------------------------------------------------------------------------

/// The Unicode `White_Space` property, which is what `char::is_whitespace`
/// tests and what `str::trim` and `str::split_whitespace` split on.
pub open spec fn is_ws(c: char) -> bool {
    let u = c as u32;
    ||| 0x9 <= u && u <= 0xd
    ||| u == 0x20
    ||| u == 0x85
    ||| u == 0xa0
    ||| u == 0x1680
    ||| 0x2000 <= u && u <= 0x200a
    ||| u == 0x2028
    ||| u == 0x2029
    ||| u == 0x202f
    ||| u == 0x205f
    ||| u == 0x3000
}

/// Number of whitespace characters at the start of `s`.
pub open spec fn ws_prefix_len(s: Seq<char>) -> nat
    decreases s.len(),
{
    if s.len() > 0 && is_ws(s[0]) {
        1 + ws_prefix_len(s.drop_first())
    } else {
        0
    }
}

/// Number of whitespace characters at the end of `s`.
pub open spec fn ws_suffix_len(s: Seq<char>) -> nat
    decreases s.len(),
{
    if s.len() > 0 && is_ws(s.last()) {
        1 + ws_suffix_len(s.drop_last())
    } else {
        0
    }
}

/// Number of non-whitespace characters at the start of `s`.
pub open spec fn word_len(s: Seq<char>) -> nat
    decreases s.len(),
{
    if s.len() > 0 && !is_ws(s[0]) {
        1 + word_len(s.drop_first())
    } else {
        0
    }
}

/// `s` without leading whitespace (`str::trim_start`).
pub open spec fn trim_start(s: Seq<char>) -> Seq<char> {
    s.skip(ws_prefix_len(s) as int)
}

/// `s` without trailing whitespace (`str::trim_end`).
pub open spec fn trim_end(s: Seq<char>) -> Seq<char> {
    s.take(s.len() - ws_suffix_len(s))
}

/// `s` without leading and trailing whitespace (`str::trim`).
pub open spec fn trim(s: Seq<char>) -> Seq<char> {
    trim_end(trim_start(s))
}

/// Index of the first occurrence of `c` in `s`, or `s.len()` when there is none.
pub open spec fn index_of(s: Seq<char>, c: char) -> nat
    decreases s.len(),
{
    if s.len() == 0 {
        0
    } else if s[0] == c {
        0
    } else {
        1 + index_of(s.drop_first(), c)
    }
}

/// `s` with one `'\r'` removed from its end, if it ends with one.
pub open spec fn strip_cr(s: Seq<char>) -> Seq<char> {
    if s.len() > 0 && s.last() == '\r' {
        s.drop_last()
    } else {
        s
    }
}

/// The lines of `s` as `str::lines` yields them: split after each `'\n'`,
/// the `'\n'` (and a `'\r'` right before it) removed; a last line without a
/// terminator is kept as it is, and no empty line follows a final `'\n'`.
pub open spec fn lines_of(s: Seq<char>) -> Seq<Seq<char>>
    decreases s.len(),
{
    if s.len() == 0 {
        seq![]
    } else {
        let i = index_of(s, '\n');
        if i < s.len() {
            seq![strip_cr(s.take(i as int))] + lines_of(s.skip(i + 1int))
        } else {
            seq![s]
        }
    }
}

/// The whitespace-separated words of `s`, as `str::split_whitespace` yields them.
pub open spec fn words(s: Seq<char>) -> Seq<Seq<char>>
    decreases s.len(),
{
    if s.len() == 0 {
        seq![]
    } else if is_ws(s[0]) {
        words(s.drop_first())
    } else {
        let k = word_len(s);
        if 0 < k <= s.len() {
            seq![s.take(k as int)] + words(s.skip(k as int))
        } else {
            seq![]
        }
    }
}

/// The pieces that `str::splitn(n, c)` yields: at most `n` pieces (none for
/// `n == 0`), the last one holding the rest of `s`, separators included.
pub open spec fn splitn_seq(s: Seq<char>, c: char, n: nat) -> Seq<Seq<char>>
    decreases n,
{
    if n == 0 {
        seq![]
    } else if n == 1 {
        seq![s]
    } else {
        let i = index_of(s, c);
        if i < s.len() {
            seq![s.take(i as int)] + splitn_seq(s.skip(i + 1int), c, (n - 1) as nat)
        } else {
            seq![s]
        }
    }
}

/// The `k`-th element of `parts`, or the empty sequence past its end
/// (the `next().unwrap_or("")` idiom).
pub open spec fn part_or_empty(parts: Seq<Seq<char>>, k: int) -> Seq<char> {
    if 0 <= k < parts.len() {
        parts[k]
    } else {
        Seq::<char>::empty()
    }
}

/// `s` begins with `p`.
pub open spec fn has_prefix(s: Seq<char>, p: Seq<char>) -> bool {
    p.len() <= s.len() && s.take(p.len() as int) == p
}

/// `s` ends with `p`.
pub open spec fn has_suffix(s: Seq<char>, p: Seq<char>) -> bool {
    p.len() <= s.len() && s.skip(s.len() - p.len()) == p
}

/// `p` occurs in `s` as a contiguous run.
pub open spec fn has_infix(s: Seq<char>, p: Seq<char>) -> bool {
    exists|i: int| 0 <= i && i + p.len() <= s.len() && #[trigger] s.subrange(i, i + p.len()) == p
}

/// The digit character for `d` (0 to 9).
pub open spec fn digit_char(d: nat) -> char {
    ((d + 48) as u32) as char
}

/// The decimal numeral of `n`, without leading zeros (`n.to_string()`).
pub open spec fn decimal(n: nat) -> Seq<char>
    decreases n,
{
    if n < 10 {
        seq![digit_char(n)]
    } else {
        decimal(n / 10).push(digit_char(n % 10))
    }
}

/// The number of bytes of `c` in UTF-8.
pub open spec fn utf8_len(c: char) -> nat {
    let u = c as u32;
    if u < 0x80 {
        1
    } else if u < 0x800 {
        2
    } else if u < 0x10000 {
        3
    } else {
        4
    }
}

/// How many leading characters of `s` fit, whole, in `budget` bytes of UTF-8.
pub open spec fn chars_within(s: Seq<char>, budget: nat) -> nat
    decreases s.len(),
{
    if s.len() == 0 || utf8_len(s[0]) > budget {
        0
    } else {
        1 + chars_within(s.drop_first(), (budget - utf8_len(s[0])) as nat)
    }
}

// ---------------------------------------------------------------------------
// Lemmas relating the recursive definitions to indices
// ---------------------------------------------------------------------------

pub proof fn lemma_ws_prefix_len(s: Seq<char>, a: int)
    requires
        0 <= a <= s.len(),
        forall|k: int| 0 <= k < a ==> is_ws(#[trigger] s[k]),
        a == s.len() || !is_ws(s[a]),
    ensures
        ws_prefix_len(s) == a,
    decreases a,
{
    if a > 0 {
        assert(is_ws(s[0]));
        let t = s.drop_first();
        assert forall|k: int| 0 <= k < a - 1 implies is_ws(#[trigger] t[k]) by {
            assert(t[k] == s[k + 1]);
        }
        if a - 1 < t.len() {
            assert(t[a - 1] == s[a]);
        }
        lemma_ws_prefix_len(t, a - 1);
    }
}

pub proof fn lemma_ws_suffix_len(s: Seq<char>, b: int)
    requires
        0 <= b <= s.len(),
        forall|k: int| s.len() - b <= k < s.len() ==> is_ws(#[trigger] s[k]),
        b == s.len() || !is_ws(s[s.len() - b - 1]),
    ensures
        ws_suffix_len(s) == b,
    decreases b,
{
    if b > 0 {
        assert(is_ws(s[s.len() - 1]));
        let t = s.drop_last();
        assert forall|k: int| t.len() - (b - 1) <= k < t.len() implies is_ws(#[trigger] t[k]) by {
            assert(t[k] == s[k]);
        }
        if b - 1 < t.len() {
            assert(t[t.len() - (b - 1) - 1] == s[s.len() - b - 1]);
        }
        lemma_ws_suffix_len(t, b - 1);
    }
}

pub proof fn lemma_word_len(s: Seq<char>, a: int)
    requires
        0 <= a <= s.len(),
        forall|k: int| 0 <= k < a ==> !is_ws(#[trigger] s[k]),
        a == s.len() || is_ws(s[a]),
    ensures
        word_len(s) == a,
    decreases a,
{
    if a > 0 {
        let t = s.drop_first();
        assert(!is_ws(s[0]));
        assert forall|k: int| 0 <= k < a - 1 implies !is_ws(#[trigger] t[k]) by {
            assert(t[k] == s[k + 1]);
        }
        if a - 1 < t.len() {
            assert(t[a - 1] == s[a]);
        }
        lemma_word_len(t, a - 1);
    }
}

pub proof fn lemma_index_of(s: Seq<char>, c: char, j: int)
    requires
        0 <= j <= s.len(),
        forall|k: int| 0 <= k < j ==> #[trigger] s[k] != c,
        j == s.len() || s[j] == c,
    ensures
        index_of(s, c) == j,
    decreases j,
{
    if j > 0 {
        let t = s.drop_first();
        assert(s[0] != c);
        assert forall|k: int| 0 <= k < j - 1 implies #[trigger] t[k] != c by {
            assert(t[k] == s[k + 1]);
        }
        if j - 1 < t.len() {
            assert(t[j - 1] == s[j]);
        }
        lemma_index_of(t, c, j - 1);
    }
}

/// Unfolds `lines_of` on the suffix of `s` that starts at `start`, given the
/// index `j` of the first `'\n'` at or after `start`.
pub proof fn lemma_lines_step(s: Seq<char>, start: int, j: int)
    requires
        0 <= start < s.len(),
        start <= j < s.len(),
        s[j] == '\n',
        forall|k: int| start <= k < j ==> #[trigger] s[k] != '\n',
    ensures
        lines_of(s.skip(start)) == seq![strip_cr(s.subrange(start, j))] + lines_of(s.skip(j + 1)),
{
    let t = s.skip(start);
    assert forall|k: int| 0 <= k < j - start implies #[trigger] t[k] != '\n' by {
        assert(t[k] == s[start + k]);
    }
    assert(t[j - start] == s[j]);
    lemma_index_of(t, '\n', j - start);
    assert(t.take(j - start) =~= s.subrange(start, j));
    assert(t.skip(j - start + 1) =~= s.skip(j + 1));
}

/// `lines_of` on a suffix without any `'\n'` is that suffix alone.
pub proof fn lemma_lines_last(s: Seq<char>, start: int)
    requires
        0 <= start < s.len(),
        forall|k: int| start <= k < s.len() ==> #[trigger] s[k] != '\n',
    ensures
        lines_of(s.skip(start)) == seq![s.skip(start)],
{
    let t = s.skip(start);
    assert forall|k: int| 0 <= k < t.len() implies #[trigger] t[k] != '\n' by {
        assert(t[k] == s[start + k]);
    }
    lemma_index_of(t, '\n', t.len() as int);
}

// ---------------------------------------------------------------------------
// Executable text functions
// ---------------------------------------------------------------------------

/// `String::push`: appends one character to the end of the string.
#[verifier::external_body]
fn push_char(s: &mut String, c: char)
    ensures
        final(s)@ == old(s)@.push(c),
{
    s.push(c);
}

/// The characters of `s`, in order.
pub fn chars_of(s: &str) -> (v: Vec<char>)
    ensures
        v@ == s@,
{
    let mut v: Vec<char> = Vec::new();
    for c in it: s.chars()
        invariant
            it.seq() == s@,
            v@ == s@.take(it.index() as int),
    {
        v.push(c);
        assert(v@ =~= s@.take(it.index() + 1));
    }
    assert(s@.take(s@.len() as int) =~= s@);
    v
}

/// A string holding exactly the characters of `v`.
pub fn string_of(v: &[char]) -> (s: String)
    ensures
        s@ == v@,
{
    let mut s = String::new();
    let mut i: usize = 0;
    while i < v.len()
        invariant
            i <= v.len(),
            s@ == v@.subrange(0, i as int),
        decreases v.len() - i,
    {
        push_char(&mut s, v[i]);
        i = i + 1;
        assert(s@ =~= v@.subrange(0, i as int));
    }
    assert(v@.subrange(0, v@.len() as int) =~= v@);
    s
}

/// A string holding the characters of `v` from `a` up to `b`.
pub fn string_of_range(v: &[char], a: usize, b: usize) -> (s: String)
    requires
        a <= b <= v@.len(),
    ensures
        s@ == v@.subrange(a as int, b as int),
{
    let mut s = String::new();
    let mut i: usize = a;
    while i < b
        invariant
            a <= i <= b,
            b <= v@.len(),
            s@ == v@.subrange(a as int, i as int),
        decreases b - i,
    {
        push_char(&mut s, v[i]);
        i = i + 1;
        assert(s@ =~= v@.subrange(a as int, i as int));
    }
    s
}

/// An owned copy of `s`.
pub fn owned(s: &str) -> (r: String)
    ensures
        r@ == s@,
{
    s.to_owned()
}

/// The concatenation of `a` and `b`.
pub fn join2(a: &str, b: &str) -> (r: String)
    ensures
        r@ == a@ + b@,
{
    let mut r = a.to_owned();
    r.append(b);
    r
}

/// The concatenation of `a`, `b` and `c`.
pub fn join3(a: &str, b: &str, c: &str) -> (r: String)
    ensures
        r@ == a@ + b@ + c@,
{
    let mut r = a.to_owned();
    r.append(b);
    r.append(c);
    r
}

/// The number of bytes of `c` in UTF-8 (`char::len_utf8`).
pub fn utf8_len_of(c: char) -> (n: usize)
    ensures
        n == utf8_len(c),
{
    let u = c as u32;
    if u < 0x80 {
        1
    } else if u < 0x800 {
        2
    } else if u < 0x10000 {
        3
    } else {
        4
    }
}

/// The longest prefix of `s` whose UTF-8 encoding takes at most `budget` bytes.
pub fn prefix_within(s: &str, budget: usize) -> (r: String)
    ensures
        r@ == s@.take(chars_within(s@, budget as nat) as int),
{
    let v = chars_of(s);
    let mut left: usize = budget;
    let mut i: usize = 0;
    assert(v@.skip(0) =~= v@);
    while i < v.len() && utf8_len_of(v[i]) <= left
        invariant
            i <= v@.len(),
            v@ == s@,
            left <= budget,
            chars_within(v@, budget as nat) == i + chars_within(v@.skip(i as int), left as nat),
        decreases v.len() - i,
    {
        let n = utf8_len_of(v[i]);
        proof {
            let t = v@.skip(i as int);
            assert(t[0] == v@[i as int]);
            assert(t.drop_first() =~= v@.skip(i + 1));
        }
        left = left - n;
        i = i + 1;
    }
    proof {
        let t = v@.skip(i as int);
        if i < v@.len() {
            assert(t[0] == v@[i as int]);
        } else {
            assert(t.len() == 0);
        }
    }
    let r = string_of_range(v.as_slice(), 0, i);
    assert(r@ =~= s@.take(i as int));
    r
}

/// Whether `c` is whitespace (`char::is_whitespace`).
pub fn is_whitespace(c: char) -> (b: bool)
    ensures
        b == is_ws(c),
{
    let u = c as u32;
    (0x9 <= u && u <= 0xd) || u == 0x20 || u == 0x85 || u == 0xa0 || u == 0x1680
        || (0x2000 <= u && u <= 0x200a) || u == 0x2028 || u == 0x2029 || u == 0x202f
        || u == 0x205f || u == 0x3000
}

/// Whether the two character sequences are equal.
pub fn chars_eq(a: &[char], b: &[char]) -> (r: bool)
    ensures
        r == (a@ == b@),
{
    if a.len() != b.len() {
        return false;
    }
    let mut i: usize = 0;
    while i < a.len()
        invariant
            a@.len() == b@.len(),
            i <= a@.len(),
            forall|k: int| 0 <= k < i ==> a@[k] == b@[k],
        decreases a.len() - i,
    {
        if a[i] != b[i] {
            return false;
        }
        i = i + 1;
    }
    assert(a@ =~= b@);
    true
}

/// Whether the two strings are equal.
pub fn str_eq(a: &str, b: &str) -> (r: bool)
    ensures
        r == (a@ == b@),
{
    let va = chars_of(a);
    let vb = chars_of(b);
    chars_eq(va.as_slice(), vb.as_slice())
}

/// Whether `s` begins with `p`.
pub fn starts_with(s: &str, p: &str) -> (r: bool)
    ensures
        r == has_prefix(s@, p@),
{
    let vs = chars_of(s);
    let vp = chars_of(p);
    if vp.len() > vs.len() {
        return false;
    }
    let mut i: usize = 0;
    while i < vp.len()
        invariant
            vs@ == s@,
            vp@ == p@,
            vp@.len() <= vs@.len(),
            i <= vp@.len(),
            forall|k: int| 0 <= k < i ==> vs@[k] == vp@[k],
        decreases vp.len() - i,
    {
        if vs[i] != vp[i] {
            assert(vs@.take(vp@.len() as int)[i as int] != vp@[i as int]);
            return false;
        }
        i = i + 1;
    }
    assert(vs@.take(vp@.len() as int) =~= vp@);
    true
}

/// Whether `s` ends with `p`.
pub fn ends_with(s: &str, p: &str) -> (r: bool)
    ensures
        r == has_suffix(s@, p@),
{
    let vs = chars_of(s);
    let vp = chars_of(p);
    if vp.len() > vs.len() {
        return false;
    }
    let n = vs.len();
    let off = n - vp.len();
    let mut i: usize = 0;
    while i < vp.len()
        invariant
            vs@ == s@,
            vp@ == p@,
            vp@.len() <= vs@.len(),
            off + vp@.len() == vs@.len(),
            n == vs@.len(),
            i <= vp@.len(),
            forall|k: int| 0 <= k < i ==> vs@[off + k] == vp@[k],
        decreases vp.len() - i,
    {
        assert(off + i < vs@.len());
        if vs[off + i] != vp[i] {
            assert(vs@.skip(off as int)[i as int] != vp@[i as int]);
            return false;
        }
        i = i + 1;
    }
    assert(vs@.skip(off as int) =~= vp@);
    true
}

/// The part of `s` after the prefix `p`, if `s` begins with `p` (`str::strip_prefix`).
pub fn strip_prefix(s: &str, p: &str) -> (r: Option<String>)
    ensures
        r is Some <==> has_prefix(s@, p@),
        r matches Some(rest) ==> rest@ == s@.skip(p@.len() as int),
{
    if starts_with(s, p) {
        let vs = chars_of(s);
        let vp = chars_of(p);
        let rest = string_of_range(vs.as_slice(), vp.len(), vs.len());
        Some(rest)
    } else {
        None
    }
}

/// Whether `p` occurs in `s`.
pub fn contains_str(s: &str, p: &str) -> (r: bool)
    ensures
        r == has_infix(s@, p@),
{
    let vs = chars_of(s);
    let vp = chars_of(p);
    if vp.len() > vs.len() {
        return false;
    }
    let n = vs.len();
    let last = n - vp.len();
    let mut i: usize = 0;
    loop
        invariant
            vs@ == s@,
            vp@ == p@,
            vp@.len() <= vs@.len(),
            last + vp@.len() == vs@.len(),
            n == vs@.len(),
            i <= last,
            forall|j: int| 0 <= j < i ==> #[trigger] vs@.subrange(j, j + vp@.len()) != vp@,
        ensures
            forall|j: int| 0 <= j <= last ==> #[trigger] vs@.subrange(j, j + vp@.len()) != vp@,
        decreases last - i,
    {
        let mut k: usize = 0;
        let mut same = true;
        while k < vp.len()
            invariant
                vp@.len() <= vs@.len(),
                i <= last,
                last + vp@.len() == vs@.len(),
                n == vs@.len(),
                k <= vp@.len(),
                same ==> forall|m: int| 0 <= m < k ==> vs@[i + m] == vp@[m],
                !same ==> vs@.subrange(i as int, i + vp@.len()) != vp@,
            decreases vp.len() - k,
        {
            assert(i + k < vs@.len());
            if vs[i + k] != vp[k] {
                assert(vs@.subrange(i as int, i + vp@.len())[k as int] != vp@[k as int]);
                same = false;
            }
            k = k + 1;
        }
        if same {
            assert(vs@.subrange(i as int, i + vp@.len()) =~= vp@);
            return true;
        }
        if i == last {
            break;
        }
        i = i + 1;
    }
    assert forall|j: int| 0 <= j && j + vp@.len() <= vs@.len() implies #[trigger] vs@.subrange(
        j,
        j + vp@.len(),
    ) != vp@ by {}
    false
}

/// The index of the first whitespace character at or after `start`
/// (or the length of `v` if there is none).
fn skip_word(v: &[char], start: usize) -> (e: usize)
    requires
        start <= v@.len(),
    ensures
        start <= e <= v@.len(),
        forall|k: int| start <= k < e ==> !is_ws(#[trigger] v@[k]),
        e == v@.len() || is_ws(v@[e as int]),
{
    let mut e = start;
    while e < v.len() && !is_whitespace(v[e])
        invariant
            start <= e <= v@.len(),
            forall|k: int| start <= k < e ==> !is_ws(#[trigger] v@[k]),
        decreases v.len() - e,
    {
        e = e + 1;
    }
    e
}

/// The index of the first non-whitespace character at or after `start`
/// (or the length of `v` if there is none).
fn skip_ws(v: &[char], start: usize) -> (e: usize)
    requires
        start <= v@.len(),
    ensures
        start <= e <= v@.len(),
        forall|k: int| start <= k < e ==> is_ws(#[trigger] v@[k]),
        e == v@.len() || !is_ws(v@[e as int]),
{
    let mut e = start;
    while e < v.len() && is_whitespace(v[e])
        invariant
            start <= e <= v@.len(),
            forall|k: int| start <= k < e ==> is_ws(#[trigger] v@[k]),
        decreases v.len() - e,
    {
        e = e + 1;
    }
    e
}

/// The index of the first `c` at or after `start` (or the length of `v`).
pub fn find_char(v: &[char], start: usize, c: char) -> (e: usize)
    requires
        start <= v@.len(),
    ensures
        start <= e <= v@.len(),
        forall|k: int| start <= k < e ==> #[trigger] v@[k] != c,
        e == v@.len() || v@[e as int] == c,
{
    let mut e = start;
    while e < v.len() && v[e] != c
        invariant
            start <= e <= v@.len(),
            forall|k: int| start <= k < e ==> #[trigger] v@[k] != c,
        decreases v.len() - e,
    {
        e = e + 1;
    }
    e
}

/// `s` without leading and trailing whitespace (`str::trim`).
pub fn trim_str(s: &str) -> (r: String)
    ensures
        r@ == trim(s@),
{
    let v = chars_of(s);
    let a = skip_ws(v.as_slice(), 0);
    proof {
        lemma_ws_prefix_len(v@, a as int);
    }
    let mut b = v.len();
    while b > a && is_whitespace(v[b - 1])
        invariant
            a <= b <= v@.len(),
            forall|k: int| b <= k < v@.len() ==> is_ws(#[trigger] v@[k]),
        decreases b,
    {
        b = b - 1;
    }
    proof {
        let t = v@.skip(a as int);
        assert(t.len() == v@.len() - a);
        assert forall|k: int| t.len() - (v@.len() - b) <= k < t.len() implies is_ws(
            #[trigger] t[k],
        ) by {
            assert(t[k] == v@[a + k]);
        }
        if b > a {
            assert(t[t.len() - (v@.len() - b) - 1] == v@[b - 1]);
        }
        lemma_ws_suffix_len(t, (v@.len() - b) as int);
        assert(t.take(t.len() - ws_suffix_len(t)) =~= v@.subrange(a as int, b as int));
    }
    string_of_range(v.as_slice(), a, b)
}

/// `s` without trailing whitespace (`str::trim_end`).
pub fn trim_end_str(s: &str) -> (r: String)
    ensures
        r@ == trim_end(s@),
{
    let v = chars_of(s);
    let mut b = v.len();
    while b > 0 && is_whitespace(v[b - 1])
        invariant
            b <= v@.len(),
            forall|k: int| b <= k < v@.len() ==> is_ws(#[trigger] v@[k]),
        decreases b,
    {
        b = b - 1;
    }
    proof {
        lemma_ws_suffix_len(v@, (v@.len() - b) as int);
        assert(v@.take(b as int) =~= v@.subrange(0, b as int));
    }
    string_of_range(v.as_slice(), 0, b)
}

/// The lines of `s` (`str::lines`).
pub fn lines(s: &str) -> (r: Vec<String>)
    ensures
        r@.map_values(|x: String| x@) == lines_of(s@),
{
    let v = chars_of(s);
    let mut r: Vec<String> = Vec::new();
    let mut i: usize = 0;
    assert(v@.skip(0) =~= v@);
    while i < v.len()
        invariant
            i <= v@.len(),
            v@ == s@,
            r@.map_values(|x: String| x@) + lines_of(v@.skip(i as int)) == lines_of(v@),
        decreases v.len() - i,
    {
        let j = find_char(v.as_slice(), i, '\n');
        let ghost before = r@.map_values(|x: String| x@);
        if j < v.len() {
            proof {
                lemma_lines_step(v@, i as int, j as int);
            }
            let mut e = j;
            if e > i && v[e - 1] == '\r' {
                e = e - 1;
            }
            let line = string_of_range(v.as_slice(), i, e);
            assert(line@ == strip_cr(v@.subrange(i as int, j as int))) by {
                if j > i && v@[j - 1] == '\r' {
                    assert(v@.subrange(i as int, j as int).drop_last() =~= v@.subrange(
                        i as int,
                        e as int,
                    ));
                }
            }
            r.push(line);
            assert(r@.map_values(|x: String| x@) =~= before.push(line@));
            assert(before.push(line@) + lines_of(v@.skip(j + 1)) =~= before + (seq![
                strip_cr(v@.subrange(i as int, j as int)),
            ] + lines_of(v@.skip(j + 1))));
            i = j + 1;
        } else {
            proof {
                lemma_lines_last(v@, i as int);
            }
            let line = string_of_range(v.as_slice(), i, v.len());
            assert(line@ =~= v@.skip(i as int));
            r.push(line);
            assert(r@.map_values(|x: String| x@) =~= before.push(line@));
            assert(v@.skip(v@.len() as int) =~= Seq::<char>::empty());
            assert(lines_of(v@.skip(v@.len() as int)) =~= Seq::<Seq<char>>::empty());
            i = v.len();
            assert(before.push(line@) + lines_of(v@.skip(i as int)) =~= before + seq![line@]);
        }
    }
    assert(v@.skip(i as int) =~= Seq::<char>::empty());
    assert(r@.map_values(|x: String| x@) =~= r@.map_values(|x: String| x@) + lines_of(
        v@.skip(i as int),
    ));
    r
}

/// The whitespace-separated words of `s` (`str::split_whitespace`).
pub fn split_whitespace(s: &str) -> (r: Vec<String>)
    ensures
        r@.map_values(|x: String| x@) == words(s@),
{
    let v = chars_of(s);
    let mut r: Vec<String> = Vec::new();
    let mut i: usize = 0;
    assert(v@.skip(0) =~= v@);
    while i < v.len()
        invariant
            i <= v@.len(),
            v@ == s@,
            r@.map_values(|x: String| x@) + words(v@.skip(i as int)) == words(v@),
        decreases v.len() - i,
    {
        let ghost before = r@.map_values(|x: String| x@);
        if is_whitespace(v[i]) {
            assert(v@.skip(i as int).drop_first() =~= v@.skip(i + 1));
            i = i + 1;
        } else {
            let e = skip_word(v.as_slice(), i);
            let ghost t = v@.skip(i as int);
            proof {
                assert forall|k: int| 0 <= k < e - i implies !is_ws(#[trigger] t[k]) by {
                    assert(t[k] == v@[i + k]);
                }
                if e < v@.len() {
                    assert(t[e - i] == v@[e as int]);
                }
                lemma_word_len(t, e - i);
                assert(t.take(e - i) =~= v@.subrange(i as int, e as int));
                assert(t.skip(e - i) =~= v@.skip(e as int));
            }
            let w = string_of_range(v.as_slice(), i, e);
            r.push(w);
            assert(r@.map_values(|x: String| x@) =~= before.push(w@));
            assert(before.push(w@) + words(v@.skip(e as int)) =~= before + (seq![w@] + words(
                v@.skip(e as int),
            )));
            i = e;
        }
    }
    assert(v@.skip(i as int) =~= Seq::<char>::empty());
    assert(r@.map_values(|x: String| x@) =~= r@.map_values(|x: String| x@) + words(
        v@.skip(i as int),
    ));
    r
}

/// The pieces of `s` split at `c`, at most `n` of them (`str::splitn`).
pub fn splitn(s: &str, n: usize, c: char) -> (r: Vec<String>)
    ensures
        r@.map_values(|x: String| x@) == splitn_seq(s@, c, n as nat),
{
    let mut r: Vec<String> = Vec::new();
    if n == 0 {
        assert(r@.map_values(|x: String| x@) =~= Seq::<Seq<char>>::empty());
        return r;
    }
    let v = chars_of(s);
    let mut i: usize = 0;
    let mut left: usize = n;
    assert(v@.skip(0) =~= v@);
    loop
        invariant
            i <= v@.len(),
            v@ == s@,
            1 <= left <= n,
            r@.map_values(|x: String| x@) + splitn_seq(v@.skip(i as int), c, left as nat)
                == splitn_seq(v@, c, n as nat),
        decreases left,
    {
        let ghost before = r@.map_values(|x: String| x@);
        let ghost t = v@.skip(i as int);
        let j = find_char(v.as_slice(), i, c);
        proof {
            assert forall|k: int| 0 <= k < j - i implies #[trigger] t[k] != c by {
                assert(t[k] == v@[i + k]);
            }
            if j < v@.len() {
                assert(t[j - i] == v@[j as int]);
            }
            lemma_index_of(t, c, j - i);
        }
        if left == 1 || j == v.len() {
            let w = string_of_range(v.as_slice(), i, v.len());
            assert(w@ =~= t);
            r.push(w);
            assert(r@.map_values(|x: String| x@) =~= before + seq![w@]);
            return r;
        }
        let w = string_of_range(v.as_slice(), i, j);
        assert(w@ =~= t.take(j - i));
        assert(t.skip(j - i + 1) =~= v@.skip(j + 1));
        r.push(w);
        assert(r@.map_values(|x: String| x@) =~= before.push(w@));
        assert(before.push(w@) + splitn_seq(v@.skip(j + 1), c, (left - 1) as nat) =~= before + (
        seq![w@] + splitn_seq(v@.skip(j + 1), c, (left - 1) as nat)));
        i = j + 1;
        left = left - 1;
    }
}

/// The decimal numeral of `n` (`usize::to_string`).
pub fn decimal_string(n: usize) -> (r: String)
    ensures
        r@ == decimal(n as nat),
{
    // Digits from the least significant one.
    let mut rev: Vec<char> = Vec::new();
    let mut m: usize = n;
    loop
        invariant
            m <= n,
            decimal(n as nat) == decimal(m as nat) + rev@.reverse(),
        decreases m,
    {
        let d = m % 10;
        let c = char_of_digit(d);
        if m < 10 {
            assert(decimal(m as nat) == seq![c]);
            let mut out: Vec<char> = Vec::new();
            out.push(c);
            let mut i: usize = rev.len();
            while i > 0
                invariant
                    i <= rev@.len(),
                    out@ == seq![c] + rev@.reverse().take((rev@.len() - i) as int),
                decreases i,
            {
                i = i - 1;
                let ghost before = out@;
                out.push(rev[i]);
                assert(rev@.reverse()[(rev@.len() - i - 1) as int] == rev@[i as int]);
                assert(out@ =~= seq![c] + rev@.reverse().take((rev@.len() - i) as int));
            }
            assert(rev@.reverse().take(rev@.len() as int) =~= rev@.reverse());
            return string_of(out.as_slice());
        }
        let ghost before = rev@;
        rev.push(c);
        assert(rev@.reverse() =~= seq![c] + before.reverse());
        assert(decimal(m as nat) == decimal((m / 10) as nat).push(c));
        assert(decimal((m / 10) as nat).push(c) + before.reverse() =~= decimal((m / 10) as nat) + (
        seq![c] + before.reverse()));
        m = m / 10;
    }
}

fn char_of_digit(d: usize) -> (c: char)
    requires
        d < 10,
    ensures
        c == digit_char(d as nat),
{
    if d == 0 { '0' } else if d == 1 { '1' } else if d == 2 { '2' } else if d == 3 { '3' } else if d == 4 { '4' }
    else if d == 5 { '5' } else if d == 6 { '6' } else if d == 7 { '7' } else if d == 8 { '8' } else { '9' }
}

} // verus!
