//! Character-level string helpers shared by the rest of the library.
//!
//! Case mapping is a Unicode table that std owns; it is reached through
//! the small trusted items below. The whitespace class is short enough to
//! be written out here. Trimming, searching and comparing are verified here.
use vstd::prelude::*;

verus! {

// ----------------------------------------------------------------------
// Names for what std computes from Unicode tables
// ----------------------------------------------------------------------

/// What `str::to_lowercase` returns for a string with these characters.
pub uninterp spec fn lowercase(s: Seq<char>) -> Seq<char>;

/// What `str::to_uppercase` returns for a string with these characters.
pub uninterp spec fn uppercase(s: Seq<char>) -> Seq<char>;

/// Whether `c` has the Unicode White_Space property, which is what
/// `char::is_whitespace` tests: the 25 code points U+0009..U+000D, U+0020,
/// U+0085, U+00A0, U+1680, U+2000..U+200A, U+2028, U+2029, U+202F, U+205F
/// and U+3000.
pub open spec fn is_white(c: char) -> bool {
    let u = c as u32;
    ||| 0x9 <= u <= 0xd
    ||| u == 0x20 || u == 0x85 || u == 0xa0 || u == 0x1680
    ||| 0x2000 <= u <= 0x200a
    ||| u == 0x2028 || u == 0x2029 || u == 0x202f || u == 0x205f || u == 0x3000
}

// ----------------------------------------------------------------------
// Specifications
// ----------------------------------------------------------------------

/// `s` without its leading whitespace.
pub open spec fn trim_start_seq(s: Seq<char>) -> Seq<char>
    decreases s.len(),
{
    if s.len() > 0 && is_white(s[0]) {
        trim_start_seq(s.drop_first())
    } else {
        s
    }
}

/// `s` without its trailing whitespace.
pub open spec fn trim_end_seq(s: Seq<char>) -> Seq<char>
    decreases s.len(),
{
    if s.len() > 0 && is_white(s.last()) {
        trim_end_seq(s.drop_last())
    } else {
        s
    }
}

/// `s` without leading and trailing whitespace (what `str::trim` returns).
pub open spec fn trim_seq(s: Seq<char>) -> Seq<char> {
    trim_end_seq(trim_start_seq(s))
}

/// `needle` occurs in `hay` at position `i`.
pub open spec fn occurs_at(hay: Seq<char>, needle: Seq<char>, i: int) -> bool {
    &&& 0 <= i
    &&& i + needle.len() <= hay.len()
    &&& hay.subrange(i, i + needle.len()) == needle
}

/// `needle` occurs somewhere in `hay` (what `str::contains` tests).
pub open spec fn contains_seq(hay: Seq<char>, needle: Seq<char>) -> bool {
    exists|i: int| occurs_at(hay, needle, i)
}

/// `hay` begins with `prefix`.
pub open spec fn starts_with_seq(hay: Seq<char>, prefix: Seq<char>) -> bool {
    occurs_at(hay, prefix, 0)
}

/// `hay` ends with `suffix`.
pub open spec fn ends_with_seq(hay: Seq<char>, suffix: Seq<char>) -> bool {
    occurs_at(hay, suffix, hay.len() - suffix.len())
}

/// What `str::len` returns for a string with these characters: the
/// length of its UTF-8 encoding.
pub open spec fn byte_len(s: Seq<char>) -> usize {
    vstd::utf8::encode_utf8(s).len() as usize
}

/// Normalised form of a key name: trimmed, then upper-cased.
pub open spec fn normalized(s: Seq<char>) -> Seq<char> {
    uppercase(trim_seq(s))
}

// ----------------------------------------------------------------------
// Lemmas
// ----------------------------------------------------------------------

proof fn lemma_trim_start_skip(s: Seq<char>, i: int)
    requires
        0 <= i <= s.len(),
        forall|k: int| 0 <= k < i ==> is_white(#[trigger] s[k]),
    ensures
        trim_start_seq(s) == trim_start_seq(s.subrange(i, s.len() as int)),
    decreases i,
{
    if i > 0 {
        lemma_trim_start_skip(s, i - 1);
        let t = s.subrange(i - 1, s.len() as int);
        assert(t[0] == s[i - 1]);
        assert(t.drop_first() =~= s.subrange(i, s.len() as int));
    } else {
        assert(s.subrange(0, s.len() as int) =~= s);
    }
}

proof fn lemma_trim_end_skip(s: Seq<char>, j: int)
    requires
        0 <= j <= s.len(),
        forall|k: int| j <= k < s.len() ==> is_white(#[trigger] s[k]),
    ensures
        trim_end_seq(s) == trim_end_seq(s.subrange(0, j)),
    decreases s.len() - j,
{
    if j < s.len() {
        lemma_trim_end_skip(s, j + 1);
        let t = s.subrange(0, j + 1);
        assert(t.last() == s[j]);
        assert(t.drop_last() =~= s.subrange(0, j));
    } else {
        assert(s.subrange(0, j) =~= s);
    }
}

// ----------------------------------------------------------------------
// Trusted items: std's Unicode tables
// ----------------------------------------------------------------------

/// Calls `str::to_lowercase`; its result is named `lowercase`.
#[verifier::external_body]
pub(crate) fn to_lower(s: &str) -> (r: String)
    ensures
        r@ == lowercase(s@),
{
    s.to_lowercase()
}

/// Calls `str::to_uppercase`; its result is named `uppercase`.
#[verifier::external_body]
pub(crate) fn to_upper(s: &str) -> (r: String)
    ensures
        r@ == uppercase(s@),
{
    s.to_uppercase()
}

/// Whether `c` is whitespace in the sense of `char::is_whitespace`.
pub fn is_whitespace(c: char) -> (b: bool)
    ensures
        b == is_white(c),
{
    let u = c as u32;
    (0x9 <= u && u <= 0xd) || u == 0x20 || u == 0x85 || u == 0xa0 || u == 0x1680
        || (0x2000 <= u && u <= 0x200a) || u == 0x2028 || u == 0x2029 || u == 0x202f || u == 0x205f
        || u == 0x3000
}

// ----------------------------------------------------------------------
// Verified helpers
// ----------------------------------------------------------------------

/// The characters of `s`, in order.
pub fn chars_of(s: &str) -> (v: Vec<char>)
    ensures
        v@ == s@,
{
    let mut v: Vec<char> = Vec::new();
    for c in it: s.chars()
        invariant
            v@ == it.seq().take(it.index() as int),
            it.seq() == s@,
    {
        v.push(c);
    }
    v
}

/// A string with the characters `v[from..to]`.
pub fn string_of_range(v: &Vec<char>, from: usize, to: usize) -> (r: String)
    requires
        from <= to <= v.len(),
    ensures
        r@ == v@.subrange(from as int, to as int),
{
    let mut r = String::new();
    let mut i = from;
    while i < to
        invariant
            from <= i <= to <= v.len(),
            r@ == v@.subrange(from as int, i as int),
        decreases to - i,
    {
        let piece = char_string(v[i]);
        r.append(piece.as_str());
        assert(v@.subrange(from as int, i + 1) =~= v@.subrange(from as int, i as int).push(v@[i as int]));
        i += 1;
    }
    r
}

/// Calls `char::to_string` for one character.
#[verifier::external_body]
fn char_string(c: char) -> (r: String)
    ensures
        r@ == seq![c],
{
    c.to_string()
}

/// What `str::trim` returns: `s` without leading and trailing whitespace.
pub fn trim(s: &str) -> (r: String)
    ensures
        r@ == trim_seq(s@),
{
    let v = chars_of(s);
    let n = v.len();
    let mut i: usize = 0;
    while i < n && is_whitespace(v[i])
        invariant
            n == v.len(),
            v@ == s@,
            0 <= i <= n,
            forall|k: int| 0 <= k < i ==> is_white(#[trigger] v@[k]),
        decreases n - i,
    {
        i += 1;
    }
    proof {
        lemma_trim_start_skip(v@, i as int);
    }
    let ghost rest = v@.subrange(i as int, n as int);
    assert(trim_start_seq(v@) == rest) by {
        if i < n {
            assert(!is_white(rest[0]));
        }
    }
    let mut j: usize = n;
    while j > i && is_whitespace(v[j - 1])
        invariant
            n == v.len(),
            v@ == s@,
            i <= j <= n,
            rest == v@.subrange(i as int, n as int),
            forall|k: int| j <= k < n ==> is_white(#[trigger] v@[k]),
        decreases j,
    {
        j -= 1;
    }
    proof {
        assert forall|k: int| (j - i) <= k < rest.len() implies is_white(#[trigger] rest[k]) by {
            assert(rest[k] == v@[k + i]);
        }
        lemma_trim_end_skip(rest, (j - i) as int);
        assert(rest.subrange(0, (j - i) as int) =~= v@.subrange(i as int, j as int));
        let t = v@.subrange(i as int, j as int);
        if t.len() > 0 {
            assert(t.last() == v@[j - 1]);
        }
    }
    string_of_range(&v, i, j)
}

/// Whether `needle` occurs in `hay` at position `i`.
fn occurs_at_exec(hay: &Vec<char>, needle: &Vec<char>, i: usize) -> (b: bool)
    requires
        i + needle.len() <= hay.len(),
    ensures
        b == occurs_at(hay@, needle@, i as int),
{
    let mut k: usize = 0;
    while k < needle.len()
        invariant
            i + needle.len() <= hay.len(),
            0 <= k <= needle.len(),
            forall|m: int| 0 <= m < k ==> hay@[i + m] == needle@[m],
        decreases needle.len() - k,
    {
        if hay[i + k] != needle[k] {
            assert(hay@.subrange(i as int, i + needle.len())[k as int] != needle@[k as int]);
            return false;
        }
        k += 1;
    }
    assert(hay@.subrange(i as int, i + needle.len()) =~= needle@);
    true
}

/// Whether `needle` occurs somewhere in `hay`.
pub fn contains_chars(hay: &Vec<char>, needle: &Vec<char>) -> (b: bool)
    ensures
        b == contains_seq(hay@, needle@),
{
    if needle.len() > hay.len() {
        return false;
    }
    let last = hay.len() - needle.len();
    let mut i: usize = 0;
    while i < last
        invariant
            last + needle.len() == hay.len(),
            0 <= i <= last,
            forall|m: int| 0 <= m < i ==> !occurs_at(hay@, needle@, m),
        decreases last - i,
    {
        if occurs_at_exec(hay, needle, i) {
            return true;
        }
        i += 1;
    }
    occurs_at_exec(hay, needle, last)
}

/// Whether `needle` occurs somewhere in `hay`.
pub fn contains_str(hay: &str, needle: &str) -> (b: bool)
    ensures
        b == contains_seq(hay@, needle@),
{
    let h = chars_of(hay);
    let n = chars_of(needle);
    contains_chars(&h, &n)
}

/// Whether `hay` begins with `prefix`.
pub fn starts_with_str(hay: &str, prefix: &str) -> (b: bool)
    ensures
        b == starts_with_seq(hay@, prefix@),
{
    let h = chars_of(hay);
    let p = chars_of(prefix);
    if p.len() > h.len() {
        return false;
    }
    occurs_at_exec(&h, &p, 0)
}

/// Whether `hay` ends with `suffix`.
pub fn ends_with_str(hay: &str, suffix: &str) -> (b: bool)
    ensures
        b == ends_with_seq(hay@, suffix@),
{
    let h = chars_of(hay);
    let p = chars_of(suffix);
    if p.len() > h.len() {
        return false;
    }
    occurs_at_exec(&h, &p, h.len() - p.len())
}

/// Whether two strings hold the same characters.
pub fn same_text(a: &str, b: &str) -> (r: bool)
    ensures
        r == (a@ == b@),
{
    let x = chars_of(a);
    let y = chars_of(b);
    if x.len() != y.len() {
        return false;
    }
    let r = occurs_at_exec(&x, &y, 0);
    assert(x@.subrange(0, y@.len() as int) =~= x@);
    r
}

/// Trims `key`, then upper-cases it.
pub fn normalize_text(key: &str) -> (r: String)
    ensures
        r@ == normalized(key@),
{
    let t = trim(key);
    to_upper(t.as_str())
}


/// `s` with every occurrence of `pat`, found from the left without
/// overlapping, removed (what `str::replace(pat, "")` returns).
pub open spec fn without_all(s: Seq<char>, pat: Seq<char>) -> Seq<char>
    decreases s.len(),
{
    if pat.len() == 0 || s.len() < pat.len() {
        s
    } else if s.subrange(0, pat.len() as int) == pat {
        without_all(s.subrange(pat.len() as int, s.len() as int), pat)
    } else {
        seq![s[0]] + without_all(s.subrange(1, s.len() as int), pat)
    }
}

/// `s` with every occurrence of `pat` removed, as `without_all` says.
pub fn remove_all(s: &str, pat: &str) -> (r: String)
    ensures
        r@ == without_all(s@, pat@),
{
    let l = chars_of(s);
    let p = chars_of(pat);
    if p.len() == 0 {
        return s.to_string();
    }
    let n = l.len();
    let mut out: Vec<char> = Vec::new();
    let mut i: usize = 0;
    assert(l@.subrange(0, n as int) =~= l@);
    while i < n
        invariant
            n == l.len(),
            p.len() > 0,
            p@ == pat@,
            l@ == s@,
            0 <= i <= n,
            out@ + without_all(l@.subrange(i as int, n as int), pat@) == without_all(s@, pat@),
        decreases n - i,
    {
        let ghost rest = l@.subrange(i as int, n as int);
        if p.len() <= n - i && occurs_at_exec(&l, &p, i) {
            proof {
                assert(rest.subrange(0, p.len() as int) =~= l@.subrange(i as int, i + p.len()));
                assert(rest.subrange(p.len() as int, rest.len() as int) =~= l@.subrange(
                    i + p.len(),
                    n as int,
                ));
            }
            i = i + p.len();
        } else {
            let ghost before = out@;
            out.push(l[i]);
            proof {
                if rest.len() >= p.len() {
                    assert(rest.subrange(0, p.len() as int) =~= l@.subrange(i as int, i + p.len()));
                    assert(rest.subrange(1, rest.len() as int) =~= l@.subrange(i + 1, n as int));
                    assert(rest[0] == l@[i as int]);
                    assert(out@ + without_all(l@.subrange(i + 1, n as int), pat@) =~= before + (seq![l@[i as int]] + without_all(l@.subrange(i + 1, n as int), pat@)));
                } else {
                    assert(without_all(rest, pat@) == rest);
                    assert(without_all(l@.subrange(i + 1, n as int), pat@) == l@.subrange(i + 1, n as int));
                    assert(rest =~= seq![l@[i as int]] + l@.subrange(i + 1, n as int));
                    assert(out@ + l@.subrange(i + 1, n as int) =~= before + rest);
                }
            }
            i = i + 1;
        }
    }
    proof {
        assert(l@.subrange(n as int, n as int) =~= Seq::<char>::empty());
        assert(out@ + Seq::<char>::empty() =~= out@);
    }
    string_of(&out)
}


/// The decimal digit for `d` (below ten).
pub open spec fn digit_char(d: nat) -> char {
    if d == 0 { '0' } else if d == 1 { '1' } else if d == 2 { '2' } else if d == 3 { '3' }
    else if d == 4 { '4' } else if d == 5 { '5' } else if d == 6 { '6' } else if d == 7 { '7' }
    else if d == 8 { '8' } else { '9' }
}

/// The decimal text of `n`, without leading zeros (what `to_string` gives
/// for an unsigned integer).
pub open spec fn decimal_seq(n: nat) -> Seq<char>
    decreases n,
{
    if n < 10 {
        seq![digit_char(n)]
    } else {
        decimal_seq(n / 10).push(digit_char(n % 10))
    }
}

/// A decimal digit.
pub open spec fn is_digit(c: char) -> bool {
    '0' <= c && c <= '9'
}

/// Decimal text has at least one character, two or more from ten on, and
/// only digits.
pub proof fn lemma_decimal_shape(n: nat)
    ensures
        decimal_seq(n).len() >= 1,
        n >= 10 ==> decimal_seq(n).len() >= 2,
        n < 10 ==> decimal_seq(n).len() == 1,
        forall|i: int| 0 <= i < decimal_seq(n).len() ==> is_digit(#[trigger] decimal_seq(n)[i]),
    decreases n,
{
    if n >= 10 {
        lemma_decimal_shape(n / 10);
        let p = decimal_seq(n / 10);
        assert forall|i: int| 0 <= i < decimal_seq(n).len() implies is_digit(#[trigger] decimal_seq(n)[i]) by {
            if i < p.len() {
                assert(decimal_seq(n)[i] == p[i]);
            }
        }
    }
}

/// Different numbers have different decimal texts.
pub proof fn lemma_decimal_injective(a: nat, b: nat)
    requires
        decimal_seq(a) == decimal_seq(b),
    ensures
        a == b,
    decreases a,
{
    lemma_decimal_shape(a);
    lemma_decimal_shape(b);
    if a < 10 && b < 10 {
        assert(decimal_seq(a)[0] == digit_char(a));
        assert(decimal_seq(b)[0] == digit_char(b));
    } else if a >= 10 && b >= 10 {
        let pa = decimal_seq(a / 10);
        let pb = decimal_seq(b / 10);
        assert(decimal_seq(a).drop_last() =~= pa);
        assert(decimal_seq(b).drop_last() =~= pb);
        lemma_decimal_injective(a / 10, b / 10);
        assert(decimal_seq(a).last() == digit_char(a % 10));
        assert(decimal_seq(b).last() == digit_char(b % 10));
        assert(a % 10 == b % 10);
    }
}

/// Texts made of digits followed by a dash split back at the first dash:
/// `d1 + t1 == d2 + t2` forces `d1 == d2` and `t1 == t2`.
pub proof fn lemma_digits_then_dash(d1: Seq<char>, t1: Seq<char>, d2: Seq<char>, t2: Seq<char>)
    requires
        forall|i: int| 0 <= i < d1.len() ==> is_digit(#[trigger] d1[i]),
        forall|i: int| 0 <= i < d2.len() ==> is_digit(#[trigger] d2[i]),
        t1.len() > 0 && t1[0] == '-',
        t2.len() > 0 && t2[0] == '-',
        d1 + t1 == d2 + t2,
    ensures
        d1 == d2,
        t1 == t2,
{
    let s = d1 + t1;
    if d1.len() < d2.len() {
        assert(s[d1.len() as int] == t1[0]);
        assert((d2 + t2)[d1.len() as int] == d2[d1.len() as int]);
        assert(is_digit(d2[d1.len() as int]));
    } else if d2.len() < d1.len() {
        assert((d2 + t2)[d2.len() as int] == t2[0]);
        assert(s[d2.len() as int] == d1[d2.len() as int]);
        assert(is_digit(d1[d2.len() as int]));
    } else {
        assert(d1 =~= s.subrange(0, d1.len() as int));
        assert(d2 =~= (d2 + t2).subrange(0, d2.len() as int));
        assert(t1 =~= s.subrange(d1.len() as int, s.len() as int));
        assert(t2 =~= (d2 + t2).subrange(d2.len() as int, s.len() as int));
    }
}

fn digit_of(d: u64) -> (c: char)
    requires
        d < 10,
    ensures
        c == digit_char(d as nat),
{
    if d == 0 { '0' } else if d == 1 { '1' } else if d == 2 { '2' } else if d == 3 { '3' }
    else if d == 4 { '4' } else if d == 5 { '5' } else if d == 6 { '6' } else if d == 7 { '7' }
    else if d == 8 { '8' } else { '9' }
}

/// The decimal text of `n`.
pub fn decimal(n: u64) -> (r: String)
    ensures
        r@ == decimal_seq(n as nat),
{
    let mut digits: Vec<char> = Vec::new();
    let mut m: u64 = n;
    // digits holds the low-order digits of n, last digit first.
    while m >= 10
        invariant
            decimal_seq(n as nat) == decimal_seq(m as nat) + digits@.reverse(),
        decreases m,
    {
        let ghost before = digits@;
        digits.push(digit_of(m % 10));
        proof {
            assert(decimal_seq(m as nat) == decimal_seq((m / 10) as nat).push(digit_char((m % 10) as nat)));
            assert(digits@.reverse() =~= seq![digit_char((m % 10) as nat)] + before.reverse());
            assert(decimal_seq((m / 10) as nat).push(digit_char((m % 10) as nat)) + before.reverse()
                =~= decimal_seq((m / 10) as nat) + (seq![digit_char((m % 10) as nat)] + before.reverse()));
        }
        m = m / 10;
    }
    digits.push(digit_of(m));
    let mut out: Vec<char> = Vec::new();
    let mut i: usize = digits.len();
    proof {
        assert(digits@.reverse() =~= seq![digit_char(m as nat)] + digits@.drop_last().reverse());
    }
    while i > 0
        invariant
            0 <= i <= digits.len(),
            out@ == digits@.subrange(i as int, digits.len() as int).reverse(),
            decimal_seq(n as nat) == digits@.reverse(),
        decreases i,
    {
        i = i - 1;
        let ghost before = out@;
        out.push(digits[i]);
        proof {
            assert(digits@.subrange(i as int, digits.len() as int).reverse() =~= before.push(digits@[i as int]));
        }
    }
    proof {
        assert(digits@.subrange(0, digits.len() as int) =~= digits@);
    }
    string_of(&out)
}


// ----------------------------------------------------------------------
// Splitting
// ----------------------------------------------------------------------

/// The pieces of `s` between characters satisfying `sep`, in order (an
/// empty string gives one empty piece).
pub open spec fn split_by(s: Seq<char>, sep: spec_fn(char) -> bool) -> Seq<Seq<char>>
    decreases s.len(),
{
    if s.len() == 0 {
        seq![Seq::<char>::empty()]
    } else {
        let p = split_by(s.drop_last(), sep);
        if sep(s.last()) {
            p.push(Seq::<char>::empty())
        } else {
            p.update(p.len() - 1, p.last().push(s.last()))
        }
    }
}

/// The newline character.
pub open spec fn newline() -> spec_fn(char) -> bool {
    |c: char| c == '\n'
}

/// Whitespace characters.
pub open spec fn white() -> spec_fn(char) -> bool {
    |c: char| is_white(c)
}

/// `p` without one trailing carriage return.
pub open spec fn strip_cr(p: Seq<char>) -> Seq<char> {
    if p.len() > 0 && p.last() == '\r' {
        p.drop_last()
    } else {
        p
    }
}

/// The pieces of `ps` that are not empty, in order.
pub open spec fn non_empty(ps: Seq<Seq<char>>) -> Seq<Seq<char>>
    decreases ps.len(),
{
    if ps.len() == 0 {
        ps
    } else if ps.last().len() > 0 {
        non_empty(ps.drop_last()).push(ps.last())
    } else {
        non_empty(ps.drop_last())
    }
}

/// What `str::lines` yields: the pieces between newlines, each without a
/// carriage return before its newline; a last piece after the final
/// newline is kept only when it is not empty.
pub open spec fn lines_seq(s: Seq<char>) -> Seq<Seq<char>> {
    let ps = split_by(s, newline());
    let ended = Seq::new((ps.len() - 1) as nat, |i: int| strip_cr(ps[i]));
    if ps.last().len() > 0 {
        ended.push(ps.last())
    } else {
        ended
    }
}

/// What `str::split_whitespace` yields: the maximal runs of
/// non-whitespace characters.
pub open spec fn fields_seq(s: Seq<char>) -> Seq<Seq<char>> {
    non_empty(split_by(s, white()))
}

pub proof fn lemma_split_by_len(s: Seq<char>, sep: spec_fn(char) -> bool)
    ensures
        split_by(s, sep).len() >= 1,
    decreases s.len(),
{
    if s.len() > 0 {
        lemma_split_by_len(s.drop_last(), sep);
    }
}

pub proof fn lemma_split_by_push(s: Seq<char>, sep: spec_fn(char) -> bool, c: char)
    ensures
        sep(c) ==> split_by(s.push(c), sep) == split_by(s, sep).push(Seq::<char>::empty()),
        !sep(c) ==> split_by(s.push(c), sep) == split_by(s, sep).update(
            split_by(s, sep).len() - 1,
            split_by(s, sep).last().push(c),
        ),
{
    assert(s.push(c).drop_last() =~= s);
}

fn string_of(v: &Vec<char>) -> (r: String)
    ensures
        r@ == v@,
{
    let r = string_of_range(v, 0, v.len());
    assert(v@.subrange(0, v@.len() as int) =~= v@);
    r
}

/// What `str::lines` yields for `s`.
pub fn lines(s: &str) -> (r: Vec<String>)
    ensures
        r.len() == lines_seq(s@).len(),
        forall|i: int| 0 <= i < r.len() ==> (#[trigger] r@[i])@ == lines_seq(s@)[i],
{
    let chars = chars_of(s);
    let mut out: Vec<String> = Vec::new();
    let mut cur: Vec<char> = Vec::new();
    let mut i: usize = 0;
    while i < chars.len()
        invariant
            0 <= i <= chars.len(),
            chars@ == s@,
            split_by(chars@.subrange(0, i as int), newline()).len() >= 1,
            cur@ == split_by(chars@.subrange(0, i as int), newline()).last(),
            out.len() == split_by(chars@.subrange(0, i as int), newline()).len() - 1,
            forall|k: int| 0 <= k < out.len() ==> (#[trigger] out@[k])@ == strip_cr(
                split_by(chars@.subrange(0, i as int), newline())[k],
            ),
        decreases chars.len() - i,
    {
        let c = chars[i];
        let ghost pre = chars@.subrange(0, i as int);
        proof {
            assert(chars@.subrange(0, i + 1) =~= pre.push(c));
            lemma_split_by_push(pre, newline(), c);
            lemma_split_by_len(pre, newline());
        }
        if c == '\n' {
            let n = cur.len();
            let line = if n > 0 && cur[n - 1] == '\r' {
                string_of_range(&cur, 0, n - 1)
            } else {
                string_of(&cur)
            };
            proof {
                if n > 0 && cur@[n - 1] == '\r' {
                    assert(cur@.subrange(0, n - 1) =~= cur@.drop_last());
                }
            }
            out.push(line);
            cur = Vec::new();
        } else {
            cur.push(c);
        }
        i += 1;
    }
    proof {
        assert(chars@.subrange(0, chars@.len() as int) =~= s@);
    }
    if cur.len() > 0 {
        out.push(string_of(&cur));
    }
    proof {
        let ps = split_by(s@, newline());
        let want = lines_seq(s@);
        assert forall|k: int| 0 <= k < out.len() implies (#[trigger] out@[k])@ == want[k] by {}
    }
    out
}

proof fn lemma_non_empty_push(ps: Seq<Seq<char>>, p: Seq<char>)
    ensures
        p.len() > 0 ==> non_empty(ps.push(p)) == non_empty(ps).push(p),
        p.len() == 0 ==> non_empty(ps.push(p)) == non_empty(ps),
{
    assert(ps.push(p).drop_last() =~= ps);
}

/// What `str::split_whitespace` yields for `s`.
pub fn fields(s: &str) -> (r: Vec<String>)
    ensures
        r.len() == fields_seq(s@).len(),
        forall|i: int| 0 <= i < r.len() ==> (#[trigger] r@[i])@ == fields_seq(s@)[i],
{
    let chars = chars_of(s);
    let mut out: Vec<String> = Vec::new();
    let mut cur: Vec<char> = Vec::new();
    let mut i: usize = 0;
    while i < chars.len()
        invariant
            0 <= i <= chars.len(),
            chars@ == s@,
            split_by(chars@.subrange(0, i as int), white()).len() >= 1,
            cur@ == split_by(chars@.subrange(0, i as int), white()).last(),
            out.len() == non_empty(split_by(chars@.subrange(0, i as int), white()).drop_last()).len(),
            forall|k: int| 0 <= k < out.len() ==> (#[trigger] out@[k])@ == non_empty(
                split_by(chars@.subrange(0, i as int), white()).drop_last(),
            )[k],
        decreases chars.len() - i,
    {
        let c = chars[i];
        let ghost pre = chars@.subrange(0, i as int);
        let ghost ps = split_by(pre, white());
        proof {
            assert(chars@.subrange(0, i + 1) =~= pre.push(c));
            lemma_split_by_push(pre, white(), c);
            lemma_split_by_len(pre, white());
            assert(ps =~= ps.drop_last().push(ps.last()));
            lemma_non_empty_push(ps.drop_last(), ps.last());
        }
        if is_whitespace(c) {
            if cur.len() > 0 {
                out.push(string_of(&cur));
            }
            cur = Vec::new();
            proof {
                assert(split_by(chars@.subrange(0, i + 1), white()).drop_last() =~= ps);
            }
        } else {
            cur.push(c);
            proof {
                assert(split_by(chars@.subrange(0, i + 1), white()).drop_last() =~= ps.drop_last());
            }
        }
        i += 1;
    }
    proof {
        assert(chars@.subrange(0, chars@.len() as int) =~= s@);
        let ps = split_by(s@, white());
        assert(ps =~= ps.drop_last().push(ps.last()));
        lemma_non_empty_push(ps.drop_last(), ps.last());
    }
    if cur.len() > 0 {
        out.push(string_of(&cur));
    }
    out
}
} // verus!
