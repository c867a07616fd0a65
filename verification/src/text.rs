//! Character-level helpers shared by the parsers of the library.
//!
//! Strings are inspected as sequences of `char`; the scanning functions return
//! character positions.

use vstd::prelude::*;

verus! {

/// Unicode `White_Space` property, as used by `char::is_whitespace`, `str::trim`
/// and the `\s` class of the token grammars.
pub open spec fn is_ws(c: char) -> bool {
    let u = c as u32;
    ||| (0x09 <= u && u <= 0x0d)
    ||| u == 0x20
    ||| u == 0x85
    ||| u == 0xa0
    ||| u == 0x1680
    ||| (0x2000 <= u && u <= 0x200a)
    ||| u == 0x2028
    ||| u == 0x2029
    ||| u == 0x202f
    ||| u == 0x205f
    ||| u == 0x3000
}

/// Executable form of [`is_ws`].
pub fn is_whitespace(c: char) -> (r: bool)
    ensures
        r == is_ws(c),
{
    let u = c as u32;
    (0x09 <= u && u <= 0x0d) || u == 0x20 || u == 0x85 || u == 0xa0 || u == 0x1680 || (0x2000
        <= u && u <= 0x200a) || u == 0x2028 || u == 0x2029 || u == 0x202f || u == 0x205f || u
        == 0x3000
}

/// Classes of characters over which the scanners advance.
#[derive(Clone, Copy, Debug, PartialEq, Eq, Structural)]
pub enum CharClass {
    /// Unicode whitespace.
    Whitespace,
    /// Anything but `=`, `,` and whitespace (the key of a parameter modifier).
    ModifierKey,
    /// Anything but `(` and whitespace (the specifier of a parameter token).
    Specifier,
    /// `=`, `,` and whitespace (what separates the keys of parameter modifiers).
    NonKey,
    /// Anything but the given character.
    Not(char),
    /// Anything but the given character and `\n`.
    NotNorNewline(char),
}

/// Membership of a character in a class.
pub open spec fn in_class(cls: CharClass, c: char) -> bool {
    match cls {
        CharClass::Whitespace => is_ws(c),
        CharClass::ModifierKey => c != '=' && c != ',' && !is_ws(c),
        CharClass::Specifier => c != '(' && !is_ws(c),
        CharClass::NonKey => c == '=' || c == ',' || is_ws(c),
        CharClass::Not(x) => c != x,
        CharClass::NotNorNewline(x) => c != x && c != '\n',
    }
}

/// Executable form of [`in_class`].
pub fn in_class_exec(cls: CharClass, c: char) -> (r: bool)
    ensures
        r == in_class(cls, c),
{
    match cls {
        CharClass::Whitespace => is_whitespace(c),
        CharClass::ModifierKey => c != '=' && c != ',' && !is_whitespace(c),
        CharClass::Specifier => c != '(' && !is_whitespace(c),
        CharClass::NonKey => c == '=' || c == ',' || is_whitespace(c),
        CharClass::Not(x) => c != x,
        CharClass::NotNorNewline(x) => c != x && c != '\n',
    }
}

/// The first position at or after `p` whose character is not in `cls`
/// (`s.len()` when there is none).
pub open spec fn scan(s: Seq<char>, p: int, cls: CharClass) -> int
    decreases s.len() - p,
{
    if p >= s.len() {
        s.len() as int
    } else if p < 0 {
        p
    } else if in_class(cls, s[p]) {
        scan(s, p + 1, cls)
    } else {
        p
    }
}

/// What a scan returns: a position in range, preceded by class members only,
/// and not itself a member.
pub proof fn lemma_scan(s: Seq<char>, p: int, cls: CharClass)
    requires
        0 <= p <= s.len(),
    ensures
        p <= scan(s, p, cls) <= s.len(),
        forall|i: int| p <= i < scan(s, p, cls) ==> in_class(cls, #[trigger] s[i]),
        scan(s, p, cls) < s.len() ==> !in_class(cls, s[scan(s, p, cls)]),
    decreases s.len() - p,
{
    if p < s.len() && in_class(cls, s[p]) {
        lemma_scan(s, p + 1, cls);
    }
}

/// A scan is determined by the first non-member: every position reached by
/// skipping members scans to the same place.
pub proof fn lemma_scan_skip(s: Seq<char>, p: int, q: int, cls: CharClass)
    requires
        0 <= p <= q <= s.len(),
        forall|i: int| p <= i < q ==> in_class(cls, #[trigger] s[i]),
    ensures
        scan(s, p, cls) == scan(s, q, cls),
    decreases q - p,
{
    if p < q {
        lemma_scan_skip(s, p + 1, q, cls);
    }
}

/// Executable scan: advances from `p` while the characters are in `cls`.
pub fn scan_exec(v: &Vec<char>, p: usize, cls: CharClass) -> (r: usize)
    requires
        p <= v@.len(),
    ensures
        r == scan(v@, p as int, cls),
        p <= r <= v@.len(),
{
    let mut i = p;
    while i < v.len() && in_class_exec(cls, v[i])
        invariant
            p <= i <= v@.len(),
            scan(v@, p as int, cls) == scan(v@, i as int, cls),
        decreases v@.len() - i,
    {
        i = i + 1;
    }
    proof {
        lemma_scan(v@, i as int, cls);
    }
    i
}

/// `s` without its leading whitespace (`str::trim_start`).
pub open spec fn trim_start(s: Seq<char>) -> Seq<char> {
    s.subrange(scan(s, 0, CharClass::Whitespace), s.len() as int)
}

/// `s` without its trailing whitespace (`str::trim_end`).
pub open spec fn trim_end(s: Seq<char>) -> Seq<char>
    decreases s.len(),
{
    if s.len() > 0 && is_ws(s.last()) {
        trim_end(s.drop_last())
    } else {
        s
    }
}

/// `s` without leading and trailing whitespace (`str::trim`).
pub open spec fn trim(s: Seq<char>) -> Seq<char> {
    trim_end(trim_start(s))
}

/// The length of `s` once its trailing whitespace is removed.
pub proof fn lemma_trim_end(s: Seq<char>)
    ensures
        trim_end(s) == s.subrange(0, trim_end(s).len() as int),
        trim_end(s).len() <= s.len(),
        trim_end(s).len() > 0 ==> !is_ws(trim_end(s).last()),
        forall|i: int| trim_end(s).len() <= i < s.len() ==> is_ws(#[trigger] s[i]),
    decreases s.len(),
{
    if s.len() > 0 && is_ws(s.last()) {
        lemma_trim_end(s.drop_last());
        assert forall|i: int| trim_end(s).len() <= i < s.len() implies is_ws(#[trigger] s[i]) by {
            if i < s.len() - 1 {
                assert(s.drop_last()[i] == s[i]);
            }
        }
    } else {
        assert(s.subrange(0, s.len() as int) =~= s);
    }
}

/// Appends one character to a string, by `String::push`.
///
/// Trusted: std documents `push` as appending the character at the end, which
/// is what the view states.
#[verifier::external_body]
pub(crate) fn push_char(s: &mut String, c: char)
    ensures
        final(s)@ == old(s)@.push(c),
{
    s.push(c);
}

/// The characters of a string slice, in order.
pub fn chars_of(s: &str) -> (v: Vec<char>)
    ensures
        v@ == s@,
{
    let mut v: Vec<char> = Vec::new();
    for c in it: s.chars()
        invariant
            v@ == it.seq().take(it.index() as int),
            it.seq() == s@,
    {
        v.push(c);
    }
    v
}

/// A string made of the characters `v[from..to]`.
pub fn string_of(v: &Vec<char>, from: usize, to: usize) -> (r: String)
    requires
        from <= to <= v@.len(),
    ensures
        r@ == v@.subrange(from as int, to as int),
{
    let mut r = String::new();
    let mut i = from;
    while i < to
        invariant
            from <= i <= to <= v@.len(),
            r@ == v@.subrange(from as int, i as int),
        decreases to - i,
    {
        push_char(&mut r, v[i]);
        assert(v@.subrange(from as int, i + 1) =~= v@.subrange(from as int, i as int).push(v@[i as int]));
        i = i + 1;
    }
    r
}

/// Appends a string slice to a string.
pub fn push_str(s: &mut String, t: &str)
    ensures
        final(s)@ == old(s)@ + t@,
{
    s.append(t);
}

/// A copy of a string slice as an owned string.
pub fn owned(t: &str) -> (r: String)
    ensures
        r@ == t@,
{
    String::from_str(t)
}

/// Whether `s` starts with `p` (`str::starts_with`).
pub open spec fn starts_with(s: Seq<char>, p: Seq<char>) -> bool {
    p.len() <= s.len() && s.subrange(0, p.len() as int) == p
}

/// Whether `s` ends with `p` (`str::ends_with`).
pub open spec fn ends_with(s: Seq<char>, p: Seq<char>) -> bool {
    p.len() <= s.len() && s.subrange(s.len() - p.len(), s.len() as int) == p
}

/// Whether `v[at..]` starts with `p`.
pub fn has_at(v: &Vec<char>, at: usize, p: &str) -> (r: bool)
    requires
        at <= v@.len(),
    ensures
        r == starts_with(v@.subrange(at as int, v@.len() as int), p@),
{
    let pv = chars_of(p);
    let n = v.len();
    if pv.len() > n - at {
        return false;
    }
    let mut i: usize = 0;
    while i < pv.len()
        invariant
            i <= pv@.len(),
            at <= v@.len(),
            n == v@.len(),
            pv@ == p@,
            pv@.len() <= v@.len() - at,
            forall|k: int| 0 <= k < i ==> v@[at + k] == pv@[k],
        decreases pv@.len() - i,
    {
        assert(at + i < v@.len());
        if v[at + i] != pv[i] {
            assert(v@.subrange(at as int, v@.len() as int).subrange(0, pv@.len() as int)[i as int]
                != pv@[i as int]);
            return false;
        }
        i = i + 1;
    }
    assert(v@.subrange(at as int, v@.len() as int).subrange(0, pv@.len() as int) =~= pv@);
    true
}

/// Whether two character sequences are equal.
pub fn chars_eq(a: &Vec<char>, b: &Vec<char>) -> (r: bool)
    ensures
        r == (a@ == b@),
{
    if a.len() != b.len() {
        return false;
    }
    let mut i: usize = 0;
    while i < a.len()
        invariant
            i <= a@.len(),
            a@.len() == b@.len(),
            forall|k: int| 0 <= k < i ==> a@[k] == b@[k],
        decreases a@.len() - i,
    {
        if a[i] != b[i] {
            return false;
        }
        i = i + 1;
    }
    assert(a@ =~= b@);
    true
}

/// Whether two strings are equal.
pub fn str_eq(a: &str, b: &str) -> (r: bool)
    ensures
        r == (a@ == b@),
{
    let va = chars_of(a);
    let vb = chars_of(b);
    chars_eq(&va, &vb)
}

/// Lexicographic order of character sequences by code point (the order of `str`).
pub open spec fn str_lt(a: Seq<char>, b: Seq<char>) -> bool
    decreases a.len(),
{
    if a.len() == 0 {
        b.len() > 0
    } else if b.len() == 0 {
        false
    } else if a[0] != b[0] {
        a[0] < b[0]
    } else {
        str_lt(a.drop_first(), b.drop_first())
    }
}

/// The lexicographic order is a strict total order on distinct sequences.
pub proof fn lemma_str_lt_total(a: Seq<char>, b: Seq<char>)
    ensures
        a != b ==> (str_lt(a, b) || str_lt(b, a)),
        str_lt(a, b) ==> !str_lt(b, a),
        str_lt(a, b) ==> a != b,
    decreases a.len(),
{
    if a.len() > 0 && b.len() > 0 {
        if a[0] == b[0] {
            lemma_str_lt_total(a.drop_first(), b.drop_first());
            if a.drop_first() == b.drop_first() {
                assert(a =~= seq![a[0]] + a.drop_first());
                assert(b =~= seq![b[0]] + b.drop_first());
            }
        } else {
            assert(a[0] < b[0] || b[0] < a[0]);
        }
    } else if a.len() == 0 && b.len() == 0 {
        assert(a =~= b);
    }
}

/// The lexicographic order is transitive.
pub proof fn lemma_str_lt_transitive(a: Seq<char>, b: Seq<char>, c: Seq<char>)
    requires
        str_lt(a, b),
        str_lt(b, c),
    ensures
        str_lt(a, c),
    decreases a.len(),
{
    if a.len() > 0 && a[0] == b[0] && b[0] == c[0] {
        lemma_str_lt_transitive(a.drop_first(), b.drop_first(), c.drop_first());
    }
}

/// Executable lexicographic comparison.
pub fn str_less(a: &Vec<char>, b: &Vec<char>) -> (r: bool)
    ensures
        r == str_lt(a@, b@),
{
    let mut i: usize = 0;
    assert(a@.subrange(0, a@.len() as int) =~= a@);
    assert(b@.subrange(0, b@.len() as int) =~= b@);
    while i < a.len() && i < b.len() && a[i] == b[i]
        invariant
            i <= a@.len(),
            i <= b@.len(),
            str_lt(a@, b@) == str_lt(a@.subrange(i as int, a@.len() as int), b@.subrange(
                i as int,
                b@.len() as int,
            )),
        decreases a@.len() - i,
    {
        let ghost sa = a@.subrange(i as int, a@.len() as int);
        let ghost sb = b@.subrange(i as int, b@.len() as int);
        assert(sa.drop_first() =~= a@.subrange(i + 1, a@.len() as int));
        assert(sb.drop_first() =~= b@.subrange(i + 1, b@.len() as int));
        i = i + 1;
    }
    let ghost sa = a@.subrange(i as int, a@.len() as int);
    let ghost sb = b@.subrange(i as int, b@.len() as int);
    if i >= a.len() {
        assert(sa.len() == 0);
        i < b.len()
    } else if i >= b.len() {
        false
    } else {
        assert(sa[0] == a@[i as int] && sb[0] == b@[i as int]);
        a[i] < b[i]
    }
}

/// Whether `s` holds no line feed.
pub open spec fn no_newline(s: Seq<char>) -> bool {
    forall|i: int| 0 <= i < s.len() ==> s[i] != '\n'
}

/// The decimal digit of `d` (0 to 9).
pub open spec fn digit_char(d: int) -> char {
    if d == 0 {
        '0'
    } else if d == 1 {
        '1'
    } else if d == 2 {
        '2'
    } else if d == 3 {
        '3'
    } else if d == 4 {
        '4'
    } else if d == 5 {
        '5'
    } else if d == 6 {
        '6'
    } else if d == 7 {
        '7'
    } else if d == 8 {
        '8'
    } else {
        '9'
    }
}

/// The decimal text of a number, without leading zeros.
pub open spec fn decimal(n: nat) -> Seq<char>
    decreases n,
{
    if n < 10 {
        seq![digit_char(n as int)]
    } else {
        decimal(n / 10).push(digit_char((n % 10) as int))
    }
}

/// The decimal digit of `d`.
fn digit_exec(d: u128) -> (r: char)
    requires
        d < 10,
    ensures
        r == digit_char(d as int),
{
    if d == 0 {
        '0'
    } else if d == 1 {
        '1'
    } else if d == 2 {
        '2'
    } else if d == 3 {
        '3'
    } else if d == 4 {
        '4'
    } else if d == 5 {
        '5'
    } else if d == 6 {
        '6'
    } else if d == 7 {
        '7'
    } else if d == 8 {
        '8'
    } else {
        '9'
    }
}

/// The decimal text of a number.
pub fn u128_to_string(n: u128) -> (r: String)
    ensures
        r@ == decimal(n as nat),
    decreases n,
{
    if n < 10 {
        let mut s = String::new();
        push_char(&mut s, digit_exec(n));
        assert(s@ =~= seq![digit_char(n as int)]);
        s
    } else {
        let mut s = u128_to_string(n / 10);
        push_char(&mut s, digit_exec(n % 10));
        s
    }
}

/// The decimal text of a number.
pub fn usize_to_string(n: usize) -> (r: String)
    ensures
        r@ == decimal(n as nat),
{
    u128_to_string(n as u128)
}

/// The length of `v` once its trailing whitespace is removed.
pub fn trim_end_len(v: &Vec<char>) -> (r: usize)
    ensures
        r == trim_end(v@).len(),
        r <= v@.len(),
{
    let mut i = v.len();
    assert(v@.subrange(0, i as int) =~= v@);
    while i > 0 && is_whitespace(v[i - 1])
        invariant
            i <= v@.len(),
            trim_end(v@) == trim_end(v@.subrange(0, i as int)),
        decreases i,
    {
        assert(v@.subrange(0, i as int).drop_last() =~= v@.subrange(0, i - 1));
        i = i - 1;
    }
    i
}

/// Whether `v[from..to]` holds no line feed.
pub fn no_newline_exec(v: &Vec<char>, from: usize, to: usize) -> (r: bool)
    requires
        from <= to <= v@.len(),
    ensures
        r == no_newline(v@.subrange(from as int, to as int)),
{
    let mut i = from;
    while i < to
        invariant
            from <= i <= to <= v@.len(),
            forall|k: int| from <= k < i ==> v@[k] != '\n',
        decreases to - i,
    {
        if v[i] == '\n' {
            assert(v@.subrange(from as int, to as int)[i - from] == '\n');
            return false;
        }
        i = i + 1;
    }
    assert forall|k: int| 0 <= k < to - from implies v@.subrange(from as int, to as int)[k]
        != '\n' by {
        assert(v@.subrange(from as int, to as int)[k] == v@[from + k]);
    }
    true
}

/// `v` without leading and trailing whitespace.
pub fn trim_chars(v: &Vec<char>) -> (r: Vec<char>)
    ensures
        r@ == trim(v@),
{
    let a = scan_exec(v, 0, CharClass::Whitespace);
    let mut t: Vec<char> = Vec::new();
    let mut i = a;
    while i < v.len()
        invariant
            a <= i <= v@.len(),
            t@ == v@.subrange(a as int, i as int),
        decreases v@.len() - i,
    {
        t.push(v[i]);
        assert(v@.subrange(a as int, i + 1) =~= v@.subrange(a as int, i as int).push(v@[i as int]));
        i = i + 1;
    }
    assert(t@ == trim_start(v@));
    let tl = trim_end_len(&t);
    proof {
        lemma_trim_end(t@);
    }
    let mut r: Vec<char> = Vec::new();
    let mut j: usize = 0;
    while j < tl
        invariant
            j <= tl <= t@.len(),
            tl == trim_end(t@).len(),
            r@ == t@.subrange(0, j as int),
        decreases tl - j,
    {
        r.push(t[j]);
        assert(t@.subrange(0, j + 1) =~= t@.subrange(0, j as int).push(t@[j as int]));
        j = j + 1;
    }
    r
}

/// Whether `v` starts with `p`.
pub fn starts(v: &Vec<char>, p: &str) -> (r: bool)
    ensures
        r == starts_with(v@, p@),
{
    assert(v@.subrange(0, v@.len() as int) =~= v@);
    has_at(v, 0, p)
}

/// Whether `v` spells `p`.
pub fn spells(v: &Vec<char>, p: &str) -> (r: bool)
    ensures
        r == (v@ == p@),
{
    let pv = chars_of(p);
    chars_eq(v, &pv)
}

/// `s` without leading and trailing whitespace, as an owned string (`str::trim`).
pub fn trim_str(s: &str) -> (r: String)
    ensures
        r@ == trim(s@),
{
    let v = chars_of(s);
    let t = trim_chars(&v);
    string_of(&t, 0, t.len())
}

} // verus!
