//! Character-level helpers on strings: trimming, searching, SQL `LIKE`
//! matching, and the hexadecimal and decimal renderings used by the
//! clipboard store.
use vstd::prelude::*;

verus! {

// ---------------------------------------------------------------------------
// Specifications
// ---------------------------------------------------------------------------

/// Unicode `White_Space` (the set `char::is_whitespace` and `str::trim` use).
pub open spec fn is_white_space(c: char) -> bool {
    let u = c as u32;
    ||| 0x09 <= u <= 0x0D
    ||| u == 0x20
    ||| u == 0x85
    ||| u == 0xA0
    ||| u == 0x1680
    ||| 0x2000 <= u <= 0x200A
    ||| u == 0x2028
    ||| u == 0x2029
    ||| u == 0x202F
    ||| u == 0x205F
    ||| u == 0x3000
}

/// General category `Cc` (what `char::is_control` tests).
pub open spec fn is_control(c: char) -> bool {
    let u = c as u32;
    u <= 0x1F || (0x7F <= u && u <= 0x9F)
}

/// `s` without its leading white space.
pub open spec fn trim_start(s: Seq<char>) -> Seq<char>
    decreases s.len(),
{
    if s.len() > 0 && is_white_space(s[0]) {
        trim_start(s.drop_first())
    } else {
        s
    }
}

/// `s` without its trailing white space.
pub open spec fn trim_end(s: Seq<char>) -> Seq<char>
    decreases s.len(),
{
    if s.len() > 0 && is_white_space(s.last()) {
        trim_end(s.drop_last())
    } else {
        s
    }
}

/// `s` without white space at either end (`str::trim`).
pub open spec fn trim(s: Seq<char>) -> Seq<char> {
    trim_end(trim_start(s))
}

/// `p` occurs in `t` starting at position `i`.
pub open spec fn occurs_at(t: Seq<char>, p: Seq<char>, i: int) -> bool {
    0 <= i && i + p.len() <= t.len() && t.subrange(i, i + p.len()) == p
}

/// `p` is a substring of `t` (`str::contains`).
pub open spec fn contains(t: Seq<char>, p: Seq<char>) -> bool {
    exists|i: int| occurs_at(t, p, i)
}

/// `t` begins with `p` (`str::starts_with`).
pub open spec fn starts_with(t: Seq<char>, p: Seq<char>) -> bool {
    p.len() <= t.len() && t.subrange(0, p.len() as int) == p
}

/// ASCII upper-case letters folded to lower case; every other character kept.
pub open spec fn ascii_fold(c: char) -> u32 {
    let u = c as u32;
    if 0x41 <= u && u <= 0x5A {
        (u + 32) as u32
    } else {
        u
    }
}

/// Two characters that SQLite's `LIKE` treats as equal: equal up to ASCII case.
pub open spec fn like_char_eq(a: char, b: char) -> bool {
    ascii_fold(a) == ascii_fold(b)
}

/// SQLite `LIKE` without an `ESCAPE` clause, on the suffixes `p[i..]` and
/// `t[j..]`: `%` matches any run of characters, `_` any one character, and
/// every other character itself up to ASCII case.
pub open spec fn like_at(p: Seq<char>, t: Seq<char>, i: int, j: int) -> bool
    decreases p.len() - i, t.len() - j,
{
    if i >= p.len() {
        j == t.len()
    } else if p[i] == '%' {
        like_at(p, t, i + 1, j) || (0 <= j < t.len() && like_at(p, t, i, j + 1))
    } else {
        0 <= j < t.len() && (p[i] == '_' || like_char_eq(p[i], t[j])) && like_at(
            p,
            t,
            i + 1,
            j + 1,
        )
    }
}

/// `t LIKE p`.
pub open spec fn like(p: Seq<char>, t: Seq<char>) -> bool {
    like_at(p, t, 0, 0)
}

/// The lower-case hexadecimal digit of `d < 16`.
pub open spec fn hex_digit(d: int) -> char {
    if d == 0 {
        '0'
    } else if d == 1 {
        '1'
    } else if d == 2 {
        '2'
    } else if d == 3 {
        '3'
    } else if d == 4 {
        '4'
    } else if d == 5 {
        '5'
    } else if d == 6 {
        '6'
    } else if d == 7 {
        '7'
    } else if d == 8 {
        '8'
    } else if d == 9 {
        '9'
    } else if d == 10 {
        'a'
    } else if d == 11 {
        'b'
    } else if d == 12 {
        'c'
    } else if d == 13 {
        'd'
    } else if d == 14 {
        'e'
    } else {
        'f'
    }
}

/// Two lower-case hexadecimal digits per byte, high nibble first.
pub open spec fn hex_lower(bytes: Seq<u8>) -> Seq<char>
    decreases bytes.len(),
{
    if bytes.len() == 0 {
        Seq::empty()
    } else {
        hex_lower(bytes.drop_last()) + seq![
            hex_digit((bytes.last() / 16) as int),
            hex_digit((bytes.last() % 16) as int),
        ]
    }
}

/// The decimal rendering of `n`, without leading zeros.
pub open spec fn decimal(n: nat) -> Seq<char>
    decreases n,
{
    if n < 10 {
        seq![hex_digit(n as int)]
    } else {
        decimal(n / 10).push(hex_digit((n % 10) as int))
    }
}

/// `a` sorts strictly before `b`: code point by code point, a proper prefix
/// first. This is the order of SQLite's `BINARY` collation on UTF-8 text.
pub open spec fn text_lt(a: Seq<char>, b: Seq<char>) -> bool
    decreases a.len(),
{
    if a.len() == 0 {
        b.len() > 0
    } else if b.len() == 0 {
        false
    } else if a[0] == b[0] {
        text_lt(a.drop_first(), b.drop_first())
    } else {
        (a[0] as u32) < (b[0] as u32)
    }
}

/// Names in ascending order (equal names allowed).
pub open spec fn names_sorted(ns: Seq<Seq<char>>) -> bool {
    forall|i: int, j: int| 0 <= i < j < ns.len() ==> !text_lt(ns[j], ns[i])
}

/// Where a name goes among sorted names: after every name that is not greater.
pub open spec fn name_pos(ns: Seq<Seq<char>>, n: Seq<char>) -> nat
    decreases ns.len(),
{
    if ns.len() == 0 {
        0
    } else if text_lt(n, ns[0]) {
        0
    } else {
        1 + name_pos(ns.drop_first(), n)
    }
}

/// What `str::to_lowercase` returns for `s`: the full Unicode lower-case
/// mapping, a function of `s` alone.
pub uninterp spec fn unicode_lowercase(s: Seq<char>) -> Seq<char>;

// ---------------------------------------------------------------------------
// Trusted items
// ---------------------------------------------------------------------------

/// `str::to_lowercase`: the result is named `unicode_lowercase` of the
/// argument; nothing else is claimed of it.
#[verifier::external_body]
pub(crate) fn to_lowercase(s: &str) -> (r: String)
    ensures
        r@ == unicode_lowercase(s@),
{
    s.to_lowercase()
}

/// `String::from_iter` over characters: the string holds exactly `cs`.
#[verifier::external_body]
pub(crate) fn string_from_chars(cs: &[char]) -> (r: String)
    ensures
        r@ == cs@,
{
    String::from_iter(cs.iter())
}

// ---------------------------------------------------------------------------
// Verified helpers
// ---------------------------------------------------------------------------

/// The characters of `s`, in order.
pub fn chars_of(s: &str) -> (out: Vec<char>)
    ensures
        out@ == s@,
{
    let mut out: Vec<char> = Vec::new();
    for c in it: s.chars()
        invariant
            out@ == it.seq().take(it.index() as int),
    {
        out.push(c);
    }
    out
}

/// Tests `is_white_space`.
pub fn char_is_white_space(c: char) -> (r: bool)
    ensures
        r == is_white_space(c),
{
    let u = c as u32;
    (0x09 <= u && u <= 0x0D) || u == 0x20 || u == 0x85 || u == 0xA0 || u == 0x1680 || (0x2000
        <= u && u <= 0x200A) || u == 0x2028 || u == 0x2029 || u == 0x202F || u == 0x205F || u
        == 0x3000
}

/// Tests `is_control`.
pub fn char_is_control(c: char) -> (r: bool)
    ensures
        r == is_control(c),
{
    let u = c as u32;
    u <= 0x1F || (0x7F <= u && u <= 0x9F)
}

proof fn lemma_trim_start_skip(s: Seq<char>, i: int)
    requires
        0 <= i < s.len(),
        is_white_space(s[i]),
    ensures
        trim_start(s.subrange(i, s.len() as int)) == trim_start(
            s.subrange(i + 1, s.len() as int),
        ),
{
    assert(s.subrange(i, s.len() as int).drop_first() =~= s.subrange(i + 1, s.len() as int));
}

proof fn lemma_trim_end_take(s: Seq<char>, j: int)
    requires
        0 < j <= s.len(),
        is_white_space(s[j - 1]),
    ensures
        trim_end(s.subrange(0, j)) == trim_end(s.subrange(0, j - 1)),
{
    assert(s.subrange(0, j).drop_last() =~= s.subrange(0, j - 1));
}

/// `s` with white space removed from both ends (`str::trim`).
pub fn trim_chars(s: &Vec<char>) -> (r: Vec<char>)
    ensures
        r@ == trim(s@),
{
    let n = s.len();
    let mut i: usize = 0;
    assert(s@.subrange(0, n as int) =~= s@);
    while i < n && char_is_white_space(s[i])
        invariant
            n == s@.len(),
            i <= n,
            trim_start(s@) == trim_start(s@.subrange(i as int, n as int)),
        decreases n - i,
    {
        proof {
            lemma_trim_start_skip(s@, i as int);
        }
        i = i + 1;
    }
    let ghost front = s@.subrange(i as int, n as int);
    assert(trim_start(s@) == front) by {
        assert(trim_start(s@.subrange(i as int, n as int)) == s@.subrange(i as int, n as int));
    }
    let mut j: usize = n;
    while j > i && char_is_white_space(s[j - 1])
        invariant
            n == s@.len(),
            i <= j <= n,
            front == s@.subrange(i as int, n as int),
            trim_end(front) == trim_end(s@.subrange(i as int, j as int)),
        decreases j,
    {
        proof {
            let sub = s@.subrange(i as int, j as int);
            assert(sub[sub.len() - 1] == s@[j - 1]);
            lemma_trim_end_take(sub, (j - i) as int);
            assert(sub.subrange(0, (j - i) as int) =~= sub);
            assert(sub.subrange(0, (j - i - 1) as int) =~= s@.subrange(i as int, j - 1));
        }
        j = j - 1;
    }
    let mut r: Vec<char> = Vec::new();
    let mut k: usize = i;
    while k < j
        invariant
            n == s@.len(),
            i <= k <= j <= n,
            r@ == s@.subrange(i as int, k as int),
        decreases j - k,
    {
        r.push(s[k]);
        assert(r@ =~= s@.subrange(i as int, k + 1));
        k = k + 1;
    }
    assert(trim_end(s@.subrange(i as int, j as int)) == s@.subrange(i as int, j as int));
    r
}

/// Whether `p` occurs in `t` at position `i`.
pub fn occurs_at_exec(t: &Vec<char>, p: &Vec<char>, i: usize) -> (r: bool)
    ensures
        r == occurs_at(t@, p@, i as int),
{
    if p.len() > t.len() || i > t.len() - p.len() {
        return false;
    }
    let mut k: usize = 0;
    while k < p.len()
        invariant
            i + p@.len() <= t@.len(),
            i + p.len() <= t.len(),
            k <= p@.len(),
            forall|m: int| 0 <= m < k ==> t@[i + m] == p@[m],
        decreases p.len() - k,
    {
        if t[i + k] != p[k] {
            assert(t@.subrange(i as int, i + p@.len())[k as int] != p@[k as int]);
            return false;
        }
        k = k + 1;
    }
    assert(t@.subrange(i as int, i + p@.len()) =~= p@);
    true
}

/// Whether `p` is a substring of `t`.
pub fn contains_exec(t: &Vec<char>, p: &Vec<char>) -> (r: bool)
    ensures
        r == contains(t@, p@),
{
    if p.len() > t.len() {
        assert forall|i: int| !occurs_at(t@, p@, i) by {}
        return false;
    }
    let last = t.len() - p.len();
    let mut i: usize = 0;
    while i <= last
        invariant
            last == t@.len() - p@.len(),
            forall|m: int| 0 <= m < i ==> !occurs_at(t@, p@, m),
        decreases last + 1 - i,
    {
        if occurs_at_exec(t, p, i) {
            return true;
        }
        if i == last {
            assert forall|m: int| !occurs_at(t@, p@, m) by {}
            return false;
        }
        i = i + 1;
    }
    false
}

/// Whether `t` begins with `p`.
pub fn starts_with_exec(t: &Vec<char>, p: &Vec<char>) -> (r: bool)
    ensures
        r == starts_with(t@, p@),
{
    let r = occurs_at_exec(t, p, 0);
    assert(r == starts_with(t@, p@)) by {
        assert(t@.subrange(0, p@.len() as int) == t@.subrange(0, 0 + p@.len() as int));
    }
    r
}

/// `ascii_fold` in executable form.
pub fn fold_ascii(c: char) -> (r: u32)
    ensures
        r == ascii_fold(c),
{
    let u = c as u32;
    if 0x41 <= u && u <= 0x5A {
        u + 32
    } else {
        u
    }
}

/// `t LIKE p`, by dynamic programming over the suffixes of `p`.
pub fn like_exec(p: &Vec<char>, t: &Vec<char>) -> (r: bool)
    ensures
        r == like(p@, t@),
{
    let m = p.len();
    let n = t.len();
    // `next[k] == like_at(p, t, i, k)` for the row `i` built last
    let mut next: Vec<bool> = Vec::new();
    for j in 0..n
        invariant
            n == t@.len(),
            m == p@.len(),
            next@.len() == j,
            forall|k: int| 0 <= k < j ==> next@[k] == like_at(p@, t@, m as int, k),
    {
        next.push(false);
    }
    next.push(true);
    let mut i: usize = m;
    while i > 0
        invariant
            n == t@.len(),
            m == p@.len(),
            i <= m,
            next@.len() == n + 1,
            forall|k: int| 0 <= k <= n ==> next@[k] == like_at(p@, t@, i as int, k),
        decreases i,
    {
        let pi = p[i - 1];
        let mut cur: Vec<bool> = Vec::new();
        for c in 0..n
            invariant
                cur@.len() == c,
        {
            cur.push(false);
        }
        let last: bool = pi == '%' && next[n];
        assert(last == like_at(p@, t@, i - 1, n as int));
        cur.push(last);
        let mut jj: usize = n;
        while jj > 0
            invariant
                n == t@.len(),
                m == p@.len(),
                1 <= i <= m,
                pi == p@[i - 1],
                next@.len() == n + 1,
                cur@.len() == n + 1,
                jj <= n,
                forall|k: int| 0 <= k <= n ==> next@[k] == like_at(p@, t@, i as int, k),
                forall|k: int| jj <= k <= n ==> cur@[k] == like_at(p@, t@, i - 1, k),
            decreases jj,
        {
            let k = jj - 1;
            let v: bool = if pi == '%' {
                next[k] || cur[k + 1]
            } else {
                (pi == '_' || fold_ascii(pi) == fold_ascii(t[k])) && next[k + 1]
            };
            assert(v == like_at(p@, t@, i - 1, k as int));
            cur.set(k, v);
            jj = k;
        }
        next = cur;
        i = i - 1;
    }
    next[0]
}

/// The lower-case hexadecimal digit of `d`.
pub fn hex_digit_exec(d: u8) -> (r: char)
    requires
        d < 16,
    ensures
        r == hex_digit(d as int),
{
    match d {
        0 => '0',
        1 => '1',
        2 => '2',
        3 => '3',
        4 => '4',
        5 => '5',
        6 => '6',
        7 => '7',
        8 => '8',
        9 => '9',
        10 => 'a',
        11 => 'b',
        12 => 'c',
        13 => 'd',
        14 => 'e',
        _ => 'f',
    }
}

/// `hex_lower` in executable form.
pub fn hex_lower_exec(bytes: &[u8]) -> (r: String)
    ensures
        r@ == hex_lower(bytes@),
{
    let mut out: Vec<char> = Vec::new();
    let mut i: usize = 0;
    while i < bytes.len()
        invariant
            i <= bytes@.len(),
            out@ == hex_lower(bytes@.take(i as int)),
        decreases bytes.len() - i,
    {
        let b = bytes[i];
        out.push(hex_digit_exec(b / 16));
        out.push(hex_digit_exec(b % 16));
        assert(bytes@.take(i + 1).drop_last() =~= bytes@.take(i as int));
        assert(out@ =~= hex_lower(bytes@.take(i + 1)));
        i = i + 1;
    }
    assert(bytes@.take(i as int) =~= bytes@);
    string_from_chars(out.as_slice())
}

/// `decimal` in executable form, as characters.
pub fn decimal_chars(n: u32) -> (r: Vec<char>)
    ensures
        r@ == decimal(n as nat),
    decreases n,
{
    if n < 10 {
        let mut v: Vec<char> = Vec::new();
        v.push(hex_digit_exec(n as u8));
        v
    } else {
        let mut v = decimal_chars(n / 10);
        v.push(hex_digit_exec((n % 10) as u8));
        v
    }
}

pub proof fn lemma_text_lt_irreflexive(a: Seq<char>)
    ensures
        !text_lt(a, a),
    decreases a.len(),
{
    if a.len() > 0 {
        lemma_text_lt_irreflexive(a.drop_first());
    }
}

pub proof fn lemma_text_lt_transitive(a: Seq<char>, b: Seq<char>, c: Seq<char>)
    requires
        text_lt(a, b),
        text_lt(b, c),
    ensures
        text_lt(a, c),
    decreases a.len(),
{
    if a.len() > 0 && b.len() > 0 && c.len() > 0 {
        if a[0] == b[0] && b[0] == c[0] {
            lemma_text_lt_transitive(a.drop_first(), b.drop_first(), c.drop_first());
        }
    }
}

pub proof fn lemma_text_lt_total(a: Seq<char>, b: Seq<char>)
    ensures
        a == b || text_lt(a, b) || text_lt(b, a),
    decreases a.len(),
{
    if a.len() > 0 && b.len() > 0 && a[0] == b[0] {
        lemma_text_lt_total(a.drop_first(), b.drop_first());
        if a.drop_first() == b.drop_first() {
            assert forall|k: int| 0 <= k < a.len() implies a[k] == b[k] by {
                if k > 0 {
                    assert(a[k] == a.drop_first()[k - 1]);
                    assert(b[k] == b.drop_first()[k - 1]);
                }
            }
            assert(a =~= b);
        }
    } else if a.len() == 0 && b.len() == 0 {
        assert(a =~= b);
    } else if a.len() > 0 && b.len() > 0 {
        vstd::utf8::char_u32_cast(a[0], a[0] as u32);
        vstd::utf8::char_u32_cast(b[0], b[0] as u32);
        assert((a[0] as u32) != (b[0] as u32));
    }
}

pub proof fn lemma_text_lt_asymmetric(a: Seq<char>, b: Seq<char>)
    requires
        text_lt(a, b),
    ensures
        !text_lt(b, a),
{
    if text_lt(b, a) {
        lemma_text_lt_transitive(a, b, a);
        lemma_text_lt_irreflexive(a);
    }
}

/// Inserting a name at the place `name_pos` picks keeps the names sorted.
pub proof fn lemma_name_insert(ns: Seq<Seq<char>>, n: Seq<char>, p: int)
    requires
        names_sorted(ns),
        0 <= p <= ns.len(),
        forall|m: int| 0 <= m < p ==> !text_lt(n, #[trigger] ns[m]),
        p < ns.len() ==> text_lt(n, ns[p]),
    ensures
        name_pos(ns, n) == p,
        names_sorted(ns.insert(p, n)),
    decreases p,
{
    let t = ns.insert(p, n);
    assert forall|i: int, j: int| 0 <= i < j < t.len() implies !text_lt(t[j], t[i]) by {
        if j < p {
            assert(t[i] == ns[i] && t[j] == ns[j]);
        } else if i > p {
            assert(t[i] == ns[i - 1] && t[j] == ns[j - 1]);
        } else if i == p {
            assert(t[j] == ns[j - 1]);
            if j - 1 > p {
                lemma_text_lt_total(ns[p], ns[j - 1]);
                if text_lt(ns[p], ns[j - 1]) {
                    lemma_text_lt_transitive(n, ns[p], ns[j - 1]);
                }
            }
            lemma_text_lt_asymmetric(n, ns[j - 1]);
        } else if j == p {
            assert(t[i] == ns[i]);
        } else {
            assert(t[i] == ns[i] && t[j] == ns[j - 1]);
        }
    }
    if p > 0 {
        let rest = ns.drop_first();
        assert forall|m: int| 0 <= m < p - 1 implies !text_lt(n, #[trigger] rest[m]) by {
            assert(rest[m] == ns[m + 1]);
        }
        if p - 1 < rest.len() {
            assert(rest[p - 1] == ns[p]);
        }
        assert(names_sorted(rest)) by {
            assert forall|i: int, j: int| 0 <= i < j < rest.len() implies !text_lt(
                rest[j],
                rest[i],
            ) by {
                assert(rest[i] == ns[i + 1] && rest[j] == ns[j + 1]);
            }
        }
        lemma_name_insert(rest, n, p - 1);
    }
}

/// Removing a name keeps the names sorted.
pub proof fn lemma_name_remove(ns: Seq<Seq<char>>, k: int)
    requires
        names_sorted(ns),
        0 <= k < ns.len(),
    ensures
        names_sorted(ns.remove(k)),
{
    let t = ns.remove(k);
    assert forall|i: int, j: int| 0 <= i < j < t.len() implies !text_lt(t[j], t[i]) by {
        let oi = if i < k { i } else { i + 1 };
        let oj = if j < k { j } else { j + 1 };
        assert(t[i] == ns[oi] && t[j] == ns[oj]);
    }
}

/// Whether `a` sorts strictly before `b`.
pub fn text_less(a: &str, b: &str) -> (r: bool)
    ensures
        r == text_lt(a@, b@),
{
    let x = chars_of(a);
    let y = chars_of(b);
    let mut i: usize = 0;
    assert(x@.skip(0) =~= x@);
    assert(y@.skip(0) =~= y@);
    while i < x.len() && i < y.len() && x[i] == y[i]
        invariant
            i <= x@.len(),
            i <= y@.len(),
            text_lt(x@, y@) == text_lt(x@.skip(i as int), y@.skip(i as int)),
        decreases x.len() - i,
    {
        proof {
            assert(x@.skip(i as int).drop_first() =~= x@.skip(i + 1));
            assert(y@.skip(i as int).drop_first() =~= y@.skip(i + 1));
        }
        i = i + 1;
    }
    if i < x.len() {
        assert(x@.skip(i as int)[0] == x@[i as int]);
    }
    if i < y.len() {
        assert(y@.skip(i as int)[0] == y@[i as int]);
    }
    if i == x.len() {
        i < y.len()
    } else if i == y.len() {
        false
    } else {
        (x[i] as u32) < (y[i] as u32)
    }
}

/// `s` holds neither `%` nor `_`.
pub open spec fn no_wildcards(s: Seq<char>) -> bool {
    forall|m: int| 0 <= m < s.len() ==> s[m] != '%' && s[m] != '_'
}

/// `s` occurs in `t` at position `i`, up to ASCII case.
pub open spec fn occurs_folded_at(t: Seq<char>, s: Seq<char>, i: int) -> bool {
    &&& 0 <= i
    &&& i + s.len() <= t.len()
    &&& forall|m: int| 0 <= m < s.len() ==> like_char_eq(#[trigger] s[m], t[i + m])
}

proof fn lemma_like_tail(p: Seq<char>, t: Seq<char>, j: int)
    requires
        p.len() > 0,
        p.last() == '%',
        0 <= j <= t.len(),
    ensures
        like_at(p, t, p.len() - 1, j),
    decreases t.len() - j,
{
    assert(like_at(p, t, p.len() as int, t.len() as int));
    if j < t.len() {
        lemma_like_tail(p, t, j + 1);
    }
}

proof fn lemma_like_literal(s: Seq<char>, t: Seq<char>, i: int, j: int)
    requires
        no_wildcards(s),
        1 <= i <= s.len() + 1,
        0 <= j <= t.len(),
    ensures
        like_at(seq!['%'] + s + seq!['%'], t, i, j) <==> (j + (s.len() + 1 - i) <= t.len() && forall|
            m: int,
        |
            0 <= m < s.len() + 1 - i ==> like_char_eq(
                #[trigger] s[i - 1 + m],
                t[j + m],
            )),
    decreases s.len() + 1 - i,
{
    let p = seq!['%'] + s + seq!['%'];
    if i == s.len() + 1 {
        assert(p.last() == '%');
        lemma_like_tail(p, t, j);
    } else {
        assert(p[i] == s[i - 1]);
        if j < t.len() {
            lemma_like_literal(s, t, i + 1, j + 1);
            if like_at(p, t, i, j) {
                assert forall|m: int| 0 <= m < s.len() + 1 - i implies like_char_eq(
                    #[trigger] s[i - 1 + m],
                    t[j + m],
                ) by {
                    if m > 0 {
                        assert(s[i + (m - 1)] == s[i - 1 + m]);
                    }
                }
            } else {
                if j + (s.len() + 1 - i) <= t.len() && forall|m: int|
                    0 <= m < s.len() + 1 - i ==> like_char_eq(#[trigger] s[i - 1 + m], t[j + m]) {
                    assert(like_char_eq(s[i - 1 + 0], t[j + 0]));
                    assert forall|m: int| 0 <= m < s.len() + 1 - (i + 1) implies like_char_eq(
                        #[trigger] s[i + 1 - 1 + m],
                        t[j + 1 + m],
                    ) by {
                        assert(s[i - 1 + (m + 1)] == s[i + 1 - 1 + m]);
                    }
                }
            }
        }
    }
}

proof fn lemma_like_front(s: Seq<char>, t: Seq<char>, j: int)
    requires
        0 <= j <= t.len(),
    ensures
        like_at(seq!['%'] + s + seq!['%'], t, 0, j) <==> exists|k: int|
            j <= k <= t.len() && #[trigger] like_at(seq!['%'] + s + seq!['%'], t, 1, k),
    decreases t.len() - j,
{
    let p = seq!['%'] + s + seq!['%'];
    assert(p[0] == '%');
    if j < t.len() {
        lemma_like_front(s, t, j + 1);
    }
    if like_at(p, t, 0, j) {
        if like_at(p, t, 1, j) {
            assert(j <= j <= t.len() && like_at(p, t, 1, j));
        } else {
            assert(j < t.len() && like_at(p, t, 0, j + 1));
            let k = choose|k: int| j + 1 <= k <= t.len() && #[trigger] like_at(p, t, 1, k);
            assert(j <= k <= t.len() && like_at(p, t, 1, k));
        }
    }
}

/// Searching for a text without `%` or `_` finds exactly the texts that contain
/// it, up to ASCII case.
pub proof fn lemma_search_is_folded_substring(s: Seq<char>, t: Seq<char>)
    requires
        no_wildcards(s),
    ensures
        like(seq!['%'] + s + seq!['%'], t) <==> exists|i: int| occurs_folded_at(t, s, i),
{
    let p = seq!['%'] + s + seq!['%'];
    lemma_like_front(s, t, 0);
    if like(p, t) {
        let k = choose|k: int| 0 <= k <= t.len() && #[trigger] like_at(p, t, 1, k);
        lemma_like_literal(s, t, 1, k);
        assert forall|m: int| 0 <= m < s.len() implies like_char_eq(#[trigger] s[m], t[k + m]) by {
            assert(s[1 - 1 + m] == s[m]);
        }
        assert(occurs_folded_at(t, s, k));
    }
    if exists|i: int| occurs_folded_at(t, s, i) {
        let i = choose|i: int| occurs_folded_at(t, s, i);
        lemma_like_literal(s, t, 1, i);
        assert forall|m: int| 0 <= m < s.len() + 1 - 1 implies like_char_eq(
            #[trigger] s[1 - 1 + m],
            t[i + m],
        ) by {
            assert(s[1 - 1 + m] == s[m]);
        }
        assert(like_at(p, t, 1, i));
    }
}

/// Every character of `w` is white space.
pub open spec fn all_white_space(w: Seq<char>) -> bool {
    forall|i: int| 0 <= i < w.len() ==> is_white_space(#[trigger] w[i])
}

proof fn lemma_trim_start_white(w: Seq<char>)
    requires
        all_white_space(w),
    ensures
        trim_start(w).len() == 0,
    decreases w.len(),
{
    if w.len() > 0 {
        assert(is_white_space(w[0]));
        assert(all_white_space(w.drop_first())) by {
            assert forall|i: int| 0 <= i < w.drop_first().len() implies is_white_space(
                #[trigger] w.drop_first()[i],
            ) by {
                assert(w.drop_first()[i] == w[i + 1]);
            }
        }
        lemma_trim_start_white(w.drop_first());
    }
}

proof fn lemma_trim_start_append(t: Seq<char>, w: Seq<char>)
    ensures
        trim_start(t + w) == if trim_start(t).len() > 0 {
            trim_start(t) + w
        } else {
            trim_start(w)
        },
    decreases t.len(),
{
    if t.len() == 0 {
        assert(t + w =~= w);
    } else {
        assert((t + w)[0] == t[0]);
        if is_white_space(t[0]) {
            assert((t + w).drop_first() =~= t.drop_first() + w);
            lemma_trim_start_append(t.drop_first(), w);
        }
    }
}

proof fn lemma_trim_end_pad(t: Seq<char>, w: Seq<char>)
    requires
        all_white_space(w),
    ensures
        trim_end(t + w) == trim_end(t),
    decreases w.len(),
{
    if w.len() == 0 {
        assert(t + w =~= t);
    } else {
        assert((t + w).last() == w.last());
        assert(is_white_space(w[w.len() - 1]));
        assert((t + w).drop_last() =~= t + w.drop_last());
        assert(all_white_space(w.drop_last())) by {
            assert forall|i: int| 0 <= i < w.drop_last().len() implies is_white_space(
                #[trigger] w.drop_last()[i],
            ) by {
                assert(w.drop_last()[i] == w[i]);
            }
        }
        lemma_trim_end_pad(t, w.drop_last());
    }
}

/// White space added at either end of a text does not change its trimmed form.
pub proof fn lemma_trim_ignores_padding(w1: Seq<char>, t: Seq<char>, w2: Seq<char>)
    requires
        all_white_space(w1),
        all_white_space(w2),
    ensures
        trim(w1 + t + w2) == trim(t),
{
    assert(w1 + t + w2 =~= w1 + (t + w2));
    lemma_trim_start_append(w1, t + w2);
    lemma_trim_start_white(w1);
    lemma_trim_start_append(t, w2);
    if trim_start(t).len() > 0 {
        lemma_trim_end_pad(trim_start(t), w2);
    } else {
        lemma_trim_start_white(w2);
        assert(trim_end(trim_start(t)) == trim_start(t));
        assert(trim_end(trim_start(w2)) == trim_start(w2));
        assert(trim_start(t) =~= trim_start(w2));
    }
}

} // verus!
