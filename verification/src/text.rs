//! Text as sequences of characters: whitespace, trimming, searching,
//! splitting and joining, with their meaning stated as spec functions.
use vstd::prelude::*;
use vstd::string::*;

verus! {

// ---------------------------------------------------------------------------
// Whitespace
// ---------------------------------------------------------------------------

/// The characters with the Unicode `White_Space` property, which is what
/// `char::is_whitespace` and `str::trim` go by.
pub open spec fn is_ws(c: char) -> bool {
    let v = c as u32;
    ||| 0x9 <= v <= 0xd
    ||| v == 0x20
    ||| v == 0x85
    ||| v == 0xa0
    ||| v == 0x1680
    ||| 0x2000 <= v <= 0x200a
    ||| v == 0x2028
    ||| v == 0x2029
    ||| v == 0x202f
    ||| v == 0x205f
    ||| v == 0x3000
}

pub fn is_whitespace(c: char) -> (r: bool)
    ensures
        r == is_ws(c),
{
    let v = c as u32;
    (0x9 <= v && v <= 0xd) || v == 0x20 || v == 0x85 || v == 0xa0 || v == 0x1680 || (0x2000 <= v
        && v <= 0x200a) || v == 0x2028 || v == 0x2029 || v == 0x202f || v == 0x205f || v == 0x3000
}

pub open spec fn trim_start(s: Seq<char>) -> Seq<char>
    decreases s.len(),
{
    if s.len() > 0 && is_ws(s[0]) {
        trim_start(s.drop_first())
    } else {
        s
    }
}

pub open spec fn trim_end(s: Seq<char>) -> Seq<char>
    decreases s.len(),
{
    if s.len() > 0 && is_ws(s.last()) {
        trim_end(s.drop_last())
    } else {
        s
    }
}

/// `str::trim`: the text without leading and trailing whitespace.
pub open spec fn trim(s: Seq<char>) -> Seq<char> {
    trim_end(trim_start(s))
}

pub proof fn lemma_trim_start_len(s: Seq<char>)
    ensures
        trim_start(s).len() <= s.len(),
        trim_start(s).len() > 0 ==> !is_ws(trim_start(s)[0]),
        s.len() > 0 && !is_ws(s[0]) ==> trim_start(s) == s,
        exists|k: int| 0 <= k <= s.len() && trim_start(s) == s.skip(k),
    decreases s.len(),
{
    if s.len() > 0 && is_ws(s[0]) {
        lemma_trim_start_len(s.drop_first());
        let k = choose|k: int|
            0 <= k <= s.drop_first().len() && trim_start(s.drop_first()) == s.drop_first().skip(
                k,
            );
        assert(s.drop_first().skip(k) =~= s.skip(k + 1));
    } else {
        assert(s.skip(0) =~= s);
    }
}

pub proof fn lemma_trim_end_len(s: Seq<char>)
    ensures
        trim_end(s).len() <= s.len(),
        trim_end(s).len() > 0 ==> !is_ws(trim_end(s).last()),
        exists|k: int| 0 <= k <= s.len() && trim_end(s) == s.take(k),
    decreases s.len(),
{
    if s.len() > 0 && is_ws(s.last()) {
        lemma_trim_end_len(s.drop_last());
        let k = choose|k: int|
            0 <= k <= s.drop_last().len() && trim_end(s.drop_last()) == s.drop_last().take(k);
        assert(s.drop_last().take(k) =~= s.take(k));
    } else {
        assert(s.take(s.len() as int) =~= s);
    }
}

proof fn lemma_trim_start_idempotent(s: Seq<char>)
    ensures
        trim_start(trim_start(s)) == trim_start(s),
    decreases s.len(),
{
    if s.len() > 0 && is_ws(s[0]) {
        lemma_trim_start_idempotent(s.drop_first());
    }
}

proof fn lemma_trim_end_idempotent(s: Seq<char>)
    ensures
        trim_end(trim_end(s)) == trim_end(s),
    decreases s.len(),
{
    if s.len() > 0 && is_ws(s.last()) {
        lemma_trim_end_idempotent(s.drop_last());
    }
}

/// Trimming after `trim_end` starts no further than before.
proof fn lemma_trim_start_of_trim_end(s: Seq<char>)
    requires
        s.len() == 0 || !is_ws(s[0]),
    ensures
        trim_end(s).len() == 0 || !is_ws(trim_end(s)[0]),
    decreases s.len(),
{
    if s.len() > 0 && is_ws(s.last()) {
        if s.len() > 1 {
            assert(s.drop_last()[0] == s[0]);
        }
        lemma_trim_start_of_trim_end(s.drop_last());
    }
}

/// Trimming twice is trimming once.
pub proof fn lemma_trim_idempotent(s: Seq<char>)
    ensures
        trim(trim(s)) == trim(s),
{
    let t = trim_start(s);
    lemma_trim_start_len(s);
    lemma_trim_start_of_trim_end(t);
    let u = trim_end(t);
    if u.len() > 0 {
        assert(!is_ws(u[0]));
    }
    assert(trim_start(u) == u);
    lemma_trim_end_idempotent(t);
}

/// The index of the first character that `trim_start` keeps.
pub fn trim_start_index(v: &Vec<char>, from: usize) -> (i: usize)
    requires
        from <= v.len(),
    ensures
        from <= i <= v.len(),
        trim_start(v@.skip(from as int)) == v@.skip(i as int),
{
    let n = v.len();
    let mut i = from;
    while i < n && is_whitespace(v[i])
        invariant
            n == v.len(),
            from <= i <= n,
            trim_start(v@.skip(from as int)) == trim_start(v@.skip(i as int)),
        decreases n - i,
    {
        assert(v@.skip(i as int).drop_first() =~= v@.skip(i + 1));
        i = i + 1;
    }
    i
}

/// `str::trim` on a sequence of characters.
pub fn trim_chars(v: &Vec<char>) -> (r: Vec<char>)
    ensures
        r@ == trim(v@),
{
    let n = v.len();
    assert(v@.skip(0) =~= v@);
    let i = trim_start_index(v, 0);
    let mut j = n;
    assert(v@.subrange(i as int, n as int) =~= v@.skip(i as int));
    while j > i && is_whitespace(v[j - 1])
        invariant
            n == v.len(),
            i <= j <= n,
            trim_start(v@) == v@.skip(i as int),
            trim_end(v@.skip(i as int)) == trim_end(v@.subrange(i as int, j as int)),
        decreases j,
    {
        assert(v@.subrange(i as int, j as int).drop_last() =~= v@.subrange(
            i as int,
            j as int - 1,
        ));
        j = j - 1;
    }
    subvec(v, i, j)
}

// ---------------------------------------------------------------------------
// Building and comparing
// ---------------------------------------------------------------------------

/// Appends the characters of `s` to `v`.
pub fn push_str(v: &mut Vec<char>, s: &str)
    ensures
        final(v)@ == old(v)@ + s@,
{
    let n = s.unicode_len();
    let mut i: usize = 0;
    while i < n
        invariant
            n == s@.len(),
            i <= n,
            v@ == old(v)@ + s@.take(i as int),
        decreases n - i,
    {
        v.push(s.get_char(i));
        i = i + 1;
        assert(s@.take(i as int) =~= s@.take((i - 1) as int).push(s@[i - 1]));
    }
    assert(s@.take(n as int) =~= s@);
}

/// Appends the characters of `w` to `v`.
pub fn push_chars(v: &mut Vec<char>, w: &Vec<char>)
    ensures
        final(v)@ == old(v)@ + w@,
{
    let n = w.len();
    let mut i: usize = 0;
    while i < n
        invariant
            n == w.len(),
            i <= n,
            v@ == old(v)@ + w@.take(i as int),
        decreases n - i,
    {
        v.push(w[i]);
        i = i + 1;
        assert(w@.take(i as int) =~= w@.take((i - 1) as int).push(w@[i - 1]));
    }
    assert(w@.take(n as int) =~= w@);
}

/// The characters of a string slice.
pub fn lit(s: &str) -> (r: Vec<char>)
    ensures
        r@ == s@,
{
    let mut v: Vec<char> = Vec::new();
    push_str(&mut v, s);
    assert(v@ =~= s@);
    v
}

/// A copy of `v@.subrange(a, b)`.
pub fn subvec(v: &Vec<char>, a: usize, b: usize) -> (r: Vec<char>)
    requires
        a <= b <= v.len(),
    ensures
        r@ == v@.subrange(a as int, b as int),
{
    let mut r: Vec<char> = Vec::new();
    let mut i = a;
    while i < b
        invariant
            a <= i <= b <= v.len(),
            r@ == v@.subrange(a as int, i as int),
        decreases b - i,
    {
        r.push(v[i]);
        i = i + 1;
        assert(r@ =~= v@.subrange(a as int, i as int));
    }
    r
}

/// A copy of a character sequence.
pub fn copy_chars(v: &Vec<char>) -> (r: Vec<char>)
    ensures
        r@ == v@,
{
    let r = subvec(v, 0, v.len());
    assert(r@ =~= v@);
    r
}

pub fn chars_eq(a: &Vec<char>, b: &Vec<char>) -> (r: bool)
    ensures
        r == (a@ == b@),
{
    if a.len() != b.len() {
        return false;
    }
    let n = a.len();
    let mut i: usize = 0;
    while i < n
        invariant
            n == a.len() == b.len(),
            i <= n,
            forall|k: int| 0 <= k < i ==> a@[k] == b@[k],
        decreases n - i,
    {
        if a[i] != b[i] {
            return false;
        }
        i = i + 1;
    }
    assert(a@ =~= b@);
    true
}

/// Whether the characters of `v` are those of the literal `s`.
pub fn eq_str(v: &Vec<char>, s: &str) -> (r: bool)
    ensures
        r == (v@ == s@),
{
    let w = lit(s);
    chars_eq(v, &w)
}

// ---------------------------------------------------------------------------
// Searching
// ---------------------------------------------------------------------------

pub open spec fn occurs_at(s: Seq<char>, p: Seq<char>, i: int) -> bool {
    0 <= i && i + p.len() <= s.len() && s.subrange(i, i + p.len()) == p
}

/// The first position at or after `i` where `p` occurs in `s`.
pub open spec fn find_from(s: Seq<char>, p: Seq<char>, i: int) -> Option<int>
    decreases s.len() + 1 - i,
{
    if i < 0 || i + p.len() > s.len() {
        None
    } else if occurs_at(s, p, i) {
        Some(i)
    } else {
        find_from(s, p, i + 1)
    }
}

/// `str::find` with a string pattern, counted in characters.
pub open spec fn find(s: Seq<char>, p: Seq<char>) -> Option<int> {
    find_from(s, p, 0)
}

/// `str::contains` with a string pattern.
pub open spec fn contains(s: Seq<char>, p: Seq<char>) -> bool {
    find(s, p) is Some
}

/// `str::starts_with` with a string pattern.
pub open spec fn starts_with(s: Seq<char>, p: Seq<char>) -> bool {
    p.len() <= s.len() && s.take(p.len() as int) == p
}

pub proof fn lemma_find_from_occurs(s: Seq<char>, p: Seq<char>, i: int)
    requires
        0 <= i,
    ensures
        find_from(s, p, i) matches Some(k) ==> i <= k && occurs_at(s, p, k),
        (exists|k: int| i <= k && occurs_at(s, p, k)) ==> find_from(s, p, i) is Some,
    decreases s.len() + 1 - i,
{
    if i < 0 || i + p.len() > s.len() {
        if exists|k: int| i <= k && occurs_at(s, p, k) {
            let k = choose|k: int| i <= k && occurs_at(s, p, k);
            if i >= 0 {
                assert(false);
            }
        }
    } else if occurs_at(s, p, i) {
    } else {
        lemma_find_from_occurs(s, p, i + 1);
        if exists|k: int| i <= k && occurs_at(s, p, k) {
            let k = choose|k: int| i <= k && occurs_at(s, p, k);
            assert(k != i);
            assert(i + 1 <= k && occurs_at(s, p, k));
        }
    }
}

/// Whether `p` occurs in `s` at position `i`.
pub fn matches_at(s: &Vec<char>, p: &Vec<char>, i: usize) -> (r: bool)
    ensures
        r == occurs_at(s@, p@, i as int),
{
    if i > s.len() || p.len() > s.len() - i {
        return false;
    }
    let m = p.len();
    let mut k: usize = 0;
    while k < m
        invariant
            m == p.len(),
            i + m <= s.len(),
            k <= m,
            forall|t: int| 0 <= t < k ==> s@[i + t] == p@[t],
        decreases m - k,
    {
        if s[i + k] != p[k] {
            assert(s@.subrange(i as int, i + m)[k as int] != p@[k as int]);
            return false;
        }
        k = k + 1;
    }
    assert(s@.subrange(i as int, i + m) =~= p@);
    true
}

/// `str::find`, counted in characters.
pub fn find_chars(s: &Vec<char>, p: &Vec<char>) -> (r: Option<usize>)
    ensures
        r matches Some(k) ==> find(s@, p@) == Some(k as int),
        r is None ==> find(s@, p@) is None,
{
    if p.len() > s.len() {
        return None;
    }
    let last = s.len() - p.len();
    let mut i: usize = 0;
    loop
        invariant
            last + p.len() == s.len(),
            i <= last,
            find(s@, p@) == find_from(s@, p@, i as int),
        decreases last - i,
    {
        if matches_at(s, p, i) {
            return Some(i);
        }
        if i == last {
            assert(find_from(s@, p@, i + 1) is None);
            return None;
        }
        i = i + 1;
    }
}

/// Whether `p` occurs in `s`.
pub fn contains_chars(s: &Vec<char>, p: &Vec<char>) -> (r: bool)
    ensures
        r == contains(s@, p@),
{
    find_chars(s, p).is_some()
}

/// `str::contains` with a literal pattern.
pub fn contains_str(s: &Vec<char>, p: &str) -> (r: bool)
    ensures
        r == contains(s@, p@),
{
    let w = lit(p);
    contains_chars(s, &w)
}

/// `str::starts_with` with a literal pattern.
pub fn starts_with_str(s: &Vec<char>, p: &str) -> (r: bool)
    ensures
        r == starts_with(s@, p@),
{
    let w = lit(p);
    if w.len() > s.len() {
        return false;
    }
    let r = matches_at(s, &w, 0);
    assert(s@.subrange(0, w@.len() as int) =~= s@.take(w@.len() as int));
    r
}

// ---------------------------------------------------------------------------
// Lengths
// ---------------------------------------------------------------------------

/// The number of bytes of a character in UTF-8.
pub open spec fn utf8_width(c: char) -> nat {
    let v = c as u32;
    if v < 0x80 {
        1
    } else if v < 0x800 {
        2
    } else if v < 0x10000 {
        3
    } else {
        4
    }
}

/// `str::len`: the number of bytes of the text in UTF-8.
pub open spec fn utf8_len(s: Seq<char>) -> nat
    decreases s.len(),
{
    if s.len() == 0 {
        0
    } else {
        utf8_len(s.drop_last()) + utf8_width(s.last())
    }
}

pub proof fn lemma_utf8_len_bounds(s: Seq<char>)
    ensures
        s.len() <= utf8_len(s) <= 4 * s.len(),
    decreases s.len(),
{
    if s.len() > 0 {
        lemma_utf8_len_bounds(s.drop_last());
    }
}

/// The length in bytes of the UTF-8 encoding of `v`.
pub fn utf8_len_of(v: &Vec<char>) -> (r: u128)
    ensures
        r == utf8_len(v@),
{
    let n = v.len();
    let mut total: u128 = 0;
    let mut i: usize = 0;
    while i < n
        invariant
            n == v.len(),
            i <= n,
            total == utf8_len(v@.take(i as int)),
            total <= 4 * i,
        decreases n - i,
    {
        let c = v[i];
        let x = c as u32;
        let w: u128 = if x < 0x80 {
            1
        } else if x < 0x800 {
            2
        } else if x < 0x10000 {
            3
        } else {
            4
        };
        assert(v@.take(i + 1).drop_last() =~= v@.take(i as int));
        total = total + w;
        i = i + 1;
    }
    assert(v@.take(n as int) =~= v@);
    total
}

// ---------------------------------------------------------------------------
// Joining, repeating, removing
// ---------------------------------------------------------------------------

/// The texts held by a vector of character vectors.
pub open spec fn views(v: &Vec<Vec<char>>) -> Seq<Seq<char>> {
    v@.map_values(|x: Vec<char>| x@)
}

/// `[T]::join`: the parts with `sep` between each two of them.
pub open spec fn join(parts: Seq<Seq<char>>, sep: Seq<char>) -> Seq<char>
    decreases parts.len(),
{
    if parts.len() == 0 {
        seq![]
    } else if parts.len() == 1 {
        parts[0]
    } else {
        join(parts.drop_last(), sep) + sep + parts.last()
    }
}

/// The parts with `sep` between each two of them.
pub fn join_chars(parts: &Vec<Vec<char>>, sep: &str) -> (r: Vec<char>)
    ensures
        r@ == join(views(parts), sep@),
{
    let n = parts.len();
    let mut r: Vec<char> = Vec::new();
    let mut i: usize = 0;
    while i < n
        invariant
            n == parts.len(),
            i <= n,
            r@ == join(views(parts).take(i as int), sep@),
        decreases n - i,
    {
        let ghost pv = views(parts);
        assert(pv.take(i + 1).drop_last() =~= pv.take(i as int));
        if i > 0 {
            push_str(&mut r, sep);
        } else {
            assert(r@ =~= seq![]);
        }
        push_chars(&mut r, &parts[i]);
        i = i + 1;
        assert(pv.take(i as int).last() == pv[i - 1]);
        if i == 1 {
            assert(r@ =~= pv.take(1)[0]);
        }
    }
    assert(views(parts).take(n as int) =~= views(parts));
    r
}

/// `s` repeated `n` times, one copy after another.
pub open spec fn repeat(s: Seq<char>, n: nat) -> Seq<char>
    decreases n,
{
    if n == 0 {
        seq![]
    } else {
        repeat(s, (n - 1) as nat) + s
    }
}

/// `str::repeat` with a literal.
pub fn repeat_str(s: &str, n: usize) -> (r: Vec<char>)
    ensures
        r@ == repeat(s@, n as nat),
{
    let mut r: Vec<char> = Vec::new();
    let mut i: usize = 0;
    while i < n
        invariant
            i <= n,
            r@ == repeat(s@, i as nat),
        decreases n - i,
    {
        push_str(&mut r, s);
        i = i + 1;
    }
    r
}

/// `str::replace(s, p, "")`: every occurrence of `p`, taken from left to
/// right without overlap, removed.
pub open spec fn remove_all(s: Seq<char>, p: Seq<char>) -> Seq<char>
    decreases s.len(),
{
    if p.len() == 0 || s.len() < p.len() {
        s
    } else if s.take(p.len() as int) == p {
        remove_all(s.skip(p.len() as int), p)
    } else {
        seq![s[0]] + remove_all(s.drop_first(), p)
    }
}

/// `s` with every occurrence of `p`, from left to right, removed.
pub fn remove_all_chars(s: &Vec<char>, p: &Vec<char>) -> (r: Vec<char>)
    ensures
        r@ == remove_all(s@, p@),
{
    let n = s.len();
    let m = p.len();
    if m == 0 {
        return copy_chars(s);
    }
    let mut r: Vec<char> = Vec::new();
    let mut i: usize = 0;
    assert(s@.skip(0) =~= s@);
    while i < n
        invariant
            n == s.len(),
            m == p.len(),
            m > 0,
            i <= n,
            remove_all(s@, p@) == r@ + remove_all(s@.skip(i as int), p@),
        decreases n - i,
    {
        let ghost rest = s@.skip(i as int);
        if m <= n - i && matches_at(s, p, i) {
            assert(rest.take(m as int) =~= s@.subrange(i as int, i + m));
            assert(rest.skip(m as int) =~= s@.skip(i + m));
            i = i + m;
        } else {
            if m <= n - i {
                assert(rest.take(m as int) =~= s@.subrange(i as int, i + m));
            }
            assert(rest.drop_first() =~= s@.skip(i + 1));
            assert(rest[0] == s@[i as int]);
            r.push(s[i]);
            i = i + 1;
        }
    }
    assert(s@.skip(n as int) =~= Seq::<char>::empty());
    assert(r@ + Seq::<char>::empty() =~= r@);
    r
}

// ---------------------------------------------------------------------------
// Words and lines
// ---------------------------------------------------------------------------

/// The number of leading characters of `s` that are not whitespace.
pub open spec fn word_len(s: Seq<char>) -> nat
    decreases s.len(),
{
    if s.len() > 0 && !is_ws(s[0]) {
        1 + word_len(s.drop_first())
    } else {
        0
    }
}

pub proof fn lemma_word_len(s: Seq<char>)
    ensures
        word_len(s) <= s.len(),
        forall|k: int| 0 <= k < word_len(s) ==> !is_ws(#[trigger] s[k]),
        word_len(s) < s.len() ==> is_ws(s[word_len(s) as int]),
        s.len() > 0 && !is_ws(s[0]) ==> word_len(s) > 0,
    decreases s.len(),
{
    if s.len() > 0 && !is_ws(s[0]) {
        lemma_word_len(s.drop_first());
        assert forall|k: int| 0 <= k < word_len(s) implies !is_ws(#[trigger] s[k]) by {
            if k > 0 {
                assert(s[k] == s.drop_first()[k - 1]);
            }
        }
        if word_len(s) < s.len() {
            assert(s[word_len(s) as int] == s.drop_first()[word_len(s.drop_first()) as int]);
        }
    }
}

/// The whitespace-separated words of a text, in order
/// (`str::split_whitespace`).
pub open spec fn words(s: Seq<char>) -> Seq<Seq<char>>
    decreases s.len(),
{
    let t = trim_start(s);
    if t.len() == 0 {
        seq![]
    } else {
        let k = word_len(t);
        if 0 < k <= t.len() <= s.len() {
            seq![t.take(k as int)] + words(t.skip(k as int))
        } else {
            seq![]
        }
    }
}

/// The number of leading characters of `v@.skip(from)` that are not
/// whitespace.
pub fn word_end(v: &Vec<char>, from: usize) -> (j: usize)
    requires
        from <= v.len(),
    ensures
        from <= j <= v.len(),
        j - from == word_len(v@.skip(from as int)),
{
    let n = v.len();
    let mut j = from;
    while j < n && !is_whitespace(v[j])
        invariant
            n == v.len(),
            from <= j <= n,
            word_len(v@.skip(from as int)) == (j - from) + word_len(v@.skip(j as int)),
        decreases n - j,
    {
        assert(v@.skip(j as int).drop_first() =~= v@.skip(j + 1));
        j = j + 1;
    }
    j
}

/// The whitespace-separated words of a text, in order.
pub fn words_of(v: &Vec<char>) -> (r: Vec<Vec<char>>)
    ensures
        views(&r) == words(v@),
{
    let n = v.len();
    let mut r: Vec<Vec<char>> = Vec::new();
    let mut i: usize = 0;
    assert(v@.skip(0) =~= v@);
    while i < n
        invariant
            n == v.len(),
            i <= n,
            words(v@) == views(&r) + words(v@.skip(i as int)),
        decreases n - i,
    {
        let start = trim_start_index(v, i);
        proof {
            lemma_trim_start_len(v@.skip(i as int));
        }
        if start == n {
            assert(v@.skip(n as int).len() == 0);
            assert(words(v@.skip(i as int)) =~= seq![]);
            i = n;
            assert(words(v@.skip(i as int)) =~= seq![]);
        } else {
            let end = word_end(v, start);
            let ghost t = v@.skip(start as int);
            proof {
                lemma_word_len(t);
                assert(t[0] == v@[start as int]);
            }
            let w = subvec(v, start, end);
            assert(t.take(word_len(t) as int) =~= w@);
            assert(t.skip(word_len(t) as int) =~= v@.skip(end as int));
            let ghost before = views(&r);
            r.push(w);
            assert(views(&r) =~= before.push(w@));
            assert(words(v@.skip(i as int)) == seq![w@] + words(v@.skip(end as int)));
            assert(before + (seq![w@] + words(v@.skip(end as int))) =~= before.push(w@) + words(
                v@.skip(end as int),
            ));
            i = end;
        }
    }
    assert(words(v@.skip(n as int)) =~= seq![]) by {
        assert(v@.skip(n as int).len() == 0);
    }
    assert(views(&r) + Seq::<Seq<char>>::empty() =~= views(&r));
    r
}

/// A line as `str::lines` hands it out: without the `\r` of a `\r\n` ending.
pub open spec fn strip_cr(s: Seq<char>) -> Seq<char> {
    if s.len() > 0 && s.last() == '\r' {
        s.drop_last()
    } else {
        s
    }
}

/// The lines of a text (`str::lines`).
pub open spec fn lines(s: Seq<char>) -> Seq<Seq<char>>
    decreases s.len(),
{
    if s.len() == 0 {
        seq![]
    } else {
        match find(s, seq!['\n']) {
            Some(i) => if 0 <= i < s.len() {
                seq![strip_cr(s.take(i))] + lines(s.skip(i + 1))
            } else {
                seq![]
            },
            None => seq![s],
        }
    }
}

/// The lines of a text, split at line feeds, a carriage return before a
/// line feed dropped.
pub fn lines_of(v: &Vec<char>) -> (r: Vec<Vec<char>>)
    ensures
        views(&r) == lines(v@),
{
    let n = v.len();
    let mut r: Vec<Vec<char>> = Vec::new();
    let mut i: usize = 0;
    let nl = lit("\n");
    proof {
        reveal_strlit("\n");
    }
    assert(nl@ =~= seq!['\n']);
    assert(v@.skip(0) =~= v@);
    while i < n
        invariant
            n == v.len(),
            i <= n,
            nl@ == seq!['\n'],
            lines(v@) == views(&r) + lines(v@.skip(i as int)),
        decreases n - i,
    {
        let ghost rest = v@.skip(i as int);
        let mut j = i;
        while j < n && v[j] != '\n'
            invariant
                n == v.len(),
                i <= j <= n,
                forall|k: int| i <= k < j ==> v@[k] != '\n',
            decreases n - j,
        {
            j = j + 1;
        }
        proof {
            assert forall|k: int| 0 <= k < j - i implies !occurs_at(rest, seq!['\n'], k) by {
                if occurs_at(rest, seq!['\n'], k) {
                    assert(rest.subrange(k, k + 1)[0] == rest[k]);
                    assert(rest[k] == v@[i + k]);
                }
            }
            lemma_find_scan(rest, (j - i) as int);
        }
        let mut line = subvec(v, i, j);
        if j < n && line.len() > 0 && line[line.len() - 1] == '\r' {
            line.pop();
        }
        let ghost before = views(&r);
        if j == n {
            assert(find(rest, seq!['\n']) is None);
            assert(v@.subrange(i as int, j as int) =~= rest);
            r.push(line);
            assert(views(&r) =~= before.push(line@));
            assert(lines(rest) == seq![rest]);
            assert(v@.skip(n as int).len() == 0);
            assert(lines(v@.skip(n as int)) =~= seq![]);
            assert(before + seq![rest] =~= views(&r) + lines(v@.skip(n as int)));
            i = n;
        } else {
            assert(rest.subrange(j - i, j - i + 1) =~= seq![v@[j as int]]);
            assert(occurs_at(rest, seq!['\n'], j - i));
            assert(find(rest, seq!['\n']) == Some((j - i) as int));
            assert(rest.take(j - i) =~= v@.subrange(i as int, j as int));
            assert(rest.skip(j - i + 1) =~= v@.skip(j + 1));
            r.push(line);
            assert(views(&r) =~= before.push(line@));
            assert(before + (seq![line@] + lines(v@.skip(j + 1))) =~= before.push(line@) + lines(
                v@.skip(j + 1),
            ));
            i = j + 1;
        }
    }
    assert(lines(v@.skip(n as int)) =~= seq![]) by {
        assert(v@.skip(n as int).len() == 0);
    }
    assert(views(&r) + Seq::<Seq<char>>::empty() =~= views(&r));
    r
}

/// A scan that found no occurrence before `j` and then either reached the
/// end or found one at `j` determines `find`.
proof fn lemma_find_scan(s: Seq<char>, j: int)
    requires
        0 <= j <= s.len(),
        forall|k: int| 0 <= k < j ==> !occurs_at(s, seq!['\n'], k),
    ensures
        j == s.len() ==> find(s, seq!['\n']) is None,
        j < s.len() && occurs_at(s, seq!['\n'], j) ==> find(s, seq!['\n']) == Some(j),
{
    lemma_find_from_prefix(s, seq!['\n'], 0, j);
    if j == s.len() {
        assert(find_from(s, seq!['\n'], j) is None);
    }
}

proof fn lemma_find_from_prefix(s: Seq<char>, p: Seq<char>, i: int, j: int)
    requires
        0 <= i <= j,
        j + p.len() <= s.len() + 1,
        forall|k: int| i <= k < j ==> !occurs_at(s, p, k),
    ensures
        find_from(s, p, i) == find_from(s, p, j),
    decreases j - i,
{
    if i < j {
        lemma_find_from_prefix(s, p, i + 1, j);
    }
}

// ---------------------------------------------------------------------------
// Conversions and Unicode facts of std
// ---------------------------------------------------------------------------

/// Names what `str::to_lowercase` returns for a text.
pub uninterp spec fn lowercase(s: Seq<char>) -> Seq<char>;

/// Names what `char::is_alphanumeric` returns for a character.
pub uninterp spec fn is_alphanumeric(c: char) -> bool;

/// Calls `str::to_lowercase` on the text; the result is named `lowercase`.
#[verifier::external_body]
pub(crate) fn to_lowercase(v: &Vec<char>) -> (r: Vec<char>)
    ensures
        r@ == lowercase(v@),
{
    let s: String = v.iter().collect();
    s.to_lowercase().chars().collect()
}

/// Calls `char::is_alphanumeric`; the result is named `is_alphanumeric`.
#[verifier::external_body]
pub(crate) fn char_is_alphanumeric(c: char) -> (r: bool)
    ensures
        r == is_alphanumeric(c),
{
    c.is_alphanumeric()
}

/// Collects the characters of a string slice (`str::chars`); the result is
/// the slice's own sequence of characters.
#[verifier::external_body]
pub(crate) fn chars_of(s: &str) -> (r: Vec<char>)
    ensures
        r@ == s@,
{
    s.chars().collect()
}

/// Collects characters into a `String` (`FromIterator<char>`); the string
/// holds exactly those characters.
#[verifier::external_body]
pub(crate) fn string_of(v: &Vec<char>) -> (r: String)
    ensures
        r@ == v@,
{
    v.iter().collect()
}

} // verus!
