//! Deduplication of the extracted items and the layout of the Markdown
//! output.
use vstd::prelude::*;
use crate::pattern::{apply_regex, replace_or_keep};
use crate::text::{
    chars_eq, contains, contains_chars, contains_str, copy_chars, eq_str, is_whitespace, is_ws,
    join, join_chars, lemma_trim_idempotent, lowercase, push_chars, push_str, repeat, starts_with, starts_with_str,
    subvec, to_lowercase, trim, trim_chars, utf8_len, utf8_len_of, views, words, words_of,
};

verus! {

// ---------------------------------------------------------------------------
// Normal form for comparison (`normalize_for_dedup`)
// ---------------------------------------------------------------------------

/// Bold runs, `**text**`.
pub const BOLD: &'static str = "\\*\\*([^*]+)\\*\\*";

/// Inline code, `` `text` ``.
pub const CODE_SPAN: &'static str = "`([^`]+)`";

/// Links, `[text](url)`.
pub const LINK: &'static str = "\\[([^\\]]+)\\]\\([^)]+\\)";

/// The Markdown marks of bold runs, inline code and links replaced by their
/// text, the words joined by single spaces, and the whole lowercased.
pub open spec fn normalized(s: Seq<char>) -> Seq<char> {
    let a = apply_regex(BOLD@, s, "$1"@);
    let b = apply_regex(CODE_SPAN@, a, "$1"@);
    let c = apply_regex(LINK@, b, "$1"@);
    lowercase(join(words(c), " "@))
}

/// The form under which items are compared: bold, code and link marks
/// removed, whitespace runs collapsed, lowercased.
pub fn normalize_for_dedup(s: &Vec<char>) -> (r: Vec<char>)
    ensures
        r@ == normalized(s@),
{
    let a = replace_or_keep(BOLD, s, "$1");
    let b = replace_or_keep(CODE_SPAN, &a, "$1");
    let c = replace_or_keep(LINK, &b, "$1");
    let ws = words_of(&c);
    let joined = join_chars(&ws, " ");
    to_lowercase(&joined)
}

// ---------------------------------------------------------------------------
// Repetition (`is_repeated_pattern`)
// ---------------------------------------------------------------------------

/// `s` is its first `unit` characters repeated.
pub open spec fn repeats_with(s: Seq<char>, unit: int) -> bool {
    1 <= unit && (s.len() as int) % unit == 0 && repeat(s.take(unit), ((s.len() as int) / unit) as nat) == s
}

/// `s` is a unit of at most a third of its length repeated, that is at
/// least three times.
pub open spec fn is_repeated(s: Seq<char>) -> bool {
    exists|unit: int| 1 <= unit <= s.len() / 3 && #[trigger] repeats_with(s, unit)
}

/// `s` repeated `n` times.
pub fn repeat_chars(s: &Vec<char>, n: usize) -> (r: Vec<char>)
    ensures
        r@ == repeat(s@, n as nat),
{
    let mut r: Vec<char> = Vec::new();
    let mut i: usize = 0;
    while i < n
        invariant
            i <= n,
            r@ == repeat(s@, i as nat),
        decreases n - i,
    {
        push_chars(&mut r, s);
        i = i + 1;
    }
    r
}

/// Whether `s` consists of a short substring repeated three or more times.
pub fn is_repeated_pattern(s: &Vec<char>) -> (r: bool)
    ensures
        r == is_repeated(s@),
{
    let len = s.len();
    let mut unit: usize = 1;
    while unit <= len / 3
        invariant
            len == s.len(),
            1 <= unit,
            unit <= len / 3 + 1,
            forall|u: int| 1 <= u < unit ==> !#[trigger] repeats_with(s@, u),
        decreases len / 3 + 1 - unit,
    {
        if len % unit == 0 {
            let pattern = subvec(s, 0, unit);
            let whole = repeat_chars(&pattern, len / unit);
            if chars_eq(&whole, s) {
                assert(pattern@ == s@.take(unit as int));
                assert(repeats_with(s@, unit as int));
                return true;
            }
            assert(pattern@ == s@.take(unit as int));
        }
        unit = unit + 1;
    }
    assert forall|u: int| 1 <= u <= s@.len() / 3 implies !#[trigger] repeats_with(s@, u) by {
        assert(u < unit);
    }
    false
}

// ---------------------------------------------------------------------------
// Similarity (`strings_similar`)
// ---------------------------------------------------------------------------

/// The first occurrence of each item, in order.
pub open spec fn distinct(s: Seq<Seq<char>>) -> Seq<Seq<char>>
    decreases s.len(),
{
    if s.len() == 0 {
        seq![]
    } else {
        let d = distinct(s.drop_last());
        if d.contains(s.last()) {
            d
        } else {
            d.push(s.last())
        }
    }
}

/// How many items of `d` occur in `other`.
pub open spec fn shared_count(d: Seq<Seq<char>>, other: Seq<Seq<char>>) -> nat
    decreases d.len(),
{
    if d.len() == 0 {
        0
    } else {
        shared_count(d.drop_last(), other) + if other.contains(d.last()) {
            1nat
        } else {
            0nat
        }
    }
}

/// The characters that are not whitespace.
pub open spec fn without_ws(s: Seq<char>) -> Seq<char>
    decreases s.len(),
{
    if s.len() == 0 {
        seq![]
    } else {
        without_ws(s.drop_last()) + if is_ws(s.last()) {
            Seq::<char>::empty()
        } else {
            seq![s.last()]
        }
    }
}

/// Two items are similar when one holds the other and their lengths (in
/// bytes) differ by less than five; when they are equal and shorter than ten
/// bytes; when at least four fifths of the distinct words of the one with
/// fewer distinct words (five or more) occur in the other; or when either,
/// without its whitespace, is a repeated pattern and the first, without its
/// whitespace, is longer than five bytes.
pub open spec fn strings_similar(a: Seq<char>, b: Seq<char>) -> bool {
    let la = utf8_len(a);
    let lb = utf8_len(b);
    let diff = if la > lb {
        la - lb
    } else {
        lb - la
    };
    if diff < 5 && (contains(a, b) || contains(b, a)) {
        true
    } else if la < 10 && a == b {
        true
    } else {
        let wa = distinct(words(a));
        let wb = distinct(words(b));
        let m = if wa.len() < wb.len() {
            wa.len()
        } else {
            wb.len()
        };
        if m >= 5 && 5 * shared_count(wa, wb) >= 4 * m {
            true
        } else {
            let ab = without_ws(a);
            let bb = without_ws(b);
            (is_repeated(ab) || is_repeated(bb)) && utf8_len(ab) > 5
        }
    }
}

/// Whether `w` is one of `list`.
fn holds_item(list: &Vec<Vec<char>>, w: &Vec<char>) -> (r: bool)
    ensures
        r == views(list).contains(w@),
{
    let n = list.len();
    let mut i: usize = 0;
    while i < n
        invariant
            n == list.len(),
            i <= n,
            forall|k: int| 0 <= k < i ==> views(list)[k] != w@,
        decreases n - i,
    {
        if chars_eq(&list[i], w) {
            assert(views(list)[i as int] == w@);
            return true;
        }
        i = i + 1;
    }
    false
}

fn distinct_of(s: &Vec<Vec<char>>) -> (r: Vec<Vec<char>>)
    ensures
        views(&r) == distinct(views(s)),
{
    let n = s.len();
    let mut r: Vec<Vec<char>> = Vec::new();
    let mut i: usize = 0;
    let ghost sv = views(s);
    assert(sv.take(0) =~= seq![]);
    assert(views(&r) =~= seq![]);
    while i < n
        invariant
            n == s.len(),
            i <= n,
            sv == views(s),
            views(&r) == distinct(sv.take(i as int)),
        decreases n - i,
    {
        assert(sv.take(i + 1).drop_last() =~= sv.take(i as int));
        assert(sv.take(i + 1).last() == sv[i as int]);
        if !holds_item(&r, &s[i]) {
            let w = copy_chars(&s[i]);
            let ghost before = views(&r);
            r.push(w);
            assert(views(&r) =~= before.push(w@));
        }
        i = i + 1;
    }
    assert(sv.take(n as int) =~= sv);
    r
}

fn shared_count_of(d: &Vec<Vec<char>>, other: &Vec<Vec<char>>) -> (r: u128)
    ensures
        r == shared_count(views(d), views(other)),
        r <= d.len(),
{
    let n = d.len();
    let mut count: u128 = 0;
    let mut i: usize = 0;
    let ghost dv = views(d);
    while i < n
        invariant
            n == d.len(),
            i <= n,
            dv == views(d),
            count == shared_count(dv.take(i as int), views(other)),
            count <= i,
        decreases n - i,
    {
        assert(dv.take(i + 1).drop_last() =~= dv.take(i as int));
        assert(dv.take(i + 1).last() == dv[i as int]);
        if holds_item(other, &d[i]) {
            count = count + 1;
        }
        i = i + 1;
    }
    assert(dv.take(n as int) =~= dv);
    count
}

fn without_ws_of(s: &Vec<char>) -> (r: Vec<char>)
    ensures
        r@ == without_ws(s@),
{
    let n = s.len();
    let mut r: Vec<char> = Vec::new();
    let mut i: usize = 0;
    while i < n
        invariant
            n == s.len(),
            i <= n,
            r@ == without_ws(s@.take(i as int)),
        decreases n - i,
    {
        assert(s@.take(i + 1).drop_last() =~= s@.take(i as int));
        assert(s@.take(i + 1).last() == s@[i as int]);
        if !is_whitespace(s[i]) {
            r.push(s[i]);
        }
        i = i + 1;
        assert(r@ =~= without_ws(s@.take(i as int)));
    }
    assert(s@.take(n as int) =~= s@);
    r
}

/// Whether two items are suspiciously similar (`strings_similar`).
pub fn strings_similar_exec(a: &Vec<char>, b: &Vec<char>) -> (r: bool)
    ensures
        r == strings_similar(a@, b@),
{
    let la = utf8_len_of(a);
    let lb = utf8_len_of(b);
    let diff = if la > lb {
        la - lb
    } else {
        lb - la
    };
    if diff < 5 && (contains_chars(a, b) || contains_chars(b, a)) {
        return true;
    }
    if la < 10 && chars_eq(a, b) {
        return true;
    }
    let wa = distinct_of(&words_of(a));
    let wb = distinct_of(&words_of(b));
    let m: u128 = if wa.len() < wb.len() {
        wa.len() as u128
    } else {
        wb.len() as u128
    };
    if m >= 5 {
        let overlap = shared_count_of(&wa, &wb);
        if 5 * overlap >= 4 * m {
            return true;
        }
    }
    let ab = without_ws_of(a);
    let bb = without_ws_of(b);
    (is_repeated_pattern(&ab) || is_repeated_pattern(&bb)) && utf8_len_of(&ab) > 5
}

// ---------------------------------------------------------------------------
// Deduplication (`deduplicate_content`)
// ---------------------------------------------------------------------------

/// Items that are navigation or account boilerplate, judged on their
/// lowercase form.
pub open spec fn is_boilerplate(lower: Seq<char>) -> bool {
    ||| contains(lower, "log in"@)
    ||| contains(lower, "sign up"@)
    ||| contains(lower, "terms of service"@)
    ||| contains(lower, "privacy policy"@)
    ||| contains(lower, "cookie use"@)
    ||| contains(lower, "ads info"@)
    ||| contains(lower, "create account"@)
    ||| contains(lower, "upgrade to premium"@)
    ||| contains(lower, "new to x"@)
    ||| contains(lower, "skip to content"@)
    ||| contains(lower, "you must be signed in"@)
    ||| contains(lower, "action=edit"@)
    ||| lower == "edit"@
    ||| lower == "[edit]"@
}

fn boilerplate(lower: &Vec<char>) -> (r: bool)
    ensures
        r == is_boilerplate(lower@),
{
    contains_str(lower, "log in") || contains_str(lower, "sign up") || contains_str(
        lower,
        "terms of service",
    ) || contains_str(lower, "privacy policy") || contains_str(lower, "cookie use")
        || contains_str(lower, "ads info") || contains_str(lower, "create account")
        || contains_str(lower, "upgrade to premium") || contains_str(lower, "new to x")
        || contains_str(lower, "skip to content") || contains_str(lower, "you must be signed in")
        || contains_str(lower, "action=edit") || eq_str(lower, "edit") || eq_str(lower, "[edit]")
}

/// The last ten items kept, or all of them when fewer.
pub open spec fn recent(kept: Seq<Seq<char>>) -> Seq<Seq<char>> {
    if kept.len() > 10 {
        kept.skip(kept.len() - 10)
    } else {
        kept
    }
}

/// Some item of `window` is similar to `item` (`strings_similar(prev, item)`).
pub open spec fn similar_to_any(window: Seq<Seq<char>>, item: Seq<char>) -> bool {
    exists|j: int| 0 <= j < window.len() && strings_similar(#[trigger] window[j], item)
}

/// One item offered to the deduplication: the items kept so far and the
/// normal forms seen so far, after it.
pub open spec fn dedup_step(
    state: (Seq<Seq<char>>, Seq<Seq<char>>),
    raw: Seq<char>,
) -> (Seq<Seq<char>>, Seq<Seq<char>>) {
    let item = trim(raw);
    if item.len() == 0 || is_boilerplate(lowercase(item)) {
        state
    } else {
        let norm = normalized(item);
        if state.1.contains(norm) || similar_to_any(recent(state.0), item) {
            state
        } else {
            (state.0.push(item), state.1.push(norm))
        }
    }
}

/// The items kept, and their normal forms, after offering all of `items`
/// in order.
pub open spec fn dedup_fold(items: Seq<Seq<char>>) -> (Seq<Seq<char>>, Seq<Seq<char>>)
    decreases items.len(),
{
    if items.len() == 0 {
        (seq![], seq![])
    } else {
        dedup_step(dedup_fold(items.drop_last()), items.last())
    }
}

/// `deduplicate_content`: the items kept, laid out as Markdown.
pub open spec fn deduplicated(items: Seq<Seq<char>>) -> Seq<char> {
    format_output(dedup_fold(items).0)
}

fn similar_to_recent(kept: &Vec<Vec<char>>, item: &Vec<char>) -> (r: bool)
    ensures
        r == similar_to_any(recent(views(kept)), item@),
{
    let n = kept.len();
    let from: usize = if n > 10 {
        n - 10
    } else {
        0
    };
    let ghost window = recent(views(kept));
    assert(window =~= views(kept).skip(from as int));
    let mut i = from;
    while i < n
        invariant
            n == kept.len(),
            from <= i <= n,
            window == views(kept).skip(from as int),
            window == recent(views(kept)),
            forall|j: int| 0 <= j < i - from ==> !strings_similar(#[trigger] window[j], item@),
        decreases n - i,
    {
        assert(views(kept)[i as int] == kept@[i as int]@);
        if strings_similar_exec(&kept[i], item) {
            assert(window[i - from] == views(kept)[i as int]);
            assert(strings_similar(window[i - from], item@));
            assert(0 <= i - from < window.len());
            assert(similar_to_any(window, item@));
            return true;
        }
        assert(window[i - from] == views(kept)[i as int]);
        i = i + 1;
    }
    false
}

/// The kept items laid out as Markdown: blank and boilerplate items, items
/// whose normal form was seen before, and items similar to one of the ten
/// kept before them are dropped.
pub fn deduplicate_content(content: &Vec<Vec<char>>) -> (r: Vec<char>)
    ensures
        r@ == deduplicated(views(content)),
{
    let n = content.len();
    let mut kept: Vec<Vec<char>> = Vec::new();
    let mut seen: Vec<Vec<char>> = Vec::new();
    let mut i: usize = 0;
    let ghost cv = views(content);
    assert(cv.take(0) =~= seq![]);
    assert(views(&kept) =~= seq![]);
    assert(views(&seen) =~= seq![]);
    while i < n
        invariant
            n == content.len(),
            i <= n,
            cv == views(content),
            (views(&kept), views(&seen)) == dedup_fold(cv.take(i as int)),
        decreases n - i,
    {
        assert(cv.take(i + 1).drop_last() =~= cv.take(i as int));
        assert(cv.take(i + 1).last() == cv[i as int]);
        let item = trim_chars(&content[i]);
        if item.len() > 0 {
            let lower = to_lowercase(&item);
            if !boilerplate(&lower) {
                let norm = normalize_for_dedup(&item);
                if !holds_item(&seen, &norm) && !similar_to_recent(&kept, &item) {
                    let ghost k0 = views(&kept);
                    let ghost s0 = views(&seen);
                    kept.push(item);
                    seen.push(norm);
                    assert(views(&kept) =~= k0.push(item@));
                    assert(views(&seen) =~= s0.push(norm@));
                }
            }
        }
        i = i + 1;
    }
    assert(cv.take(n as int) =~= cv);
    format_output_exec(&kept)
}

// ---------------------------------------------------------------------------
// Layout (`format_output`)
// ---------------------------------------------------------------------------

/// The output so far and whether the last line was a code block, after
/// laying out `lines`: empty lines are left out; each other line, trimmed,
/// follows the previous one after a single line break when it is a list item
/// (and neither a heading nor a code block, nor after a code block), else
/// after a blank line.
pub open spec fn format_fold(lines: Seq<Seq<char>>) -> (Seq<char>, bool)
    decreases lines.len(),
{
    if lines.len() == 0 {
        (seq![], false)
    } else {
        let (out, last_was_code) = format_fold(lines.drop_last());
        let t = trim(lines.last());
        if t.len() == 0 {
            (out, last_was_code)
        } else {
            let is_heading = starts_with(t, "#"@);
            let is_code = starts_with(t, "```"@);
            let is_list = starts_with(t, "-"@);
            let sep = if out.len() == 0 {
                Seq::<char>::empty()
            } else if is_heading || is_code || last_was_code {
                "\n\n"@
            } else if is_list {
                "\n"@
            } else {
                "\n\n"@
            };
            (out + sep + t, is_code)
        }
    }
}

/// The lines laid out: a blank line before headings, code blocks and
/// paragraphs, a line break before list items, the whole trimmed.
pub open spec fn format_output(lines: Seq<Seq<char>>) -> Seq<char> {
    trim(format_fold(lines).0)
}

/// The lines laid out as Markdown, as `format_output` states.
pub fn format_output_exec(lines: &Vec<Vec<char>>) -> (r: Vec<char>)
    ensures
        r@ == format_output(views(lines)),
{
    let n = lines.len();
    let mut out: Vec<char> = Vec::new();
    let mut last_was_code = false;
    let mut i: usize = 0;
    let ghost lv = views(lines);
    assert(lv.take(0) =~= seq![]);
    while i < n
        invariant
            n == lines.len(),
            i <= n,
            lv == views(lines),
            (out@, last_was_code) == format_fold(lv.take(i as int)),
        decreases n - i,
    {
        assert(lv.take(i + 1).drop_last() =~= lv.take(i as int));
        assert(lv.take(i + 1).last() == lv[i as int]);
        let t = trim_chars(&lines[i]);
        if t.len() > 0 {
            let is_heading = starts_with_str(&t, "#");
            let is_code = starts_with_str(&t, "```");
            let is_list = starts_with_str(&t, "-");
            let ghost before = out@;
            if out.len() > 0 {
                if is_heading || is_code || last_was_code {
                    push_str(&mut out, "\n\n");
                } else if is_list {
                    push_str(&mut out, "\n");
                } else {
                    push_str(&mut out, "\n\n");
                }
            } else {
                assert(out@ =~= out@ + Seq::<char>::empty());
            }
            push_chars(&mut out, &t);
            last_was_code = is_code;
        }
        i = i + 1;
    }
    assert(lv.take(n as int) =~= lv);
    trim_chars(&out)
}


// ---------------------------------------------------------------------------
// Laws of the deduplication
// ---------------------------------------------------------------------------

/// What holds of every state of the deduplication: one normal form per kept
/// item, the normal forms pairwise different, and no kept item similar to
/// one of the ten kept before it.
pub open spec fn dedup_invariant(state: (Seq<Seq<char>>, Seq<Seq<char>>)) -> bool {
    &&& state.0.len() == state.1.len()
    &&& forall|i: int| 0 <= i < state.0.len() ==> #[trigger] state.1[i] == normalized(state.0[i])
    &&& forall|i: int, j: int| 0 <= i < j < state.1.len() ==> state.1[i] != state.1[j]
    &&& forall|i: int, j: int|
        0 <= i < j < state.0.len() && j - i <= 10 ==> !strings_similar(state.0[i], state.0[j])
    &&& forall|i: int| 0 <= i < state.0.len() ==> trim(#[trigger] state.0[i]).len() > 0
}

proof fn lemma_dedup_step(state: (Seq<Seq<char>>, Seq<Seq<char>>), raw: Seq<char>)
    requires
        dedup_invariant(state),
    ensures
        dedup_invariant(dedup_step(state, raw)),
{
    let item = trim(raw);
    if item.len() == 0 || is_boilerplate(lowercase(item)) {
    } else {
        let norm = normalized(item);
        if state.1.contains(norm) || similar_to_any(recent(state.0), item) {
        } else {
            let (kept, seen) = (state.0.push(item), state.1.push(norm));
            let n = state.0.len() as int;
            assert forall|i: int, j: int| 0 <= i < j < seen.len() implies seen[i] != seen[j] by {
                if j == n {
                    assert(seen[i] == state.1[i]);
                    if seen[i] == norm {
                        assert(state.1.contains(norm));
                    }
                }
            }
            assert forall|i: int, j: int|
                0 <= i < j < kept.len() && j - i <= 10 implies !strings_similar(kept[i], kept[j]) by {
                if j == n {
                    let w = recent(state.0);
                    let from = if n > 10 { n - 10 } else { 0 };
                    assert(w == state.0.skip(from));
                    assert(w[i - from] == state.0[i]);
                    if strings_similar(kept[i], kept[j]) {
                        assert(strings_similar(w[i - from], item));
                        assert(similar_to_any(w, item));
                    }
                }
            }
            assert forall|i: int| 0 <= i < kept.len() implies trim(#[trigger] kept[i]).len() > 0 by {
                if i == n {
                    lemma_trim_idempotent(raw);
                }
            }
        }
    }
}

proof fn lemma_dedup_fold_invariant(items: Seq<Seq<char>>)
    ensures
        dedup_invariant(dedup_fold(items)),
    decreases items.len(),
{
    if items.len() > 0 {
        lemma_dedup_fold_invariant(items.drop_last());
        lemma_dedup_step(dedup_fold(items.drop_last()), items.last());
    }
}

/// No two items that the deduplication keeps have the same normal form, no
/// kept item is blank, and none is similar to one of the ten kept before it.
pub proof fn law_dedup_keeps_distinct(items: Seq<Seq<char>>)
    ensures
        forall|i: int, j: int|
            0 <= i < j < dedup_fold(items).0.len() ==> normalized(dedup_fold(items).0[i])
                != normalized(dedup_fold(items).0[j]),
        forall|i: int, j: int|
            0 <= i < j < dedup_fold(items).0.len() && j - i <= 10 ==> !strings_similar(
                dedup_fold(items).0[i],
                dedup_fold(items).0[j],
            ),
        forall|i: int|
            0 <= i < dedup_fold(items).0.len() ==> trim(#[trigger] dedup_fold(items).0[i]).len() > 0,
{
    lemma_dedup_fold_invariant(items);
    let st = dedup_fold(items);
    assert forall|i: int, j: int| 0 <= i < j < st.0.len() implies normalized(st.0[i])
        != normalized(st.0[j]) by {
        assert(st.1[i] == normalized(st.0[i]));
        assert(st.1[j] == normalized(st.0[j]));
    }
}

/// Every text is similar to itself: it contains itself and its length
/// differs from its own by nothing.
pub proof fn law_similar_reflexive(a: Seq<char>)
    ensures
        strings_similar(a, a),
{
    assert(a.subrange(0, a.len() as int) =~= a);
    assert(crate::text::occurs_at(a, a, 0));
}

proof fn lemma_repeat_shape(u: Seq<char>, n: nat)
    requires
        n >= 1,
    ensures
        repeat(u, n).len() == n * u.len(),
        repeat(u, n).take(u.len() as int) == u,
    decreases n,
{
    if n > 1 {
        lemma_repeat_shape(u, (n - 1) as nat);
        assert(repeat(u, n) == repeat(u, (n - 1) as nat) + u);
        assert(repeat(u, (n - 1) as nat).len() >= u.len()) by (nonlinear_arith)
            requires
                repeat(u, (n - 1) as nat).len() == (n - 1) * u.len(),
                n - 1 >= 1,
        ;
        assert(repeat(u, n).take(u.len() as int) =~= repeat(u, (n - 1) as nat).take(u.len() as int));
        assert(repeat(u, n).len() == n * u.len()) by (nonlinear_arith)
            requires
                repeat(u, n).len() == (n - 1) * u.len() + u.len(),
        ;
    } else {
        assert(repeat(u, 1) =~= u) by {
            assert(repeat(u, 0) =~= Seq::<char>::empty());
        }
        assert(u.take(u.len() as int) =~= u);
    }
}

/// A text made of one non-empty piece repeated three or more times is a
/// repeated pattern.
pub proof fn law_repetition_is_detected(u: Seq<char>, n: nat)
    requires
        u.len() > 0,
        n >= 3,
    ensures
        is_repeated(repeat(u, n)),
{
    lemma_repeat_shape(u, n);
    let s = repeat(u, n);
    let k = u.len() as int;
    assert(s.len() as int % k == 0 && s.len() as int / k == n as int) by (nonlinear_arith)
        requires
            s.len() == n * k,
            k > 0,
    {
        vstd::arithmetic::div_mod::lemma_mod_multiples_basic(n as int, k);
        vstd::arithmetic::div_mod::lemma_div_multiples_vanish(n as int, k);
    }
    assert(k <= s.len() / 3) by (nonlinear_arith)
        requires
            s.len() == n * k,
            n >= 3,
            k > 0,
    ;
    assert(repeats_with(s, k));
}

} // verus!
