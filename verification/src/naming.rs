//! Output file names: cleaning titles so that they are safe as file names,
//! and shortening them in the ways the scanner uses.
use vstd::prelude::*;

use crate::text::{
    chars_eq, chars_of, is_ascii_char, is_white_space, owned, push_all, slice_chars,
    string_from_chars, trim, trim_chars, trim_end, trim_start, byte_len, white_space,
};

verus! {

// ---------------------------------------------------------------------------
// sanitize_filename
// ---------------------------------------------------------------------------

/// The characters that never stand in an output file name.
pub open spec fn is_reserved_char(c: char) -> bool {
    c == '<' || c == '>' || c == ':' || c == '"' || c == '/' || c == '\\' || c == '|' || c
        == '?' || c == '*' || c == '\0' || c == '\n' || c == '\r' || c == '\t'
}

/// Character-by-character cleaning: reserved characters become `_`, and a
/// dot that would follow a dot becomes `_`.
pub open spec fn sanitize_chars(s: Seq<char>) -> Seq<char>
    decreases s.len(),
{
    if s.len() == 0 {
        Seq::empty()
    } else {
        let acc = sanitize_chars(s.drop_last());
        let c = s.last();
        if is_reserved_char(c) {
            acc.push('_')
        } else if c == '.' && acc.len() > 0 && acc.last() == '.' {
            acc.push('_')
        } else {
            acc.push(c)
        }
    }
}

/// The name used when nothing is left of a title.
pub open spec fn fallback_name() -> Seq<char> {
    seq!['o', 'u', 't', 'p', 'u', 't']
}

/// The cleaned file name: the cleaned characters without surrounding white
/// space, or `output` when that is empty.
pub open spec fn sanitized_filename(s: Seq<char>) -> Seq<char> {
    let t = trim(sanitize_chars(s));
    if t.len() == 0 {
        fallback_name()
    } else {
        t
    }
}

fn reserved(c: char) -> (b: bool)
    ensures
        b == is_reserved_char(c),
{
    c == '<' || c == '>' || c == ':' || c == '"' || c == '/' || c == '\\' || c == '|' || c == '?'
        || c == '*' || c == '\0' || c == '\n' || c == '\r' || c == '\t'
}

/// Cleans `name` for use as a file name: reserved characters and a dot that
/// follows a dot become `_`, surrounding white space goes, and an empty result
/// becomes `output`.
pub fn sanitize_filename(name: &str) -> (r: String)
    ensures
        r@ == sanitized_filename(name@),
{
    let s = chars_of(name);
    let v = sanitize_filename_chars(&s);
    string_from_chars(&v)
}

/// `sanitize_filename` on characters.
pub fn sanitize_filename_chars(s: &[char]) -> (r: Vec<char>)
    ensures
        r@ == sanitized_filename(s@),
{
    let mut acc: Vec<char> = Vec::new();
    let mut i: usize = 0;
    while i < s.len()
        invariant
            i <= s@.len(),
            acc@ == sanitize_chars(s@.take(i as int)),
        decreases s@.len() - i,
    {
        let c = s[i];
        proof {
            assert(s@.take(i + 1).drop_last() =~= s@.take(i as int));
        }
        if reserved(c) {
            acc.push('_');
        } else if c == '.' && acc.len() > 0 && acc[acc.len() - 1] == '.' {
            acc.push('_');
        } else {
            acc.push(c);
        }
        i = i + 1;
    }
    assert(s@.take(s@.len() as int) =~= s@);
    let t = trim_chars(&acc);
    if t.len() == 0 {
        let mut o: Vec<char> = Vec::new();
        o.push('o');
        o.push('u');
        o.push('t');
        o.push('p');
        o.push('u');
        o.push('t');
        assert(o@ =~= fallback_name());
        o
    } else {
        t
    }
}

/// No reserved character, and no dot right after a dot.
pub open spec fn safe_file_name(s: Seq<char>) -> bool {
    &&& forall|i: int| 0 <= i < s.len() ==> !is_reserved_char(#[trigger] s[i])
    &&& forall|i: int| 0 <= i < s.len() - 1 ==> !(#[trigger] s[i] == '.' && s[i + 1] == '.')
}

proof fn lemma_sanitize_chars_safe(s: Seq<char>)
    ensures
        safe_file_name(sanitize_chars(s)),
    decreases s.len(),
{
    if s.len() > 0 {
        lemma_sanitize_chars_safe(s.drop_last());
        let acc = sanitize_chars(s.drop_last());
        let r = sanitize_chars(s);
        assert forall|i: int| 0 <= i < r.len() - 1 implies !(#[trigger] r[i] == '.' && r[i + 1]
            == '.') by {
            if i < acc.len() - 1 {
                assert(r[i] == acc[i] && r[i + 1] == acc[i + 1]);
            }
        }
    }
}

proof fn lemma_trim_start_is_suffix(s: Seq<char>) -> (a: int)
    ensures
        0 <= a <= s.len(),
        trim_start(s) == s.subrange(a, s.len() as int),
    decreases s.len(),
{
    if s.len() > 0 && is_white_space(s[0]) {
        let a = lemma_trim_start_is_suffix(s.drop_first());
        assert(s.drop_first().subrange(a, s.len() - 1) =~= s.subrange(a + 1, s.len() as int));
        a + 1
    } else {
        assert(s.subrange(0, s.len() as int) =~= s);
        0
    }
}

proof fn lemma_trim_end_is_prefix(s: Seq<char>) -> (b: int)
    ensures
        0 <= b <= s.len(),
        trim_end(s) == s.subrange(0, b),
    decreases s.len(),
{
    if s.len() > 0 && is_white_space(s.last()) {
        let b = lemma_trim_end_is_prefix(s.drop_last());
        assert(s.drop_last().subrange(0, b) =~= s.subrange(0, b));
        b
    } else {
        assert(s.subrange(0, s.len() as int) =~= s);
        s.len() as int
    }
}

/// What `sanitize_filename` gives is never empty, holds none of the reserved
/// characters `< > : " / \ | ? *` nor NUL, tab, CR or LF, and never holds two
/// dots in a row, so it cannot climb out of a directory.
pub proof fn lemma_sanitized_filename_is_safe(s: Seq<char>)
    ensures
        sanitized_filename(s).len() > 0,
        safe_file_name(sanitized_filename(s)),
{
    let raw = sanitize_chars(s);
    lemma_sanitize_chars_safe(s);
    let a = lemma_trim_start_is_suffix(raw);
    let ts = trim_start(raw);
    let b = lemma_trim_end_is_prefix(ts);
    let t = trim(raw);
    assert(t =~= raw.subrange(a, a + b));
    if t.len() > 0 {
        assert forall|i: int| 0 <= i < t.len() implies !is_reserved_char(#[trigger] t[i]) by {
            assert(t[i] == raw[a + i]);
        }
        assert forall|i: int| 0 <= i < t.len() - 1 implies !(#[trigger] t[i] == '.' && t[i + 1]
            == '.') by {
            assert(t[i] == raw[a + i] && t[i + 1] == raw[a + i + 1]);
        }
    } else {
        let f = fallback_name();
        assert forall|i: int| 0 <= i < f.len() - 1 implies !(#[trigger] f[i] == '.' && f[i + 1]
            == '.') by {}
    }
}


proof fn lemma_sanitize_chars_keeps_safe(t: Seq<char>)
    requires
        safe_file_name(t),
    ensures
        sanitize_chars(t) == t,
    decreases t.len(),
{
    if t.len() > 0 {
        let p = t.drop_last();
        assert forall|i: int| 0 <= i < p.len() implies !is_reserved_char(#[trigger] p[i]) by {
            assert(p[i] == t[i]);
        }
        assert forall|i: int| 0 <= i < p.len() - 1 implies !(#[trigger] p[i] == '.' && p[i + 1]
            == '.') by {
            assert(p[i] == t[i] && p[i + 1] == t[i + 1]);
        }
        lemma_sanitize_chars_keeps_safe(p);
        let n = t.len() - 1;
        assert(!is_reserved_char(t[n]));
        if t[n] == '.' && p.len() > 0 {
            assert(!(t[n - 1] == '.' && t[n] == '.'));
        }
        assert(p.push(t.last()) =~= t);
    }
}

proof fn lemma_trim_start_head(s: Seq<char>)
    ensures
        trim_start(s).len() > 0 ==> !is_white_space(trim_start(s)[0]),
    decreases s.len(),
{
    if s.len() > 0 && is_white_space(s[0]) {
        lemma_trim_start_head(s.drop_first());
    }
}

proof fn lemma_trim_end_tail(s: Seq<char>)
    ensures
        trim_end(s).len() > 0 ==> !is_white_space(trim_end(s).last()),
    decreases s.len(),
{
    if s.len() > 0 && is_white_space(s.last()) {
        lemma_trim_end_tail(s.drop_last());
    }
}

/// Cleaning a name that was already cleaned changes nothing.
pub proof fn lemma_sanitize_filename_idempotent(s: Seq<char>)
    ensures
        sanitized_filename(sanitized_filename(s)) == sanitized_filename(s),
{
    let x = sanitized_filename(s);
    lemma_sanitized_filename_is_safe(s);
    lemma_sanitize_chars_keeps_safe(x);
    let raw = sanitize_chars(s);
    let ts = trim_start(raw);
    if trim(raw).len() == 0 {
        assert(x == fallback_name());
        assert(!is_white_space('o') && !is_white_space('t'));
    } else {
        lemma_trim_start_head(raw);
        lemma_trim_end_tail(ts);
        let b = lemma_trim_end_is_prefix(ts);
        assert(x[0] == ts[0]);
    }
    assert(!is_white_space(x[0]) && !is_white_space(x.last()));
    assert(trim_start(x) == x);
    assert(trim_end(x) == x);
}


// ---------------------------------------------------------------------------
// Shortening
// ---------------------------------------------------------------------------

/// The three dots put where text was cut.
pub open spec fn ellipsis() -> Seq<char> {
    seq!['.', '.', '.']
}

fn push_ellipsis(v: &mut Vec<char>)
    ensures
        final(v)@ == old(v)@ + ellipsis(),
{
    v.push('.');
    v.push('.');
    v.push('.');
    assert(final(v)@ =~= old(v)@ + ellipsis());
}

/// The weight of a character in a display budget: one for ASCII, two for
/// anything else (a CJK character takes two columns).
pub open spec fn char_weight(c: char) -> int {
    if is_ascii_char(c) {
        1
    } else {
        2
    }
}

/// How many leading characters of `s` are taken while the weight taken so
/// far is below `budget`.
pub open spec fn kept_by_weight(s: Seq<char>, budget: int) -> nat
    decreases s.len(),
{
    if s.len() == 0 || budget <= 0 {
        0
    } else {
        1 + kept_by_weight(s.drop_first(), budget - char_weight(s[0]))
    }
}

/// `s` cut to a display budget of `max_len`, with `...` after the cut.
pub open spec fn truncated_by_weight(s: Seq<char>, max_len: nat) -> Seq<char> {
    let k = kept_by_weight(s, max_len as int);
    if k < s.len() {
        s.take(k as int) + ellipsis()
    } else {
        s
    }
}

proof fn lemma_kept_by_weight_le(s: Seq<char>, budget: int)
    ensures
        kept_by_weight(s, budget) <= s.len(),
    decreases s.len(),
{
    if s.len() > 0 && budget > 0 {
        lemma_kept_by_weight_le(s.drop_first(), budget - char_weight(s[0]));
    }
}

/// Keeps leading characters while the weight taken so far (one per ASCII
/// character, two per other character) is below `max_len`, and marks a cut
/// with `...`.
pub fn truncate_chinese(s: &str, max_len: usize) -> (r: String)
    ensures
        r@ == truncated_by_weight(s@, max_len as nat),
{
    let cs = chars_of(s);
    let mut count: usize = 0;
    let ghost mut taken_weight: int = 0;
    let mut i: usize = 0;
    assert(cs@.skip(0) =~= cs@);
    while i < cs.len() && count < max_len
        invariant
            i <= cs@.len(),
            taken_weight >= 0,
            count == if taken_weight > usize::MAX {
                usize::MAX as int
            } else {
                taken_weight
            },
            kept_by_weight(cs@, max_len as int) == i + kept_by_weight(
                cs@.skip(i as int),
                max_len - taken_weight,
            ),
        decreases cs@.len() - i,
    {
        let c = cs[i];
        let w: usize = if (c as u32) < 128 {
            1
        } else {
            2
        };
        proof {
            assert(cs@.skip(i as int).drop_first() =~= cs@.skip(i + 1));
            assert(cs@.skip(i as int)[0] == c);
        }
        count = count.saturating_add(w);
        proof {
            taken_weight = taken_weight + w;
        }
        i = i + 1;
    }
    let mut out = slice_chars(&cs, 0, i);
    proof {
        lemma_kept_by_weight_le(cs@, max_len as int);
        assert(kept_by_weight(cs@, max_len as int) == i);
    }
    if i < cs.len() {
        push_ellipsis(&mut out);
    } else {
        assert(cs@.subrange(0, i as int) =~= cs@);
    }
    string_from_chars(&out)
}

/// The first `start` and the last `end` characters that `smart_truncate_middle`
/// keeps of a text longer than `max_len`.
pub open spec fn middle_cut_start(max_len: nat) -> nat {
    let rem = max_len - 3;
    if rem / 2 >= 1 {
        (rem / 2 - 1) as nat
    } else {
        0
    }
}

pub open spec fn middle_cut_end(max_len: nat) -> nat {
    let rem = max_len - 3;
    if rem - rem / 2 >= 2 {
        (rem - rem / 2 - 2) as nat
    } else {
        0
    }
}

/// `s` shortened with `...` in the middle when it has more than `max_len`
/// characters.
pub open spec fn middle_truncated(s: Seq<char>, max_len: nat) -> Seq<char> {
    if s.len() <= max_len {
        s
    } else {
        let start = middle_cut_start(max_len);
        let end = middle_cut_end(max_len);
        if start == 0 && end == 0 {
            ellipsis()
        } else {
            s.take(start as int) + ellipsis() + s.skip(s.len() - end)
        }
    }
}

/// Shortens `s` to fewer than `max_len` characters by cutting out its middle
/// and putting `...` there; a text of at most `max_len` characters is kept.
pub fn smart_truncate_middle(s: &str, max_len: usize) -> (r: String)
    requires
        s@.len() > max_len ==> max_len >= 3,
    ensures
        r@ == middle_truncated(s@, max_len as nat),
{
    let cs = chars_of(s);
    let v = smart_truncate_middle_chars(&cs, max_len);
    string_from_chars(&v)
}

/// `smart_truncate_middle` on characters.
pub fn smart_truncate_middle_chars(cs: &[char], max_len: usize) -> (r: Vec<char>)
    requires
        cs@.len() > max_len ==> max_len >= 3,
    ensures
        r@ == middle_truncated(cs@, max_len as nat),
{
    let actual_len = cs.len();
    if actual_len <= max_len {
        return slice_chars(cs, 0, actual_len);
    }
    let remaining_len = max_len - 3;
    let start_len = (remaining_len / 2).saturating_sub(1);
    let end_len = (remaining_len - remaining_len / 2).saturating_sub(2);
    let mut out: Vec<char> = Vec::new();
    if start_len == 0 && end_len == 0 {
        push_ellipsis(&mut out);
        assert(out@ =~= ellipsis());
        return out;
    }
    let head = slice_chars(cs, 0, start_len);
    push_all(&mut out, &head);
    push_ellipsis(&mut out);
    let tail = slice_chars(cs, actual_len - end_len, actual_len);
    push_all(&mut out, &tail);
    assert(out@ =~= cs@.take(start_len as int) + ellipsis() + cs@.skip(cs@.len() - end_len));
    out
}

/// What `smart_truncate_middle` gives has at most `max_len` characters, and
/// is the text itself when that is short enough.
pub proof fn lemma_middle_truncated_fits(s: Seq<char>, max_len: nat)
    requires
        max_len >= 3,
    ensures
        middle_truncated(s, max_len).len() <= max_len,
        s.len() <= max_len ==> middle_truncated(s, max_len) == s,
{
}

/// The first `max_len` characters of `title` (all of it when shorter).
pub open spec fn title_head(title: Seq<char>, max_len: nat) -> Seq<char> {
    if title.len() <= max_len {
        title
    } else {
        title.take(max_len as int)
    }
}

/// Keeps the first `max_len` characters of `title`.
pub fn truncate_title_from_end(title: &str, max_len: usize) -> (r: String)
    ensures
        r@ == title_head(title@, max_len as nat),
{
    let cs = chars_of(title);
    if cs.len() <= max_len {
        return owned(title);
    }
    let v = slice_chars(&cs, 0, max_len);
    string_from_chars(&v)
}

/// The longest name, in characters, that `truncate_title_with_part` gives
/// whole.
pub open spec fn part_name_limit() -> nat {
    80
}

/// `_P` followed by the part.
pub open spec fn part_suffix(part: Seq<char>) -> Seq<char> {
    seq!['_', 'P'] + part
}

/// `title_P{part}`, with the title cut (and `...` put after it) when the
/// whole would be longer than 80 characters; the part is always kept whole.
pub open spec fn title_with_part(title: Seq<char>, part: Seq<char>) -> Seq<char> {
    let suffix = part_suffix(part);
    let full = title + suffix;
    if full.len() <= part_name_limit() {
        full
    } else {
        let available = if suffix.len() + 3 >= part_name_limit() {
            0
        } else {
            part_name_limit() - suffix.len() - 3
        };
        let title_max = if available >= 10 {
            available
        } else {
            10
        };
        title_head(title, title_max as nat) + ellipsis() + suffix
    }
}

/// With a part of at most 65 characters, `title_P{part}` never exceeds 80
/// characters, and it always ends with the whole `_P{part}`.
pub proof fn lemma_title_with_part_fits(title: Seq<char>, part: Seq<char>)
    ensures
        part.len() <= 65 ==> title_with_part(title, part).len() <= part_name_limit(),
        crate::text::seq_ends_with(title_with_part(title, part), part_suffix(part)),
{
    let r = title_with_part(title, part);
    let suffix = part_suffix(part);
    let full = title + suffix;
    if full.len() <= part_name_limit() {
        assert(r.subrange(r.len() - suffix.len(), r.len() as int) =~= suffix);
    } else {
        let available = if suffix.len() + 3 >= part_name_limit() {
            0
        } else {
            part_name_limit() - suffix.len() - 3
        };
        let title_max: nat = if available >= 10 {
            available as nat
        } else {
            10
        };
        let head = title_head(title, title_max);
        assert(r == head + ellipsis() + suffix);
        assert(r.subrange(r.len() - suffix.len(), r.len() as int) =~= suffix);
    }
}

/// `title_P{part}`, shortened as `title_with_part` says; `_ext` is not used.
pub fn truncate_title_with_part(title: &str, part: &str, _ext: &str) -> (r: String)
    ensures
        r@ == title_with_part(title@, part@),
{
    let t = chars_of(title);
    let p = chars_of(part);
    let v = title_with_part_chars(&t, &p);
    string_from_chars(&v)
}

/// `truncate_title_with_part` on characters.
pub fn title_with_part_chars(t: &[char], p: &[char]) -> (r: Vec<char>)
    ensures
        r@ == title_with_part(t@, p@),
{
    let mut suffix: Vec<char> = Vec::new();
    suffix.push('_');
    suffix.push('P');
    push_all(&mut suffix, p);
    assert(suffix@ =~= part_suffix(p@));
    let mut out: Vec<char> = Vec::new();
    if t.len() <= 80 && suffix.len() <= 80 - t.len() {
        push_all(&mut out, t);
        push_all(&mut out, &suffix);
        return out;
    }
    let suffix_len = suffix.len();
    let available: usize = if suffix_len >= 77 {
        0
    } else {
        77 - suffix_len
    };
    let title_max: usize = if available >= 10 {
        available
    } else {
        10
    };
    let head_len = if t.len() <= title_max {
        t.len()
    } else {
        title_max
    };
    let head = slice_chars(t, 0, head_len);
    proof {
        if t@.len() <= title_max {
            assert(head@ =~= t@);
        }
    }
    push_all(&mut out, &head);
    push_ellipsis(&mut out);
    push_all(&mut out, &suffix);
    out
}

/// `s` without its white space characters.
pub open spec fn without_white_space(s: Seq<char>) -> Seq<char>
    decreases s.len(),
{
    if s.len() == 0 {
        Seq::empty()
    } else if is_white_space(s.last()) {
        without_white_space(s.drop_last())
    } else {
        without_white_space(s.drop_last()).push(s.last())
    }
}

/// Title and part say the same: after removing white space both are
/// non-empty and they agree on their first `min(20, both lengths)` characters.
pub open spec fn title_part_duplicate(title: Seq<char>, part: Seq<char>) -> bool {
    let a = without_white_space(title);
    let b = without_white_space(part);
    a.len() > 0 && b.len() > 0 && {
        let n = if a.len() <= b.len() {
            a.len()
        } else {
            b.len()
        };
        let n = if n <= 20 {
            n
        } else {
            20
        };
        a.take(n as int) == b.take(n as int)
    }
}

fn strip_white_space(s: &[char]) -> (r: Vec<char>)
    ensures
        r@ == without_white_space(s@),
{
    let mut r: Vec<char> = Vec::new();
    let mut i: usize = 0;
    while i < s.len()
        invariant
            i <= s@.len(),
            r@ == without_white_space(s@.take(i as int)),
        decreases s@.len() - i,
    {
        proof {
            assert(s@.take(i + 1).drop_last() =~= s@.take(i as int));
        }
        if !white_space(s[i]) {
            r.push(s[i]);
        }
        i = i + 1;
    }
    assert(s@.take(s@.len() as int) =~= s@);
    r
}

/// Whether title and part say the same (see `title_part_duplicate`).
pub fn is_title_part_duplicate(title: &str, part: &str) -> (b: bool)
    ensures
        b == title_part_duplicate(title@, part@),
{
    let a = strip_white_space(&chars_of(title));
    let b = strip_white_space(&chars_of(part));
    if a.len() == 0 || b.len() == 0 {
        return false;
    }
    let n = if a.len() <= b.len() {
        a.len()
    } else {
        b.len()
    };
    let n = if n <= 20 {
        n
    } else {
        20
    };
    let x = slice_chars(&a, 0, n);
    let y = slice_chars(&b, 0, n);
    chars_eq(&x, &y)
}

/// `base_name` followed by `ext`, with the middle of the name replaced by
/// `...` (15 characters kept at each end) when the name is longer than 30
/// bytes and 30 characters.
pub open spec fn middle_shortened_name(base: Seq<char>, ext: Seq<char>) -> Seq<char> {
    if byte_len(base) > 30 && base.len() > 30 {
        base.take(15) + ellipsis() + base.skip(base.len() - 15) + ext
    } else {
        base + ext
    }
}

/// Joins a name and an extension, shortening a long name in the middle.
pub fn truncate_with_middle(base_name: &str, ext: &str) -> (r: String)
    ensures
        r@ == middle_shortened_name(base_name@, ext@),
{
    let cs = chars_of(base_name);
    let e = chars_of(ext);
    let mut out: Vec<char> = Vec::new();
    if base_name.len() > 30 && cs.len() > 30 {
        let head = slice_chars(&cs, 0, 15);
        push_all(&mut out, &head);
        push_ellipsis(&mut out);
        let tail = slice_chars(&cs, cs.len() - 15, cs.len());
        push_all(&mut out, &tail);
        assert(base_name@.skip(base_name@.len() - 15) =~= tail@);
    } else {
        push_all(&mut out, &cs);
    }
    push_all(&mut out, &e);
    assert(out@ =~= middle_shortened_name(base_name@, ext@));
    string_from_chars(&out)
}

} // verus!
