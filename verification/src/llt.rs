//! Sizing of emitted LLVM type text.
//!
//! The emitter writes types as text (`ptr`, `float`, `double`, `iN`, `[n x T]`,
//! `{ T, ... }`) and sizes them from that text under the LLVM data layout: every
//! struct field at its own ABI alignment, the struct tail-padded to its widest
//! field. Anything it does not recognise sizes to `0`.
use vstd::prelude::*;
use vstd::string::*;

verus! {

// ---------------------------------------------------------------------------
// The text model
// ---------------------------------------------------------------------------

/// Unicode `White_Space`, the set `char::is_whitespace` (and so `str::trim`) uses.
pub open spec fn is_ws(c: char) -> bool {
    let n = c as u32;
    (9 <= n && n <= 13) || n == 32 || n == 0x85 || n == 0xA0 || n == 0x1680 || (0x2000 <= n
        && n <= 0x200A) || n == 0x2028 || n == 0x2029 || n == 0x202F || n == 0x205F || n == 0x3000
}

pub open spec fn trim_start(s: Seq<char>) -> Seq<char>
    decreases s.len(),
{
    if s.len() > 0 && is_ws(s[0]) {
        trim_start(s.drop_first())
    } else {
        s
    }
}

pub open spec fn trim_end(s: Seq<char>) -> Seq<char>
    decreases s.len(),
{
    if s.len() > 0 && is_ws(s.last()) {
        trim_end(s.drop_last())
    } else {
        s
    }
}

/// The text with leading and trailing whitespace removed.
pub open spec fn trim(s: Seq<char>) -> Seq<char> {
    trim_end(trim_start(s))
}

/// `t` is `open`, then anything, then `close` (at least two characters).
pub open spec fn delimited(t: Seq<char>, open: char, close: char) -> bool {
    t.len() >= 2 && t[0] == open && t[t.len() - 1] == close
}

/// What stands between the first and the last character.
pub open spec fn inner(t: Seq<char>) -> Seq<char> {
    if t.len() >= 2 {
        t.subrange(1, t.len() - 1)
    } else {
        Seq::empty()
    }
}

/// The separator ` x ` of an array type starts at `i`.
pub open spec fn x_at(s: Seq<char>, i: int) -> bool {
    0 <= i && i + 3 <= s.len() && s[i] == ' ' && s[i + 1] == 'x' && s[i + 2] == ' '
}

pub open spec fn find_x_from(s: Seq<char>, i: int) -> int
    decreases s.len() - i,
{
    if i < 0 || i + 3 > s.len() {
        -1
    } else if x_at(s, i) {
        i
    } else {
        find_x_from(s, i + 1)
    }
}

/// The first ` x ` in `s`, or `-1`.
pub open spec fn find_x(s: Seq<char>) -> int {
    find_x_from(s, 0)
}

/// The element count text of an array body whose separator is at `i`.
pub open spec fn count_text(inn: Seq<char>, i: int) -> Seq<char> {
    trim(inn.subrange(0, i))
}

/// The element type text of an array body whose separator is at `i`.
pub open spec fn elem_text(inn: Seq<char>, i: int) -> Seq<char> {
    inn.subrange(i + 3, inn.len() as int)
}

pub open spec fn is_digit(c: char) -> bool {
    48 <= (c as u32) && (c as u32) <= 57
}

pub open spec fn digit_val(c: char) -> int {
    (c as u32) as int - 48
}

pub open spec fn all_digits(s: Seq<char>) -> bool {
    forall|i: int| 0 <= i < s.len() ==> is_digit(#[trigger] s[i])
}

/// The value of a string of decimal digits.
pub open spec fn digits_value(s: Seq<char>) -> int
    decreases s.len(),
{
    if s.len() == 0 {
        0
    } else {
        digits_value(s.drop_last()) * 10 + digit_val(s.last())
    }
}

/// The digits of a `u64` literal: one optional leading `+` is dropped.
pub open spec fn unsigned_digits(s: Seq<char>) -> Seq<char> {
    if s.len() > 0 && s[0] == '+' {
        s.drop_first()
    } else {
        s
    }
}

/// `str::parse::<u64>`: an optional `+`, then one or more decimal digits whose
/// value fits in a `u64`; anything else is an error (`None`).
pub open spec fn parse_u64(s: Seq<char>) -> Option<u64> {
    let d = unsigned_digits(s);
    if d.len() > 0 && all_digits(d) && digits_value(d) <= u64::MAX {
        Some(digits_value(d) as u64)
    } else {
        None
    }
}

pub open spec fn parse_or_zero(s: Seq<char>) -> nat {
    match parse_u64(s) {
        Some(v) => v as nat,
        None => 0,
    }
}

/// Bytes of a scalar type text: `ptr` and `double` 8, `float` 4, `iN` the whole
/// bytes that hold `N` bits, anything else 0.
pub open spec fn scalar_bytes(t: Seq<char>) -> nat {
    if t == seq!['p', 't', 'r'] || t == seq!['d', 'o', 'u', 'b', 'l', 'e'] {
        8
    } else if t == seq!['f', 'l', 'o', 'a', 't'] {
        4
    } else if t.len() > 0 && t[0] == 'i' {
        match parse_u64(t.drop_first()) {
            Some(bits) => (bits as nat + 7) / 8,
            None => 0,
        }
    } else {
        0
    }
}

pub open spec fn bracket_delta(c: char) -> int {
    if c == '{' || c == '[' {
        1
    } else if c == '}' || c == ']' {
        -1
    } else {
        0
    }
}

/// The bracket nesting depth after the first `k` characters.
pub open spec fn depth_at(s: Seq<char>, k: int) -> int
    decreases k,
{
    if k <= 0 {
        0
    } else {
        depth_at(s, k - 1) + bracket_delta(s[k - 1])
    }
}

/// Every prefix's nesting depth fits the `i32` counter that tracks it.
pub open spec fn nesting_fits(s: Seq<char>) -> bool {
    forall|k: int| 0 <= k <= s.len() ==> i32::MIN <= #[trigger] depth_at(s, k) <= i32::MAX
}

/// A comma at nesting depth zero: it separates two fields.
pub open spec fn top_comma(s: Seq<char>, i: int) -> bool {
    0 <= i < s.len() && s[i] == ',' && depth_at(s, i) == 0
}

/// The pieces of `s[start..]` between top-level commas, scanning from `i`.
pub open spec fn segments(s: Seq<char>, i: int, start: int) -> Seq<Seq<char>>
    decreases s.len() - i,
{
    if i >= s.len() {
        seq![s.subrange(start, s.len() as int)]
    } else if top_comma(s, i) {
        seq![s.subrange(start, i)] + segments(s, i + 1, i + 1)
    } else {
        segments(s, i + 1, start)
    }
}

/// The texts of a sequence of string slices.
pub open spec fn text_views(v: Seq<&str>) -> Seq<Seq<char>> {
    v.map_values(|f: &str| f@)
}

/// Each text trimmed.
pub open spec fn trims(v: Seq<Seq<char>>) -> Seq<Seq<char>> {
    v.map_values(|p: Seq<char>| trim(p))
}

/// The fields of a struct body: every top-level piece trimmed, except that an
/// empty last piece is no field.
pub open spec fn field_list(s: Seq<char>) -> Seq<Seq<char>> {
    let segs = segments(s, 0, 0);
    let body = trims(segs.drop_last());
    let tail = trim(segs.last());
    if tail.len() == 0 {
        body
    } else {
        body.push(tail)
    }
}

/// The fields of `s` read as a struct type text.
pub open spec fn struct_fields(s: Seq<char>) -> Seq<Seq<char>> {
    field_list(inner(trim(s)))
}

/// `x` rounded up to a multiple of `a`.
pub open spec fn round_up(x: nat, a: nat) -> nat {
    if a == 0 || x % a == 0 {
        x
    } else {
        (x + (a - x % a)) as nat
    }
}

pub open spec fn max_nat(a: nat, b: nat) -> nat {
    if a >= b {
        a
    } else {
        b
    }
}

// ---------------------------------------------------------------------------
// Sizes and alignments
// ---------------------------------------------------------------------------

/// The ABI alignment of a type text: a scalar at its width (at least 1), an
/// array at its element's, a struct at its widest field's (1 when it has none).
pub open spec fn llt_algn(s: Seq<char>) -> nat
    decreases s.len(), 1int, 0int,
{
    let t = trim(s);
    if delimited(t, '[', ']') {
        let inn = inner(t);
        let i = find_x(inn);
        if i < 0 {
            1
        } else {
            proof {
                lemma_elem_shorter(s);
            }
            llt_algn(elem_text(inn, i))
        }
    } else if delimited(t, '{', '}') {
        struct_align(s, struct_fields(s).len() as int)
    } else {
        max_nat(scalar_bytes(t), 1)
    }
}

/// The widest alignment among the first `k` fields of struct text `s`, and 1.
pub open spec fn struct_align(s: Seq<char>, k: int) -> nat
    decreases s.len(), 0int, k,
{
    let fs = struct_fields(s);
    if k <= 0 || k > fs.len() {
        1
    } else {
        proof {
            lemma_fields_shorter(s);
        }
        max_nat(struct_align(s, k - 1), llt_algn(fs[k - 1]))
    }
}

/// The size in bytes of a type text: an array `n` times its element, a struct
/// its fields laid out at their alignments and padded to its own alignment, a
/// scalar by `scalar_bytes`; an array without ` x ` is 0.
pub open spec fn llt_size(s: Seq<char>) -> nat
    decreases s.len(), 1int, 0int,
{
    let t = trim(s);
    if delimited(t, '[', ']') {
        let inn = inner(t);
        let i = find_x(inn);
        if i < 0 {
            0
        } else {
            proof {
                lemma_elem_shorter(s);
            }
            parse_or_zero(count_text(inn, i)) * llt_size(elem_text(inn, i))
        }
    } else if delimited(t, '{', '}') {
        let n = struct_fields(s).len() as int;
        round_up(struct_acc(s, n), struct_align(s, n))
    } else {
        scalar_bytes(t)
    }
}

/// The end offset of the `k`-th field of struct text `s`: the previous end
/// rounded up to the field's alignment, plus its size.
pub open spec fn struct_acc(s: Seq<char>, k: int) -> nat
    decreases s.len(), 0int, k,
{
    let fs = struct_fields(s);
    if k <= 0 || k > fs.len() {
        0
    } else {
        proof {
            lemma_fields_shorter(s);
        }
        round_up(struct_acc(s, k - 1), llt_algn(fs[k - 1])) + llt_size(fs[k - 1])
    }
}

/// Sizing `s` never overflows a `u64` and never overflows the nesting counter.
pub open spec fn llt_ok(s: Seq<char>) -> bool
    decreases s.len(), 1int, 0int,
{
    let t = trim(s);
    if delimited(t, '[', ']') {
        let inn = inner(t);
        let i = find_x(inn);
        if i < 0 {
            true
        } else {
            proof {
                lemma_elem_shorter(s);
            }
            llt_ok(elem_text(inn, i)) && parse_or_zero(count_text(inn, i)) * llt_size(
                elem_text(inn, i),
            ) <= u64::MAX
        }
    } else if delimited(t, '{', '}') {
        let n = struct_fields(s).len() as int;
        nesting_fits(inner(t)) && fields_ok(s, n) && round_up(struct_acc(s, n), struct_align(s, n))
            <= u64::MAX
    } else {
        true
    }
}

/// The first `k` fields of struct text `s` size without overflow.
pub open spec fn fields_ok(s: Seq<char>, k: int) -> bool
    decreases s.len(), 0int, k,
{
    let fs = struct_fields(s);
    if k <= 0 || k > fs.len() {
        true
    } else {
        proof {
            lemma_fields_shorter(s);
        }
        fields_ok(s, k - 1) && llt_ok(fs[k - 1]) && round_up(struct_acc(s, k - 1), llt_algn(fs[k - 1]))
            + llt_size(fs[k - 1]) <= u64::MAX
    }
}

/// Aligning `s` never overflows the nesting counter.
pub open spec fn align_ok(s: Seq<char>) -> bool
    decreases s.len(), 1int, 0int,
{
    let t = trim(s);
    if delimited(t, '[', ']') {
        let inn = inner(t);
        let i = find_x(inn);
        if i < 0 {
            true
        } else {
            proof {
                lemma_elem_shorter(s);
            }
            align_ok(elem_text(inn, i))
        }
    } else if delimited(t, '{', '}') {
        nesting_fits(inner(t)) && fields_align_ok(s, struct_fields(s).len() as int)
    } else {
        true
    }
}

pub open spec fn fields_align_ok(s: Seq<char>, k: int) -> bool
    decreases s.len(), 0int, k,
{
    let fs = struct_fields(s);
    if k <= 0 || k > fs.len() {
        true
    } else {
        proof {
            lemma_fields_shorter(s);
        }
        fields_align_ok(s, k - 1) && align_ok(fs[k - 1])
    }
}

// ---------------------------------------------------------------------------
// Lemmas on the text model
// ---------------------------------------------------------------------------

proof fn lemma_trim_start_suffix(s: Seq<char>)
    ensures
        exists|a: int| 0 <= a <= s.len() && trim_start(s) == s.subrange(a, s.len() as int),
    decreases s.len(),
{
    if s.len() > 0 && is_ws(s[0]) {
        lemma_trim_start_suffix(s.drop_first());
        let a = choose|a: int|
            0 <= a <= s.drop_first().len() && trim_start(s.drop_first()) == s.drop_first().subrange(
                a,
                s.drop_first().len() as int,
            );
        assert(s.drop_first().subrange(a, s.drop_first().len() as int) =~= s.subrange(
            a + 1,
            s.len() as int,
        ));
    } else {
        assert(s.subrange(0, s.len() as int) =~= s);
    }
}

proof fn lemma_trim_end_prefix(s: Seq<char>)
    ensures
        exists|b: int| 0 <= b <= s.len() && trim_end(s) == s.subrange(0, b),
    decreases s.len(),
{
    if s.len() > 0 && is_ws(s.last()) {
        lemma_trim_end_prefix(s.drop_last());
        let b = choose|b: int|
            0 <= b <= s.drop_last().len() && trim_end(s.drop_last()) == s.drop_last().subrange(
                0,
                b,
            );
        assert(s.drop_last().subrange(0, b) =~= s.subrange(0, b));
    } else {
        assert(s.subrange(0, s.len() as int) =~= s);
    }
}

/// Trimming only removes characters.
pub proof fn lemma_trim_len(s: Seq<char>)
    ensures
        trim(s).len() <= s.len(),
{
    lemma_trim_start_suffix(s);
    lemma_trim_end_prefix(trim_start(s));
}

proof fn lemma_find_x_range(s: Seq<char>, i: int)
    ensures
        find_x_from(s, i) == -1 || (i <= find_x_from(s, i) && x_at(s, find_x_from(s, i))),
    decreases s.len() - i,
{
    if i < 0 || i + 3 > s.len() {
    } else if x_at(s, i) {
    } else {
        lemma_find_x_range(s, i + 1);
    }
}

/// The element text of an array type text is shorter than the whole.
pub proof fn lemma_elem_shorter(s: Seq<char>)
    ensures
        ({
            let t = trim(s);
            let inn = inner(t);
            let i = find_x(inn);
            delimited(t, '[', ']') && i >= 0 ==> elem_text(inn, i).len() < s.len()
        }),
{
    lemma_trim_len(s);
    lemma_find_x_range(inner(trim(s)), 0);
}

proof fn lemma_segments_len(s: Seq<char>, i: int, start: int)
    requires
        0 <= start <= i <= s.len(),
    ensures
        forall|j: int|
            0 <= j < segments(s, i, start).len() ==> #[trigger] segments(s, i, start)[j].len()
                <= s.len(),
        segments(s, i, start).len() >= 1,
    decreases s.len() - i,
{
    if i >= s.len() {
    } else if top_comma(s, i) {
        lemma_segments_len(s, i + 1, i + 1);
        let rest = segments(s, i + 1, i + 1);
        let all = seq![s.subrange(start, i)] + rest;
        assert forall|j: int| 0 <= j < all.len() implies #[trigger] all[j].len() <= s.len() by {
            if j > 0 {
                assert(all[j] == rest[j - 1]);
            }
        }
    } else {
        lemma_segments_len(s, i + 1, start);
    }
}

/// Every field of a struct body is at most as long as the body.
pub proof fn lemma_field_list_len(s: Seq<char>)
    ensures
        forall|j: int| 0 <= j < field_list(s).len() ==> #[trigger] field_list(s)[j].len() <= s.len(),
{
    lemma_segments_len(s, 0, 0);
    let segs = segments(s, 0, 0);
    let body = trims(segs.drop_last());
    let tail = trim(segs.last());
    assert forall|j: int| 0 <= j < field_list(s).len() implies #[trigger] field_list(s)[j].len()
        <= s.len() by {
        if j < body.len() {
            assert(body[j] == trim(segs[j]));
            lemma_trim_len(segs[j]);
        } else {
            lemma_trim_len(segs.last());
        }
    }
}

/// The fields of a struct type text are each shorter than the whole text.
pub proof fn lemma_fields_shorter(s: Seq<char>)
    ensures
        forall|j: int|
            0 <= j < struct_fields(s).len() ==> #[trigger] struct_fields(s)[j].len() < s.len(),
{
    let t = trim(s);
    lemma_trim_len(s);
    let inn = inner(t);
    lemma_field_list_len(inn);
    if t.len() < 2 {
        assert(inn.len() == 0);
        let segs = segments(inn, 0, 0);
        assert(segs == seq![inn.subrange(0, 0)]);
        assert(segs.drop_last().len() == 0);
        assert(trim(segs.last()).len() == 0) by {
            lemma_trim_len(segs.last());
        }
        assert(field_list(inn).len() == 0);
    }
}

// ---------------------------------------------------------------------------
// Executable text helpers
// ---------------------------------------------------------------------------

fn is_ws_char(c: char) -> (b: bool)
    ensures
        b == is_ws(c),
{
    let n = c as u32;
    (9 <= n && n <= 13) || n == 32 || n == 0x85 || n == 0xA0 || n == 0x1680 || (0x2000 <= n && n
        <= 0x200A) || n == 0x2028 || n == 0x2029 || n == 0x202F || n == 0x205F || n == 0x3000
}

/// The text without leading or trailing whitespace.
fn trim_text<'a>(s: &'a str) -> (r: &'a str)
    ensures
        r@ == trim(s@),
{
    let n = s.unicode_len();
    let mut a: usize = 0;
    assert(s@.subrange(0, n as int) =~= s@);
    while a < n
        invariant
            n == s@.len(),
            0 <= a <= n,
            trim_start(s@) == trim_start(s@.subrange(a as int, n as int)),
        ensures
            0 <= a <= n,
            trim_start(s@) == trim_start(s@.subrange(a as int, n as int)),
            a == n || !is_ws(s@[a as int]),
        decreases n - a,
    {
        if !is_ws_char(s.get_char(a)) {
            break ;
        }
        assert(s@.subrange(a as int, n as int).drop_first() =~= s@.subrange(a + 1, n as int));
        a += 1;
    }
    let ghost mid = s@.subrange(a as int, n as int);
    assert(trim_start(mid) == mid);
    let mut b: usize = n;
    while b > a
        invariant
            n == s@.len(),
            a <= b <= n,
            trim_end(mid) == trim_end(s@.subrange(a as int, b as int)),
            mid == s@.subrange(a as int, n as int),
        ensures
            a <= b <= n,
            trim_end(mid) == trim_end(s@.subrange(a as int, b as int)),
            b == a || !is_ws(s@[b - 1]),
        decreases b - a,
    {
        if !is_ws_char(s.get_char(b - 1)) {
            break ;
        }
        assert(s@.subrange(a as int, b as int).drop_last() =~= s@.subrange(a as int, b - 1));
        b -= 1;
    }
    let r = s.substring_char(a, b);
    assert(trim_end(s@.subrange(a as int, b as int)) == s@.subrange(a as int, b as int));
    r
}

/// The text between `open` and `close`, when `t` is so delimited.
fn delimited_inner<'a>(t: &'a str, open: char, close: char) -> (r: Option<&'a str>)
    ensures
        r is Some <==> delimited(t@, open, close),
        r matches Some(x) ==> x@ == inner(t@),
{
    let n = t.unicode_len();
    if n >= 2 && t.get_char(0) == open && t.get_char(n - 1) == close {
        Some(t.substring_char(1, n - 1))
    } else {
        None
    }
}

/// The first index of ` x ` in `s`.
fn find_x_text(s: &str) -> (r: Option<usize>)
    ensures
        match r {
            Some(i) => find_x(s@) == i as int,
            None => find_x(s@) == -1,
        },
{
    let n = s.unicode_len();
    let mut i: usize = 0;
    while i < n && n - i >= 3
        invariant
            n == s@.len(),
            0 <= i <= n,
            find_x(s@) == find_x_from(s@, i as int),
        decreases n - i,
    {
        if s.get_char(i) == ' ' && s.get_char(i + 1) == 'x' && s.get_char(i + 2) == ' ' {
            return Some(i);
        }
        i += 1;
    }
    None
}

proof fn lemma_digits_prefix_monotone(d: Seq<char>, k: int)
    requires
        0 <= k <= d.len(),
        all_digits(d),
    ensures
        digits_value(d.subrange(0, k)) <= digits_value(d),
        0 <= digits_value(d.subrange(0, k)),
    decreases d.len(),
{
    assert(d.subrange(0, d.len() as int) =~= d);
    if k < d.len() {
        let e = d.drop_last();
        assert(e.subrange(0, k) =~= d.subrange(0, k));
        assert forall|i: int| 0 <= i < e.len() implies is_digit(#[trigger] e[i]) by {
            assert(e[i] == d[i]);
        }
        lemma_digits_prefix_monotone(e, k);
        assert(is_digit(d[d.len() - 1]));
    } else {
        lemma_digits_nonneg(d);
    }
}

proof fn lemma_digits_nonneg(d: Seq<char>)
    requires
        all_digits(d),
    ensures
        digits_value(d) >= 0,
    decreases d.len(),
{
    if d.len() > 0 {
        let e = d.drop_last();
        assert forall|i: int| 0 <= i < e.len() implies is_digit(#[trigger] e[i]) by {
            assert(e[i] == d[i]);
        }
        lemma_digits_nonneg(e);
        assert(is_digit(d[d.len() - 1]));
    }
}

/// `str::parse::<u64>`, written out over the characters.
pub(crate) fn parse_u64_text(s: &str) -> (r: Option<u64>)
    ensures
        r == parse_u64(s@),
{
    let n = s.unicode_len();
    let mut start: usize = 0;
    if n > 0 && s.get_char(0) == '+' {
        start = 1;
    }
    let ghost d = unsigned_digits(s@);
    assert(d =~= s@.subrange(start as int, n as int));
    if start == n {
        return None;
    }
    let mut v: u64 = 0;
    let mut i: usize = start;
    while i < n
        invariant
            n == s@.len(),
            start <= i <= n,
            start < n,
            d == s@.subrange(start as int, n as int),
            d == unsigned_digits(s@),
            forall|j: int| start <= j < i ==> is_digit(#[trigger] s@[j]),
            v as int == digits_value(d.subrange(0, i - start)),
        decreases n - i,
    {
        let c = s.get_char(i);
        let code = c as u32;
        assert(d[i - start] == s@[i as int]);
        if !(48 <= code && code <= 57) {
            assert(!is_digit(d[i - start]));
            return None;
        }
        let digit = (code - 48) as u64;
        assert(d.subrange(0, i + 1 - start).drop_last() =~= d.subrange(0, i - start));
        match v.checked_mul(10) {
            None => {
                proof {
                    if all_digits(d) {
                        lemma_digits_prefix_monotone(d, i + 1 - start);
                        lemma_digits_prefix_monotone(d, i - start);
                    }
                }
                return None;
            },
            Some(w) => match w.checked_add(digit) {
                None => {
                    proof {
                        if all_digits(d) {
                            lemma_digits_prefix_monotone(d, i + 1 - start);
                        }
                    }
                    return None;
                },
                Some(x) => {
                    v = x;
                },
            },
        }
        i += 1;
    }
    assert(d.subrange(0, n - start) =~= d);
    assert forall|j: int| 0 <= j < d.len() implies is_digit(#[trigger] d[j]) by {
        assert(d[j] == s@[start + j]);
    }
    Some(v)
}

fn round_up_u64(x: u64, a: u64) -> (r: u64)
    requires
        a > 0,
        round_up(x as nat, a as nat) <= u64::MAX,
    ensures
        r == round_up(x as nat, a as nat),
{
    let rem = x % a;
    if rem == 0 {
        x
    } else {
        x + (a - rem)
    }
}

fn scalar_bytes_text(t: &str) -> (r: u64)
    ensures
        r == scalar_bytes(t@),
{
    let n = t.unicode_len();
    if n == 3 && t.get_char(0) == 'p' && t.get_char(1) == 't' && t.get_char(2) == 'r' {
        assert(t@ =~= seq!['p', 't', 'r']);
        return 8;
    }
    if n == 6 && t.get_char(0) == 'd' && t.get_char(1) == 'o' && t.get_char(2) == 'u'
        && t.get_char(3) == 'b' && t.get_char(4) == 'l' && t.get_char(5) == 'e' {
        assert(t@ =~= seq!['d', 'o', 'u', 'b', 'l', 'e']);
        return 8;
    }
    if n == 5 && t.get_char(0) == 'f' && t.get_char(1) == 'l' && t.get_char(2) == 'o'
        && t.get_char(3) == 'a' && t.get_char(4) == 't' {
        assert(t@ =~= seq!['f', 'l', 'o', 'a', 't']);
        return 4;
    }
    if n > 0 && t.get_char(0) == 'i' {
        let rest = t.substring_char(1, n);
        assert(rest@ =~= t@.drop_first());
        match parse_u64_text(rest) {
            Some(bits) => bits / 8 + if bits % 8 != 0 {
                1
            } else {
                0
            },
            None => 0,
        }
    } else {
        0
    }
}

// ---------------------------------------------------------------------------
// The sizing functions
// ---------------------------------------------------------------------------

/// `<TJ x elem>`: the vector type of `tile_j` lanes of `elem_llt`.
pub fn vec_llt(elem_llt: &str, tile_j: u64) -> (r: String)
    ensures
        r@ == seq!['<'] + crate::num::dec_nat(tile_j as nat) + seq![' ', 'x', ' '] + elem_llt@
            + seq!['>'],
{
    let mut r = String::from_str("<");
    r.append(crate::num::u64_to_string(tile_j).as_str());
    r.append(" x ");
    r.append(elem_llt);
    r.append(">");
    proof {
        reveal_strlit("<");
        reveal_strlit(" x ");
        reveal_strlit(">");
    }
    assert(r@ =~= seq!['<'] + crate::num::dec_nat(tile_j as nat) + seq![' ', 'x', ' '] + elem_llt@
        + seq!['>']);
    r
}

/// Split a literal struct's body on its top-level commas (a field may itself
/// be an array or a struct, whose commas do not separate); each field trimmed,
/// and an empty last piece dropped.
pub fn llt_fields<'a>(inner: &'a str) -> (out: Vec<&'a str>)
    requires
        nesting_fits(inner@),
    ensures
        text_views(out@) == field_list(inner@),
{
    let n = inner.unicode_len();
    let mut out: Vec<&'a str> = Vec::new();
    let mut depth: i32 = 0;
    let mut start: usize = 0;
    let mut i: usize = 0;
    let ghost mut raw: Seq<Seq<char>> = Seq::empty();
    assert(text_views(out@) =~= trims(raw));
    while i < n
        invariant
            n == inner@.len(),
            0 <= start <= i <= n,
            depth == depth_at(inner@, i as int),
            nesting_fits(inner@),
            segments(inner@, 0, 0) == raw + segments(inner@, i as int, start as int),
            text_views(out@) == trims(raw),
        decreases n - i,
    {
        let c = inner.get_char(i);
        let ghost d1 = depth_at(inner@, i + 1);
        assert(d1 == depth + bracket_delta(c));
        assert(i32::MIN <= d1 <= i32::MAX);
        if c == '{' || c == '[' {
            depth += 1;
            assert(!top_comma(inner@, i as int));
        } else if c == '}' || c == ']' {
            depth -= 1;
            assert(!top_comma(inner@, i as int));
        } else if c == ',' && depth == 0 {
            let seg = inner.substring_char(start, i);
            let f = trim_text(seg);
            let ghost old_out = out@;
            let ghost old_raw = raw;
            out.push(f);
            proof {
                raw = raw.push(inner@.subrange(start as int, i as int));
                assert(top_comma(inner@, i as int));
                assert(old_raw + segments(inner@, i as int, start as int) =~= raw + segments(
                    inner@,
                    i + 1,
                    i + 1,
                ));
                assert(out@ == old_out.push(f));
                assert(text_views(out@) =~= text_views(old_out).push(f@));
                assert(trims(raw) =~= trims(old_raw).push(trim(inner@.subrange(start as int, i as int))));
                assert(text_views(out@) =~= trims(raw));
            }
            start = i + 1;
        } else {
            assert(!top_comma(inner@, i as int));
        }
        i += 1;
    }
    let last = inner.substring_char(start, n);
    let tail = trim_text(last);
    proof {
        let segs = segments(inner@, 0, 0);
        assert(segments(inner@, n as int, start as int) == seq![inner@.subrange(
            start as int,
            n as int,
        )]);
        assert(segs.drop_last() =~= raw);
        assert(segs.last() == inner@.subrange(start as int, n as int));
    }
    if !tail.is_empty() {
        let ghost old_out = out@;
        out.push(tail);
        assert(text_views(out@) =~= text_views(old_out).push(tail@));
    }
    out
}

/// The ABI alignment of an emitted LLVM type text: scalars at width, an array
/// at its element's, a struct at its widest field's.
pub fn llt_align(llt: &str) -> (r: u64)
    requires
        align_ok(llt@),
    ensures
        r == llt_algn(llt@),
    decreases llt@.len(),
{
    proof {
        lemma_elem_shorter(llt@);
        lemma_fields_shorter(llt@);
    }
    let t = trim_text(llt);
    if let Some(inn) = delimited_inner(t, '[', ']') {
        return match find_x_text(inn) {
            None => 1,
            Some(i) => {
                proof {
                    lemma_find_x_range(inn@, 0);
                }
                let m = inn.unicode_len();
                let elem = inn.substring_char(i + 3, m);
                llt_align(elem)
            },
        };
    }
    if let Some(inn) = delimited_inner(t, '{', '}') {
        let fields = llt_fields(inn);
        let ghost fs = struct_fields(llt@);
        assert(text_views(fields@) == fs);
        let mut best: u64 = 1;
        let mut j: usize = 0;
        while j < fields.len()
            invariant
                text_views(fields@) == fs,
                fs == struct_fields(llt@),
                0 <= j <= fields.len(),
                best == struct_align(llt@, j as int),
                fields_align_ok(llt@, fs.len() as int),
                forall|k: int| 0 <= k < fs.len() ==> #[trigger] fs[k].len() < llt@.len(),
            decreases fields.len() - j,
        {
            assert(fields@[j as int]@ == fs[j as int]);
            proof {
                lemma_fields_align_ok_prefix(llt@, fs.len() as int, j + 1);
                lemma_struct_align_monotone(llt@, j + 1, fs.len() as int);
            }
            let a = llt_align(fields[j]);
            if a > best {
                best = a;
            }
            j += 1;
        }
        return best;
    }
    let b = scalar_bytes_text(t);
    if b > 1 {
        b
    } else {
        1
    }
}

/// The size in bytes of an emitted LLVM type text, under the LLVM data layout
/// (each field at its own ABI alignment, tail-padded to the widest). Anything
/// unrecognised sizes to `0`.
pub fn llt_bytes(llt: &str) -> (r: u64)
    requires
        llt_ok(llt@),
    ensures
        r == llt_size(llt@),
    decreases llt@.len(),
{
    proof {
        lemma_elem_shorter(llt@);
        lemma_fields_shorter(llt@);
    }
    let t = trim_text(llt);
    if let Some(inn) = delimited_inner(t, '[', ']') {
        return match find_x_text(inn) {
            None => 0,
            Some(i) => {
                proof {
                    lemma_find_x_range(inn@, 0);
                }
                let count = trim_text(inn.substring_char(0, i));
                let m = inn.unicode_len();
                let elem = inn.substring_char(i + 3, m);
                let n = match parse_u64_text(count) {
                    Some(v) => v,
                    None => 0,
                };
                let eb = llt_bytes(elem);
                n * eb
            },
        };
    }
    if let Some(inn) = delimited_inner(t, '{', '}') {
        let fields = llt_fields(inn);
        let ghost fs = struct_fields(llt@);
        assert(text_views(fields@) == fs);
        let mut size: u64 = 0;
        let mut align: u64 = 1;
        let mut j: usize = 0;
        while j < fields.len()
            invariant
                text_views(fields@) == fs,
                fs == struct_fields(llt@),
                0 <= j <= fields.len(),
                size == struct_acc(llt@, j as int),
                align == struct_align(llt@, j as int),
                fields_ok(llt@, fs.len() as int),
                forall|k: int| 0 <= k < fs.len() ==> #[trigger] fs[k].len() < llt@.len(),
            decreases fields.len() - j,
        {
            assert(fields@[j as int]@ == fs[j as int]);
            proof {
                lemma_fields_ok_prefix(llt@, fs.len() as int, j + 1);
                lemma_struct_align_monotone(llt@, j + 1, fs.len() as int);
                lemma_ok_implies_align_ok(fs[j as int]);
                lemma_algn_pos(fs[j as int]);
            }
            let a = llt_align(fields[j]);
            size = round_up_u64(size, a) + llt_bytes(fields[j]);
            if a > align {
                align = a;
            }
            j += 1;
        }
        proof {
            lemma_struct_align_pos(llt@, fs.len() as int);
        }
        return round_up_u64(size, align);
    }
    scalar_bytes_text(t)
}

// ---------------------------------------------------------------------------
// Lemmas on sizes and alignments
// ---------------------------------------------------------------------------

proof fn lemma_fields_ok_prefix(s: Seq<char>, n: int, k: int)
    requires
        fields_ok(s, n),
        0 < k <= n <= struct_fields(s).len(),
    ensures
        fields_ok(s, k),
        llt_ok(struct_fields(s)[k - 1]),
        round_up(struct_acc(s, k - 1), llt_algn(struct_fields(s)[k - 1])) + llt_size(
            struct_fields(s)[k - 1],
        ) <= u64::MAX,
    decreases n - k,
{
    if k < n {
        lemma_fields_ok_prefix(s, n, k + 1);
    }
}

proof fn lemma_fields_align_ok_prefix(s: Seq<char>, n: int, k: int)
    requires
        fields_align_ok(s, n),
        0 < k <= n <= struct_fields(s).len(),
    ensures
        fields_align_ok(s, k),
        align_ok(struct_fields(s)[k - 1]),
    decreases n - k,
{
    if k < n {
        lemma_fields_align_ok_prefix(s, n, k + 1);
    }
}

proof fn lemma_struct_align_monotone(s: Seq<char>, k: int, n: int)
    requires
        0 <= k <= n <= struct_fields(s).len(),
    ensures
        struct_align(s, k) <= struct_align(s, n),
        k > 0 ==> llt_algn(struct_fields(s)[k - 1]) <= struct_align(s, n),
    decreases n - k,
{
    if k < n {
        lemma_struct_align_monotone(s, k + 1, n);
    }
}

proof fn lemma_struct_align_pos(s: Seq<char>, k: int)
    ensures
        struct_align(s, k) >= 1,
    decreases k,
{
    if k > 0 && k <= struct_fields(s).len() {
        lemma_struct_align_pos(s, k - 1);
    }
}

/// Every alignment is at least 1.
pub proof fn lemma_algn_pos(s: Seq<char>)
    ensures
        llt_algn(s) >= 1,
    decreases s.len(),
{
    let t = trim(s);
    lemma_elem_shorter(s);
    if delimited(t, '[', ']') {
        let inn = inner(t);
        let i = find_x(inn);
        if i >= 0 {
            lemma_algn_pos(elem_text(inn, i));
        }
    } else if delimited(t, '{', '}') {
        lemma_struct_align_pos(s, struct_fields(s).len() as int);
    }
}

/// Sizing without overflow implies aligning without overflow.
pub proof fn lemma_ok_implies_align_ok(s: Seq<char>)
    requires
        llt_ok(s),
    ensures
        align_ok(s),
    decreases s.len(), 1int,
{
    let t = trim(s);
    lemma_elem_shorter(s);
    lemma_fields_shorter(s);
    if delimited(t, '[', ']') {
        let inn = inner(t);
        let i = find_x(inn);
        if i >= 0 {
            lemma_ok_implies_align_ok(elem_text(inn, i));
        }
    } else if delimited(t, '{', '}') {
        lemma_fields_ok_implies_align(s, struct_fields(s).len() as int);
    }
}

proof fn lemma_fields_ok_implies_align(s: Seq<char>, k: int)
    requires
        fields_ok(s, k),
    ensures
        fields_align_ok(s, k),
    decreases s.len(), 0int, k,
{
    lemma_fields_shorter(s);
    if k > 0 && k <= struct_fields(s).len() {
        lemma_fields_ok_implies_align(s, k - 1);
        lemma_ok_implies_align_ok(struct_fields(s)[k - 1]);
    }
}

// ---------------------------------------------------------------------------
// Laws of the layout
// ---------------------------------------------------------------------------

/// Rounding up to `a` lands on a multiple of `a`, at most `a - 1` past `x`.
pub proof fn lemma_round_up(x: nat, a: nat)
    requires
        a >= 1,
    ensures
        round_up(x, a) % a == 0,
        x <= round_up(x, a) < x + a,
{
    vstd::arithmetic::div_mod::lemma_fundamental_div_mod(x as int, a as int);
    vstd::arithmetic::div_mod::lemma_mod_bound(x as int, a as int);
    let q = x as int / a as int;
    if x % a != 0 {
        assert(round_up(x, a) == (q + 1) * a) by (nonlinear_arith)
            requires
                x == a * q + x % a,
                round_up(x, a) == x + (a - x % a),
        ;
        vstd::arithmetic::div_mod::lemma_mod_multiples_basic(q + 1, a as int);
    } else {
        assert(round_up(x, a) == x);
    }
}

/// The LLVM layout's size is always a whole number of its alignment: a struct
/// is tail-padded to its widest field, an array repeats an element that
/// already is, and a scalar is as wide as it is aligned.
pub proof fn lemma_size_multiple_of_align(s: Seq<char>)
    ensures
        llt_algn(s) >= 1,
        llt_size(s) % llt_algn(s) == 0,
    decreases s.len(),
{
    lemma_algn_pos(s);
    let t = trim(s);
    lemma_elem_shorter(s);
    if delimited(t, '[', ']') {
        let inn = inner(t);
        let i = find_x(inn);
        if i >= 0 {
            let e = elem_text(inn, i);
            lemma_size_multiple_of_align(e);
            let n = parse_or_zero(count_text(inn, i)) as int;
            let a = llt_algn(e) as int;
            let q = llt_size(e) as int / a;
            vstd::arithmetic::div_mod::lemma_fundamental_div_mod(llt_size(e) as int, a);
            assert(n * llt_size(e) == (n * q) * a) by (nonlinear_arith)
                requires
                    llt_size(e) == a * q + 0,
            ;
            vstd::arithmetic::div_mod::lemma_mod_multiples_basic(n * q, a);
        }
    } else if delimited(t, '{', '}') {
        let k = struct_fields(s).len() as int;
        lemma_struct_align_pos(s, k);
        lemma_round_up(struct_acc(s, k), struct_align(s, k));
    } else {
        let b = scalar_bytes(t);
        if b >= 1 {
            vstd::arithmetic::div_mod::lemma_mod_multiples_basic(1, b as int);
        }
    }
}

/// Every field of a struct starts at an offset aligned for it, lies wholly
/// inside the struct, and the padding after the last field is less than the
/// struct's alignment.
pub proof fn lemma_struct_fields_placed(s: Seq<char>, k: int)
    requires
        delimited(trim(s), '{', '}'),
        0 < k <= struct_fields(s).len(),
    ensures
        ({
            let f = struct_fields(s)[k - 1];
            let offset = round_up(struct_acc(s, k - 1), llt_algn(f));
            &&& offset % llt_algn(f) == 0
            &&& struct_acc(s, k - 1) <= offset
            &&& offset + llt_size(f) == struct_acc(s, k)
            &&& struct_acc(s, k) <= llt_size(s)
        }),
        llt_size(s) < struct_acc(s, struct_fields(s).len() as int) + llt_algn(s),
{
    let n = struct_fields(s).len() as int;
    let f = struct_fields(s)[k - 1];
    lemma_algn_pos(f);
    lemma_round_up(struct_acc(s, k - 1), llt_algn(f));
    lemma_struct_acc_monotone(s, k, n);
    lemma_struct_align_pos(s, n);
    lemma_round_up(struct_acc(s, n), struct_align(s, n));
}

proof fn lemma_struct_acc_monotone(s: Seq<char>, k: int, n: int)
    requires
        0 <= k <= n <= struct_fields(s).len(),
    ensures
        struct_acc(s, k) <= struct_acc(s, n),
    decreases n - k,
{
    if k < n {
        lemma_struct_acc_monotone(s, k + 1, n);
        let f = struct_fields(s)[k];
        lemma_algn_pos(f);
        lemma_round_up(struct_acc(s, k), llt_algn(f));
    }
}

/// The type text `[n x e]`.
pub open spec fn array_text(n: nat, e: Seq<char>) -> Seq<char> {
    seq!['['] + crate::num::dec_nat(n) + seq![' ', 'x', ' '] + e + seq![']']
}

/// Every character of a decimal spelling is a digit, and the digits read back
/// as the number.
proof fn lemma_dec_nat_digits(n: nat)
    ensures
        all_digits(crate::num::dec_nat(n)),
        crate::num::dec_nat(n).len() >= 1,
        digits_value(crate::num::dec_nat(n)) == n,
    decreases n,
{
    let d = crate::num::dec_nat(n);
    if n < 10 {
        assert((crate::num::digit_char(n as int) as u32) as int == n + 48);
        assert(d.drop_last() =~= Seq::<char>::empty());
        assert(digit_val(d.last()) == n);
        assert(digits_value(d) == digits_value(d.drop_last()) * 10 + digit_val(d.last()));
    } else {
        lemma_dec_nat_digits(n / 10);
        let r = (n % 10) as int;
        assert((crate::num::digit_char(r) as u32) as int == r + 48);
        assert(d.drop_last() =~= crate::num::dec_nat(n / 10));
        assert(digit_val(d.last()) == r);
        assert(digits_value(d) == digits_value(d.drop_last()) * 10 + digit_val(d.last()));
        assert(n == (n / 10) * 10 + r);
        assert forall|i: int| 0 <= i < d.len() implies is_digit(#[trigger] d[i]) by {
            if i < d.len() - 1 {
                assert(d[i] == crate::num::dec_nat(n / 10)[i]);
            }
        }
    }
}

/// `find_x_from` skips characters that cannot start a separator.
proof fn lemma_find_x_skip(s: Seq<char>, i: int, j: int)
    requires
        0 <= i <= j,
        x_at(s, j),
        forall|k: int| i <= k < j ==> s[k] != ' ',
    ensures
        find_x_from(s, i) == j,
    decreases j - i,
{
    if i < j {
        lemma_find_x_skip(s, i + 1, j);
    }
}

/// A text whose first and last characters are not whitespace trims to itself.
pub(crate) proof fn lemma_trim_solid(s: Seq<char>)
    requires
        s.len() >= 1,
        !is_ws(s[0]),
        !is_ws(s.last()),
    ensures
        trim(s) == s,
{
}

/// An array of `n` elements of type `e` is `n` times as large as one element
/// and aligned as one element.
pub proof fn lemma_array_size(n: u64, e: Seq<char>)
    ensures
        llt_size(array_text(n as nat, e)) == n * llt_size(e),
        llt_algn(array_text(n as nat, e)) == llt_algn(e),
{
    let d = crate::num::dec_nat(n as nat);
    let a = array_text(n as nat, e);
    lemma_dec_nat_digits(n as nat);
    assert(!is_ws(a[0]));
    assert(a.last() == ']');
    lemma_trim_solid(a);
    let inn = inner(a);
    assert(inn =~= d + seq![' ', 'x', ' '] + e);
    let i = d.len() as int;
    assert forall|k: int| 0 <= k < i implies inn[k] != ' ' by {
        assert(inn[k] == d[k]);
        assert(is_digit(d[k]));
    }
    assert(x_at(inn, i));
    lemma_find_x_skip(inn, 0, i);
    assert(inn.subrange(0, i) =~= d);
    assert(is_digit(d[0]) && is_digit(d.last()));
    lemma_trim_solid(d);
    assert(unsigned_digits(d) == d);
    assert(parse_or_zero(count_text(inn, i)) == n);
    assert(elem_text(inn, i) =~= e);
}

/// The bytes of a struct's first `k` fields, without padding.
pub open spec fn fields_bytes(s: Seq<char>, k: int) -> nat
    decreases k,
{
    if k <= 0 || k > struct_fields(s).len() {
        0
    } else {
        fields_bytes(s, k - 1) + llt_size(struct_fields(s)[k - 1])
    }
}

proof fn lemma_acc_covers_fields(s: Seq<char>, k: int)
    requires
        0 <= k <= struct_fields(s).len(),
    ensures
        fields_bytes(s, k) <= struct_acc(s, k),
    decreases k,
{
    if k > 0 {
        lemma_acc_covers_fields(s, k - 1);
        let f = struct_fields(s)[k - 1];
        lemma_algn_pos(f);
        lemma_round_up(struct_acc(s, k - 1), llt_algn(f));
    }
}

/// A struct is a whole number of its alignment, that alignment is at least
/// every field's, and it is at least as large as its fields together.
pub proof fn lemma_struct_size(s: Seq<char>)
    requires
        delimited(trim(s), '{', '}'),
    ensures
        llt_size(s) % llt_algn(s) == 0,
        fields_bytes(s, struct_fields(s).len() as int) <= llt_size(s),
        forall|k: int| 0 <= k < struct_fields(s).len() ==> llt_algn(#[trigger] struct_fields(s)[k]) <= llt_algn(s),
{
    let n = struct_fields(s).len() as int;
    lemma_size_multiple_of_align(s);
    lemma_acc_covers_fields(s, n);
    lemma_struct_align_pos(s, n);
    lemma_round_up(struct_acc(s, n), struct_align(s, n));
    assert forall|k: int| 0 <= k < n implies llt_algn(#[trigger] struct_fields(s)[k]) <= llt_algn(s) by {
        lemma_struct_align_monotone(s, k + 1, n);
    }
}

/// A field text the struct reader gives back unchanged: non-empty, no
/// whitespace at either end, its brackets balanced and never closed below
/// where it started, and every comma inside brackets.
pub open spec fn piece_ok(p: Seq<char>) -> bool {
    &&& p.len() >= 1
    &&& !is_ws(p[0])
    &&& !is_ws(p.last())
    &&& depth_at(p, p.len() as int) == 0
    &&& forall|i: int| 0 <= i < p.len() && p[i] == ',' ==> depth_at(p, i) != 0
}

/// Pieces joined by single commas, from the front.
pub open spec fn comma_build(qs: Seq<Seq<char>>) -> Seq<char>
    decreases qs.len(),
{
    if qs.len() <= 1 {
        if qs.len() == 1 {
            qs[0]
        } else {
            Seq::empty()
        }
    } else {
        qs[0] + seq![','] + comma_build(qs.drop_first())
    }
}

pub(crate) proof fn lemma_depth_prefix(a: Seq<char>, b: Seq<char>, k: int)
    requires
        0 <= k <= a.len(),
    ensures
        depth_at(a + b, k) == depth_at(a, k),
    decreases k,
{
    if k > 0 {
        lemma_depth_prefix(a, b, k - 1);
        assert((a + b)[k - 1] == a[k - 1]);
    }
}

pub(crate) proof fn lemma_depth_concat(a: Seq<char>, b: Seq<char>, k: int)
    requires
        0 <= k <= b.len(),
    ensures
        depth_at(a + b, a.len() + k) == depth_at(a, a.len() as int) + depth_at(b, k),
    decreases k,
{
    if k > 0 {
        lemma_depth_concat(a, b, k - 1);
        assert((a + b)[a.len() + k - 1] == b[k - 1]);
    } else {
        lemma_depth_prefix(a, b, a.len() as int);
    }
}

/// Behind a balanced prefix, the segments are those of the rest.
proof fn lemma_segments_shift(a: Seq<char>, b: Seq<char>, i: int, st: int)
    requires
        depth_at(a, a.len() as int) == 0,
        0 <= st <= i <= b.len(),
    ensures
        segments(a + b, a.len() + i, a.len() + st) == segments(b, i, st),
    decreases b.len() - i,
{
    let s = a + b;
    if i < b.len() {
        lemma_depth_concat(a, b, i);
        assert(s[a.len() + i] == b[i]);
        assert(top_comma(s, a.len() + i) == top_comma(b, i));
        if top_comma(b, i) {
            lemma_segments_shift(a, b, i + 1, i + 1);
            assert(s.subrange(a.len() + st, a.len() + i) =~= b.subrange(st, i));
        } else {
            lemma_segments_shift(a, b, i + 1, st);
        }
    } else {
        assert(s.subrange(a.len() + st, s.len() as int) =~= b.subrange(st, b.len() as int));
    }
}

/// A text with no top-level comma from `i` on is one segment.
pub(crate) proof fn lemma_segments_whole(s: Seq<char>, i: int, st: int)
    requires
        0 <= st <= i <= s.len(),
        forall|j: int| i <= j < s.len() ==> !top_comma(s, j),
    ensures
        segments(s, i, st) == seq![s.subrange(st, s.len() as int)],
    decreases s.len() - i,
{
    if i < s.len() {
        lemma_segments_whole(s, i + 1, st);
    }
}

/// A clean first piece followed by a comma is the first segment.
proof fn lemma_segments_head(q: Seq<char>, r: Seq<char>, i: int)
    requires
        0 <= i <= q.len(),
        depth_at(q, q.len() as int) == 0,
        forall|j: int| 0 <= j < q.len() && q[j] == ',' ==> depth_at(q, j) != 0,
    ensures
        segments(q + seq![','] + r, i, 0) == seq![q] + segments(q + seq![','] + r, q.len() + 1int, q.len() + 1int),
    decreases q.len() - i,
{
    let s = q + seq![','] + r;
    lemma_depth_prefix(q, seq![','] + r, i);
    assert(s =~= q + (seq![','] + r));
    if i < q.len() {
        assert(s[i] == q[i]);
        lemma_segments_head(q, r, i + 1);
    } else {
        assert(s[i] == ',');
        assert(s.subrange(0, i) =~= q);
    }
}

/// A clean piece (with brackets balanced, commas inside) has a clean
/// leading-space form, and a trailing tail of plain characters keeps it clean.
proof fn lemma_clean_extend(q: Seq<char>, tail: Seq<char>)
    requires
        depth_at(q, q.len() as int) == 0,
        forall|j: int| 0 <= j < q.len() && q[j] == ',' ==> depth_at(q, j) != 0,
        forall|j: int| 0 <= j < tail.len() ==> tail[j] == ' ',
    ensures
        forall|j: int| 0 <= j < (q + tail).len() ==> !top_comma(q + tail, j),
{
    assert forall|j: int| 0 <= j < (q + tail).len() implies !top_comma(q + tail, j) by {
        if j < q.len() {
            lemma_depth_prefix(q, tail, j);
            assert((q + tail)[j] == q[j]);
        } else {
            assert((q + tail)[j] == tail[j - q.len()]);
        }
    }
}

/// Clean pieces joined by commas, with a blank tail, split back into the
/// pieces (the last one carrying the tail).
pub(crate) proof fn lemma_segments_build(qs: Seq<Seq<char>>, tail: Seq<char>)
    requires
        qs.len() >= 1,
        forall|k: int| 0 <= k < qs.len() ==> depth_at(#[trigger] qs[k], qs[k].len() as int) == 0,
        forall|k: int, j: int| 0 <= k < qs.len() && 0 <= j < qs[k].len() && #[trigger] qs[k][j] == ',' ==> depth_at(qs[k], j) != 0,
        forall|j: int| 0 <= j < tail.len() ==> tail[j] == ' ',
    ensures
        segments(comma_build(qs) + tail, 0, 0) == qs.update(qs.len() - 1, qs.last() + tail),
    decreases qs.len(),
{
    let q = qs[0];
    assert(depth_at(q, q.len() as int) == 0);
    assert forall|j: int| 0 <= j < q.len() && q[j] == ',' implies depth_at(q, j) != 0 by {
        assert(qs[0][j] == ',');
    }
    if qs.len() == 1 {
        lemma_clean_extend(q, tail);
        lemma_segments_whole(q + tail, 0, 0);
        assert((q + tail).subrange(0, (q + tail).len() as int) =~= q + tail);
        assert(seq![q + tail] =~= qs.update(0, q + tail));
    } else {
        let rest = qs.drop_first();
        let r = comma_build(rest) + tail;
        assert(comma_build(qs) + tail =~= q + seq![','] + r);
        lemma_segments_head(q, r, 0);
        assert(depth_at(q + seq![','], (q + seq![',']).len() as int) == 0) by {
            lemma_depth_concat(q, seq![','], 1);
            assert(seq![','][0] == ',');
            assert(depth_at(seq![','], 1) == depth_at(seq![','], 0) + bracket_delta(','));
        }
        assert(q + seq![','] + r =~= (q + seq![',']) + r);
        lemma_segments_shift(q + seq![','], r, 0, 0);
        assert forall|k: int| 0 <= k < rest.len() implies depth_at(#[trigger] rest[k], rest[k].len() as int) == 0 by {
            assert(rest[k] == qs[k + 1]);
        }
        assert forall|k: int, j: int| 0 <= k < rest.len() && 0 <= j < rest[k].len() && #[trigger] rest[k][j] == ',' implies depth_at(rest[k], j) != 0 by {
            assert(rest[k] == qs[k + 1]);
        }
        lemma_segments_build(rest, tail);
        assert(seq![q] + rest.update(rest.len() - 1, rest.last() + tail) =~= qs.update(qs.len() - 1, qs.last() + tail));
    }
}

pub(crate) proof fn lemma_comma_build_push(qs: Seq<Seq<char>>, y: Seq<char>)
    requires
        qs.len() >= 1,
    ensures
        comma_build(qs.push(y)) == comma_build(qs) + seq![','] + y,
    decreases qs.len(),
{
    if qs.len() == 1 {
        assert(qs.push(y).drop_first() =~= seq![y]);
        assert(comma_build(seq![y]) == y);
        assert(comma_build(qs) == qs[0]);
    } else {
        assert(qs.push(y).drop_first() =~= qs.drop_first().push(y));
        lemma_comma_build_push(qs.drop_first(), y);
        assert(comma_build(qs.push(y)) =~= comma_build(qs) + seq![','] + y);
    }
}

/// Each piece behind a space.
pub open spec fn spaced(ps: Seq<Seq<char>>) -> Seq<Seq<char>> {
    ps.map_values(|p: Seq<char>| seq![' '] + p)
}

pub(crate) proof fn lemma_trim_spaced(p: Seq<char>, tail: Seq<char>)
    requires
        piece_ok(p),
        forall|j: int| 0 <= j < tail.len() ==> tail[j] == ' ',
    ensures
        trim(seq![' '] + p + tail) == p,
    decreases tail.len(),
{
    let s = seq![' '] + p + tail;
    assert(is_ws(' '));
    assert(s.drop_first() =~= p + tail);
    assert(trim_start(s) == trim_start(p + tail));
    assert((p + tail)[0] == p[0]);
    assert(trim_start(p + tail) == p + tail);
    lemma_trim_end_tail(p, tail);
}

pub(crate) proof fn lemma_trim_end_tail(p: Seq<char>, tail: Seq<char>)
    requires
        p.len() >= 1,
        !is_ws(p.last()),
        forall|j: int| 0 <= j < tail.len() ==> tail[j] == ' ',
    ensures
        trim_end(p + tail) == p,
    decreases tail.len(),
{
    assert(is_ws(' '));
    if tail.len() == 0 {
        assert(p + tail =~= p);
    } else {
        assert((p + tail).drop_last() =~= p + tail.drop_last());
        lemma_trim_end_tail(p, tail.drop_last());
    }
}

} // verus!
