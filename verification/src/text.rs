//! Character-level text helpers shared by the event model, the filters and
//! the rule parsers. Strings are reasoned about through their `Seq<char>`
//! views; the few std operations without a vstd specification sit behind
//! small trusted wrappers.

use vstd::prelude::*;

verus! {

/// `char::is_whitespace`: the Unicode `White_Space` property, whose
/// code points are U+0009 to U+000D, U+0020, U+0085, U+00A0, U+1680,
/// U+2000 to U+200A, U+2028, U+2029, U+202F, U+205F and U+3000.
pub open spec fn is_white(c: char) -> bool {
    let u = c as u32;
    ||| 0x09 <= u <= 0x0d
    ||| u == 0x20
    ||| u == 0x85
    ||| u == 0xa0
    ||| u == 0x1680
    ||| 0x2000 <= u <= 0x200a
    ||| u == 0x2028
    ||| u == 0x2029
    ||| u == 0x202f
    ||| u == 0x205f
    ||| u == 0x3000
}

/// `str::to_lowercase`: full Unicode lowercase mapping of a string.
pub uninterp spec fn lower(s: Seq<char>) -> Seq<char>;

/// `{:?}` rendering of a string (quoted, escaped).
pub uninterp spec fn debug_quoted(s: Seq<char>) -> Seq<char>;

/// An ASCII decimal digit.
pub open spec fn is_digit(c: char) -> bool {
    48 <= c as u32 <= 57
}

/// The value of a decimal digit character.
pub open spec fn digit_value(c: char) -> int {
    c as u32 - 48
}

/// Every character is an ASCII decimal digit.
pub open spec fn all_digits(s: Seq<char>) -> bool {
    forall|i: int| 0 <= i < s.len() ==> is_digit(#[trigger] s[i])
}

/// The number a run of decimal digits denotes.
pub open spec fn digits_value(s: Seq<char>) -> int
    decreases s.len(),
{
    if s.len() == 0 {
        0
    } else {
        10 * digits_value(s.drop_last()) + digit_value(s.last())
    }
}

/// The number a non-empty run of decimal digits denotes, when it is at
/// most `limit`.
pub open spec fn magnitude_of(d: Seq<char>, limit: int) -> Option<int> {
    if d.len() > 0 && all_digits(d) && digits_value(d) <= limit {
        Some(digits_value(d))
    } else {
        None
    }
}

/// The digits of an unsigned integer text: all after an optional `+`.
pub open spec fn unsigned_body(s: Seq<char>) -> Seq<char> {
    if s.len() > 0 && s[0] == '+' {
        s.drop_first()
    } else {
        s
    }
}

/// `<i64 as FromStr>::from_str`: an optional sign (`+` or `-`) and then
/// at least one ASCII digit, the value in range; `None` otherwise.
pub open spec fn parsed_i64(s: Seq<char>) -> Option<i64> {
    if s.len() > 0 && s[0] == '-' {
        match magnitude_of(s.drop_first(), 0x8000_0000_0000_0000) {
            Some(v) => Some((-v) as i64),
            None => None,
        }
    } else {
        match magnitude_of(unsigned_body(s), i64::MAX as int) {
            Some(v) => Some(v as i64),
            None => None,
        }
    }
}

/// `<u16 as FromStr>::from_str`: an optional `+` and then at least one
/// ASCII digit, the value in range; `None` otherwise.
pub open spec fn parsed_u16(s: Seq<char>) -> Option<u16> {
    match magnitude_of(unsigned_body(s), u16::MAX as int) {
        Some(v) => Some(v as u16),
        None => None,
    }
}

/// `<u64 as FromStr>::from_str`: an optional `+` and then at least one
/// ASCII digit, the value in range; `None` otherwise.
pub open spec fn parsed_u64(s: Seq<char>) -> Option<u64> {
    match magnitude_of(unsigned_body(s), u64::MAX as int) {
        Some(v) => Some(v as u64),
        None => None,
    }
}

/// `<usize as FromStr>::from_str`: an optional `+` and then at least one
/// ASCII digit, the value in range; `None` otherwise.
pub open spec fn parsed_usize(s: Seq<char>) -> Option<usize> {
    match magnitude_of(unsigned_body(s), usize::MAX as int) {
        Some(v) => Some(v as usize),
        None => None,
    }
}

/// The character of a decimal digit.
pub open spec fn digit_char(d: nat) -> char {
    (48 + d) as char
}

/// The decimal digits of a natural number, most significant first, with
/// no leading zeros (a single `0` for zero).
pub open spec fn decimal_nat(n: nat) -> Seq<char>
    decreases n,
{
    if n < 10 {
        seq![digit_char(n)]
    } else {
        decimal_nat(n / 10).push(digit_char(n % 10))
    }
}

/// Decimal rendering of an integer (`Display` for `i64`): a `-` before
/// the digits of a negative number.
pub open spec fn decimal_i64(v: i64) -> Seq<char> {
    if v < 0 {
        seq!['-'] + decimal_nat((-v) as nat)
    } else {
        decimal_nat(v as nat)
    }
}

/// Decimal rendering of an integer (`Display` for `u64`).
pub open spec fn decimal_u64(v: u64) -> Seq<char> {
    decimal_nat(v as nat)
}

/// Different numbers have different decimal renderings.
pub proof fn lemma_decimal_injective(a: nat, b: nat)
    requires
        decimal_nat(a) == decimal_nat(b),
    ensures
        a == b,
    decreases a,
{
    let da = decimal_nat(a);
    if a >= 10 {
        assert(decimal_nat(a / 10).len() >= 1) by {
            lemma_decimal_nonempty(a / 10);
        }
    }
    if b >= 10 {
        assert(decimal_nat(b / 10).len() >= 1) by {
            lemma_decimal_nonempty(b / 10);
        }
    }
    assert(digit_char(a % 10) == da.last());
    assert(digit_char(b % 10) == da.last());
    assert((48 + a % 10) as char == (48 + b % 10) as char);
    assert(a % 10 == b % 10);
    if a >= 10 {
        assert(b >= 10);
        assert(decimal_nat(a / 10) == da.drop_last());
        assert(decimal_nat(b / 10) == da.drop_last());
        lemma_decimal_injective(a / 10, b / 10);
    } else {
        assert(b < 10);
    }
}

/// A decimal rendering has at least one digit.
pub proof fn lemma_decimal_nonempty(n: nat)
    ensures
        decimal_nat(n).len() >= 1,
    decreases n,
{
    if n >= 10 {
        lemma_decimal_nonempty(n / 10);
    }
}

/// Whether a character is whitespace (`char::is_whitespace`).
pub(crate) fn char_is_whitespace(c: char) -> (b: bool)
    ensures
        b == is_white(c),
{
    let u = c as u32;
    (0x09 <= u && u <= 0x0d) || u == 0x20 || u == 0x85 || u == 0xa0 || u == 0x1680 || (0x2000 <= u && u <= 0x200a)
        || u == 0x2028 || u == 0x2029 || u == 0x202f || u == 0x205f || u == 0x3000
}

/// Trusted: `str::to_lowercase`, named by `lower`.
#[verifier::external_body]
pub(crate) fn to_lowercase(s: &str) -> (r: String)
    ensures
        r@ == lower(s@),
{
    s.to_lowercase()
}

/// Trusted: `String::push` appends one character.
#[verifier::external_body]
pub(crate) fn push_char(s: &mut String, c: char)
    ensures
        final(s)@ == old(s)@.push(c),
{
    s.push(c)
}

/// Trusted: `format!("{:?}", s)` for a string, named by `debug_quoted`.
#[verifier::external_body]
pub(crate) fn debug_string(s: &str) -> (r: String)
    ensures
        r@ == debug_quoted(s@),
{
    format!("{s:?}")
}

/// The number the characters from `start` on denote, when they are a
/// non-empty run of ASCII digits whose value is at most `limit`.
fn parse_magnitude(chars: &Vec<char>, start: usize, limit: u128) -> (r: Option<u128>)
    requires
        start <= chars@.len(),
        limit <= u64::MAX,
    ensures
        match r {
            Some(v) => magnitude_of(chars@.subrange(start as int, chars@.len() as int), limit as int) == Some(v as int),
            None => magnitude_of(chars@.subrange(start as int, chars@.len() as int), limit as int) is None,
        },
{
    let n = chars.len();
    if start >= n {
        return None;
    }
    let ghost all = chars@.subrange(start as int, n as int);
    let mut value: u128 = 0;
    let mut over = false;
    let mut i = start;
    while i < n
        invariant
            start <= i <= n,
            n == chars@.len(),
            limit <= u64::MAX,
            all == chars@.subrange(start as int, n as int),
            all_digits(chars@.subrange(start as int, i as int)),
            !over ==> value == digits_value(chars@.subrange(start as int, i as int)) && value <= limit,
            over ==> digits_value(chars@.subrange(start as int, i as int)) > limit,
        decreases n - i,
    {
        let c = chars[i];
        let u = c as u32;
        if !(48 <= u && u <= 57) {
            proof {
                assert(all[i - start] == c);
                assert(!all_digits(all));
            }
            return None;
        }
        let ghost prefix = chars@.subrange(start as int, i as int);
        let ghost next_prefix = chars@.subrange(start as int, i + 1);
        proof {
            assert(next_prefix.drop_last() =~= prefix);
            assert(next_prefix.last() == c);
            assert forall|k: int| 0 <= k < next_prefix.len() implies is_digit(#[trigger] next_prefix[k]) by {
                if k < prefix.len() {
                    assert(next_prefix[k] == prefix[k]);
                }
            }
        }
        if !over {
            let next = value * 10 + (u - 48) as u128;
            if next > limit {
                over = true;
            } else {
                value = next;
            }
        }
        i += 1;
    }
    proof {
        assert(chars@.subrange(start as int, i as int) =~= all);
    }
    if over {
        None
    } else {
        Some(value)
    }
}

/// The digits of an unsigned integer text start after an optional `+`.
proof fn lemma_unsigned_body(s: Seq<char>)
    ensures
        unsigned_body(s) == s.subrange(if s.len() > 0 && s[0] == '+' { 1int } else { 0int }, s.len() as int),
{
    if s.len() > 0 && s[0] == '+' {
        assert(s.drop_first() =~= s.subrange(1, s.len() as int));
    } else {
        assert(s =~= s.subrange(0, s.len() as int));
    }
}

/// Where the digits of an unsigned integer text start.
fn unsigned_start(chars: &Vec<char>) -> (r: usize)
    ensures
        r <= chars@.len(),
        unsigned_body(chars@) == chars@.subrange(r as int, chars@.len() as int),
{
    proof {
        lemma_unsigned_body(chars@);
    }
    if chars.len() > 0 && chars[0] == '+' {
        1
    } else {
        0
    }
}

/// `str::parse::<i64>` (see `parsed_i64`).
pub(crate) fn parse_i64(s: &str) -> (r: Option<i64>)
    ensures
        r == parsed_i64(s@),
{
    let chars = chars_of(s);
    if chars.len() > 0 && chars[0] == '-' {
        proof {
            assert(chars@.drop_first() =~= chars@.subrange(1, chars@.len() as int));
        }
        match parse_magnitude(&chars, 1, 0x8000_0000_0000_0000) {
            Some(v) => {
                if v == 0x8000_0000_0000_0000 {
                    Some(i64::MIN)
                } else {
                    Some(-(v as i64))
                }
            },
            None => None,
        }
    } else {
        let start = unsigned_start(&chars);
        match parse_magnitude(&chars, start, 0x7fff_ffff_ffff_ffff) {
            Some(v) => Some(v as i64),
            None => None,
        }
    }
}

/// `str::parse::<u16>` (see `parsed_u16`).
pub(crate) fn parse_u16(s: &str) -> (r: Option<u16>)
    ensures
        r == parsed_u16(s@),
{
    let chars = chars_of(s);
    let start = unsigned_start(&chars);
    match parse_magnitude(&chars, start, 0xffff) {
        Some(v) => Some(v as u16),
        None => None,
    }
}

/// `str::parse::<u64>` (see `parsed_u64`).
pub(crate) fn parse_u64(s: &str) -> (r: Option<u64>)
    ensures
        r == parsed_u64(s@),
{
    let chars = chars_of(s);
    let start = unsigned_start(&chars);
    match parse_magnitude(&chars, start, 0xffff_ffff_ffff_ffff) {
        Some(v) => Some(v as u64),
        None => None,
    }
}

/// `str::parse::<usize>` (see `parsed_usize`).
pub(crate) fn parse_usize(s: &str) -> (r: Option<usize>)
    ensures
        r == parsed_usize(s@),
{
    let chars = chars_of(s);
    let start = unsigned_start(&chars);
    match parse_magnitude(&chars, start, usize::MAX as u128) {
        Some(v) => Some(v as usize),
        None => None,
    }
}

/// The character of a decimal digit.
fn digit_of(d: u64) -> (c: char)
    requires
        d < 10,
    ensures
        c == digit_char(d as nat),
{
    let b = (48 + d) as u8;
    b as char
}

/// Appends the decimal digits of `n`.
fn push_decimal(s: &mut String, n: u64)
    ensures
        final(s)@ == old(s)@ + decimal_nat(n as nat),
    decreases n,
{
    let ghost start = s@;
    if n >= 10 {
        push_decimal(s, n / 10);
    }
    let ghost mid = s@;
    push_char(s, digit_of(n % 10));
    proof {
        if n >= 10 {
            assert(mid == start + decimal_nat((n / 10) as nat));
            assert(s@ =~= start + decimal_nat((n / 10) as nat).push(digit_char((n % 10) as nat)));
        } else {
            assert(s@ =~= start + seq![digit_char(n as nat)]);
        }
    }
}

/// `i64::to_string` (see `decimal_i64`).
pub(crate) fn i64_to_string(v: i64) -> (r: String)
    ensures
        r@ == decimal_i64(v),
{
    let mut s = String::new();
    if v < 0 {
        push_char(&mut s, '-');
        let magnitude: u64 = if v == i64::MIN {
            0x8000_0000_0000_0000
        } else {
            (-v) as u64
        };
        push_decimal(&mut s, magnitude);
        proof {
            assert(s@ =~= seq!['-'] + decimal_nat((-v) as nat));
        }
    } else {
        push_decimal(&mut s, v as u64);
        proof {
            assert(s@ =~= decimal_nat(v as nat));
        }
    }
    s
}

/// `u64::to_string` (see `decimal_u64`).
pub(crate) fn u64_to_string(v: u64) -> (r: String)
    ensures
        r@ == decimal_u64(v),
{
    let mut s = String::new();
    push_decimal(&mut s, v);
    proof {
        assert(s@ =~= decimal_nat(v as nat));
    }
    s
}

/// Leading whitespace removed.
pub open spec fn trim_start(s: Seq<char>) -> Seq<char>
    decreases s.len(),
{
    if s.len() > 0 && is_white(s[0]) {
        trim_start(s.drop_first())
    } else {
        s
    }
}

/// Trailing whitespace removed.
pub open spec fn trim_end(s: Seq<char>) -> Seq<char>
    decreases s.len(),
{
    if s.len() > 0 && is_white(s.last()) {
        trim_end(s.drop_last())
    } else {
        s
    }
}

/// Leading and trailing whitespace removed (what `str::trim` yields).
pub open spec fn trimmed(s: Seq<char>) -> Seq<char> {
    trim_end(trim_start(s))
}

/// Every character is whitespace (the string is blank).
pub open spec fn is_blank(s: Seq<char>) -> bool {
    forall|i: int| 0 <= i < s.len() ==> is_white(#[trigger] s[i])
}

/// `p` is a prefix of `s`.
pub open spec fn has_prefix(s: Seq<char>, p: Seq<char>) -> bool {
    p.len() <= s.len() && s.subrange(0, p.len() as int) == p
}

/// `p` is a suffix of `s`.
pub open spec fn has_suffix(s: Seq<char>, p: Seq<char>) -> bool {
    p.len() <= s.len() && s.subrange(s.len() - p.len(), s.len() as int) == p
}

/// `p` occurs in `s` starting at index `i`.
pub open spec fn occurs_at(s: Seq<char>, p: Seq<char>, i: int) -> bool {
    0 <= i && i + p.len() <= s.len() && s.subrange(i, i + p.len()) == p
}

/// The first index at or after `i` at which `p` occurs in `s`, if any.
pub open spec fn occurrence_from(s: Seq<char>, p: Seq<char>, i: int) -> Option<int>
    decreases s.len() + 1 - i,
{
    if i < 0 || i > s.len() {
        None
    } else if occurs_at(s, p, i) {
        Some(i)
    } else {
        occurrence_from(s, p, i + 1)
    }
}

/// The first index at which `p` occurs in `s`, if any (what `str::find`
/// yields, counted in characters).
pub open spec fn first_occurrence(s: Seq<char>, p: Seq<char>) -> Option<int> {
    occurrence_from(s, p, 0)
}

pub proof fn lemma_trim_start_suffix(s: Seq<char>)
    ensures
        trim_start(s).len() <= s.len(),
        trim_start(s) == s.subrange(s.len() - trim_start(s).len(), s.len() as int),
        trim_start(s).len() > 0 ==> !is_white(trim_start(s)[0]),
        forall|i: int| 0 <= i < s.len() - trim_start(s).len() ==> is_white(#[trigger] s[i]),
    decreases s.len(),
{
    if s.len() > 0 && is_white(s[0]) {
        lemma_trim_start_suffix(s.drop_first());
        assert forall|i: int| 0 <= i < s.len() - trim_start(s).len() implies is_white(#[trigger] s[i]) by {
            if i > 0 {
                assert(s[i] == s.drop_first()[i - 1]);
            }
        }
        assert(trim_start(s) =~= s.subrange(s.len() - trim_start(s).len(), s.len() as int));
    } else {
        assert(s.subrange(0, s.len() as int) =~= s);
    }
}

pub proof fn lemma_trim_end_prefix(s: Seq<char>)
    ensures
        trim_end(s).len() <= s.len(),
        trim_end(s) == s.subrange(0, trim_end(s).len() as int),
        trim_end(s).len() > 0 ==> !is_white(trim_end(s).last()),
        forall|i: int| trim_end(s).len() <= i < s.len() ==> is_white(#[trigger] s[i]),
    decreases s.len(),
{
    if s.len() > 0 && is_white(s.last()) {
        lemma_trim_end_prefix(s.drop_last());
        assert forall|i: int| trim_end(s).len() <= i < s.len() implies is_white(#[trigger] s[i]) by {
            if i < s.len() - 1 {
                assert(s.drop_last()[i] == s[i]);
            }
        }
        assert(trim_end(s) =~= s.subrange(0, trim_end(s).len() as int));
    } else {
        assert(s.subrange(0, s.len() as int) =~= s);
    }
}

/// Trimming keeps a contiguous part of the string.
pub proof fn lemma_trimmed_len(s: Seq<char>)
    ensures
        trimmed(s).len() <= s.len(),
{
    lemma_trim_start_suffix(s);
    lemma_trim_end_prefix(trim_start(s));
}

/// Where a search from `i` finds `p`, it occurs there, at or after `i`.
pub proof fn lemma_occurrence_found(s: Seq<char>, p: Seq<char>, i: int)
    ensures
        match occurrence_from(s, p, i) {
            Some(k) => i <= k && occurs_at(s, p, k) && k + p.len() <= s.len(),
            None => true,
        },
    decreases s.len() + 1 - i,
{
    if 0 <= i <= s.len() && !occurs_at(s, p, i) {
        lemma_occurrence_found(s, p, i + 1);
    }
}

/// Where a search from `i` finds nothing, `p` occurs nowhere at or after `i`.
pub proof fn lemma_occurrence_absent(s: Seq<char>, p: Seq<char>, i: int)
    requires
        0 <= i,
        occurrence_from(s, p, i) is None,
    ensures
        forall|k: int| i <= k ==> !occurs_at(s, p, k),
    decreases s.len() + 1 - i,
{
    if i <= s.len() {
        lemma_occurrence_absent(s, p, i + 1);
    }
}

/// A string is blank exactly when trimming leaves nothing.
pub proof fn lemma_blank_iff_trimmed_empty(s: Seq<char>)
    ensures
        is_blank(s) <==> trimmed(s).len() == 0,
    decreases s.len(),
{
    lemma_trim_start_suffix(s);
    lemma_trim_end_prefix(trim_start(s));
    if is_blank(s) {
        if trim_start(s).len() > 0 {
            let k = s.len() - trim_start(s).len();
            assert(trim_start(s)[0] == s[k]);
        }
    }
    if trimmed(s).len() == 0 {
        assert forall|i: int| 0 <= i < s.len() implies is_white(#[trigger] s[i]) by {
            let k = s.len() - trim_start(s).len();
            if i >= k {
                assert(trim_start(s)[i - k] == s[i]);
            }
        }
    }
}

/// The characters of a string, in order.
pub fn chars_of(s: &str) -> (v: Vec<char>)
    ensures
        v@ == s@,
{
    let mut v: Vec<char> = Vec::new();
    for c in it: s.chars()
        invariant
            v@ == it.seq().take(it.index() as int),
    {
        v.push(c);
    }
    v
}

/// A string holding exactly the characters `chars[start..end]`.
pub fn string_from_range(chars: &Vec<char>, start: usize, end: usize) -> (r: String)
    requires
        start <= end <= chars.len(),
    ensures
        r@ == chars@.subrange(start as int, end as int),
{
    let mut r = String::new();
    let mut i = start;
    while i < end
        invariant
            start <= i <= end <= chars.len(),
            r@ == chars@.subrange(start as int, i as int),
        decreases end - i,
    {
        push_char(&mut r, chars[i]);
        assert(chars@.subrange(start as int, i + 1) =~= chars@.subrange(start as int, i as int).push(chars@[i as int]));
        i += 1;
    }
    r
}

/// A string holding exactly the given characters.
pub fn string_from(chars: &Vec<char>) -> (r: String)
    ensures
        r@ == chars@,
{
    let r = string_from_range(chars, 0, chars.len());
    assert(chars@.subrange(0, chars@.len() as int) =~= chars@);
    r
}

/// An owned copy of a string slice.
pub fn owned(s: &str) -> (r: String)
    ensures
        r@ == s@,
{
    let chars = chars_of(s);
    string_from(&chars)
}

/// Exact equality of two character sequences.
pub fn chars_equal(a: &Vec<char>, b: &Vec<char>) -> (r: bool)
    ensures
        r == (a@ == b@),
{
    if a.len() != b.len() {
        return false;
    }
    let mut i: usize = 0;
    while i < a.len()
        invariant
            a.len() == b.len(),
            i <= a.len(),
            forall|j: int| 0 <= j < i ==> a@[j] == b@[j],
        decreases a.len() - i,
    {
        if a[i] != b[i] {
            return false;
        }
        i += 1;
    }
    assert(a@ =~= b@);
    true
}

/// Exact equality of two strings.
pub fn str_equal(a: &str, b: &str) -> (r: bool)
    ensures
        r == (a@ == b@),
{
    let ca = chars_of(a);
    let cb = chars_of(b);
    chars_equal(&ca, &cb)
}

/// Whether `p` occurs in `s` at position `at`.
pub fn chars_occur_at(s: &Vec<char>, p: &Vec<char>, at: usize) -> (r: bool)
    ensures
        r == occurs_at(s@, p@, at as int),
{
    if at > s.len() || p.len() > s.len() - at {
        return false;
    }
    let mut i: usize = 0;
    while i < p.len()
        invariant
            at + p.len() <= s.len(),
            i <= p.len(),
            forall|j: int| 0 <= j < i ==> s@[at + j] == p@[j],
        decreases p.len() - i,
    {
        if s[at + i] != p[i] {
            assert(s@.subrange(at as int, at + p.len())[i as int] != p@[i as int]);
            return false;
        }
        i += 1;
    }
    assert(s@.subrange(at as int, at + p.len()) =~= p@);
    true
}

/// Whether `p` is a prefix of `s`.
pub fn chars_have_prefix(s: &Vec<char>, p: &Vec<char>) -> (r: bool)
    ensures
        r == has_prefix(s@, p@),
{
    chars_occur_at(s, p, 0)
}

/// Whether `p` is a suffix of `s`.
pub fn chars_have_suffix(s: &Vec<char>, p: &Vec<char>) -> (r: bool)
    ensures
        r == has_suffix(s@, p@),
{
    if p.len() > s.len() {
        return false;
    }
    chars_occur_at(s, p, s.len() - p.len())
}

/// The first position at which `p` occurs in `s`.
pub fn chars_find(s: &Vec<char>, p: &Vec<char>) -> (r: Option<usize>)
    ensures
        match r {
            Some(i) => first_occurrence(s@, p@) == Some(i as int),
            None => first_occurrence(s@, p@) is None,
        },
{
    let mut i: usize = 0;
    loop
        invariant
            i <= s.len(),
            first_occurrence(s@, p@) == occurrence_from(s@, p@, i as int),
        decreases s.len() - i,
    {
        if chars_occur_at(s, p, i) {
            return Some(i);
        }
        if i == s.len() {
            assert(occurrence_from(s@, p@, i + 1) is None);
            return None;
        }
        i += 1;
    }
}

/// Whether every character of the string is whitespace.
pub fn chars_blank(s: &Vec<char>) -> (r: bool)
    ensures
        r == is_blank(s@),
{
    let mut i: usize = 0;
    while i < s.len()
        invariant
            i <= s.len(),
            forall|j: int| 0 <= j < i ==> is_white(#[trigger] s@[j]),
        decreases s.len() - i,
    {
        if !char_is_whitespace(s[i]) {
            return false;
        }
        i += 1;
    }
    true
}

/// Whether the string is blank (empty or whitespace only).
pub fn str_blank(s: &str) -> (r: bool)
    ensures
        r == is_blank(s@),
{
    let chars = chars_of(s);
    chars_blank(&chars)
}

/// The string with leading and trailing whitespace removed.
pub fn chars_trim(s: &Vec<char>) -> (r: String)
    ensures
        r@ == trimmed(s@),
{
    proof {
        lemma_trim_start_suffix(s@);
        lemma_trim_end_prefix(trim_start(s@));
    }
    let mut start: usize = 0;
    assert(s@.subrange(0, s.len() as int) =~= s@);
    while start < s.len() && char_is_whitespace(s[start])
        invariant
            start <= s.len(),
            trim_start(s@) == trim_start(s@.subrange(start as int, s.len() as int)),
        decreases s.len() - start,
    {
        assert(s@.subrange(start as int, s.len() as int).drop_first() =~= s@.subrange(start + 1, s.len() as int));
        start += 1;
    }
    let ghost ts = s@.subrange(start as int, s.len() as int);
    assert(trim_start(s@) == ts) by {
        if ts.len() > 0 {
            assert(ts[0] == s@[start as int]);
        }
    }
    let mut end: usize = s.len();
    while end > start && char_is_whitespace(s[end - 1])
        invariant
            start <= end <= s.len(),
            ts == s@.subrange(start as int, s.len() as int),
            trim_end(ts) == trim_end(s@.subrange(start as int, end as int)),
        decreases end - start,
    {
        assert(s@.subrange(start as int, end as int).drop_last() =~= s@.subrange(start as int, end - 1));
        end -= 1;
    }
    let ghost te = s@.subrange(start as int, end as int);
    assert(trim_end(te) == te) by {
        if te.len() > 0 {
            assert(te.last() == s@[end - 1]);
        }
    }
    string_from_range(s, start, end)
}

/// The string with leading and trailing whitespace removed.
pub fn str_trim(s: &str) -> (r: String)
    ensures
        r@ == trimmed(s@),
{
    let chars = chars_of(s);
    chars_trim(&chars)
}

/// Appends the characters of `t` to `s`.
pub fn append_str(s: &mut String, t: &str)
    ensures
        final(s)@ == old(s)@ + t@,
{
    let chars = chars_of(t);
    let mut i: usize = 0;
    while i < chars.len()
        invariant
            i <= chars.len(),
            chars@ == t@,
            s@ == old(s)@ + chars@.subrange(0, i as int),
        decreases chars.len() - i,
    {
        push_char(s, chars[i]);
        assert(chars@.subrange(0, i + 1) =~= chars@.subrange(0, i as int).push(chars@[i as int]));
        i += 1;
    }
    assert(chars@.subrange(0, chars@.len() as int) =~= chars@);
}

/// A string made of `a` followed by `b`.
pub fn concat2(a: &str, b: &str) -> (r: String)
    ensures
        r@ == a@ + b@,
{
    let mut r = owned(a);
    append_str(&mut r, b);
    r
}

/// A string made of `a`, `b` and `c` in order.
pub fn concat3(a: &str, b: &str, c: &str) -> (r: String)
    ensures
        r@ == a@ + b@ + c@,
{
    let mut r = owned(a);
    append_str(&mut r, b);
    append_str(&mut r, c);
    r
}

/// `s` with every non-overlapping occurrence of `pat` (scanning left to
/// right) replaced by `with` (what `str::replace` yields for a non-empty
/// pattern).
pub open spec fn replace_all(s: Seq<char>, pat: Seq<char>, with: Seq<char>) -> Seq<char>
    decreases s.len(),
{
    if pat.len() == 0 {
        s
    } else {
        match first_occurrence(s, pat) {
            None => s,
            Some(i) => {
                proof {
                    lemma_occurrence_found(s, pat, 0);
                }
                s.subrange(0, i) + with + replace_all(s.subrange(i + pat.len(), s.len() as int), pat, with)
            },
        }
    }
}

/// `s` with every occurrence of the non-empty pattern `pat` replaced by
/// `with`.
pub fn replace_all_str(s: &str, pat: &str, with: &str) -> (r: String)
    requires
        pat@.len() > 0,
    ensures
        r@ == replace_all(s@, pat@, with@),
    decreases s@.len(),
{
    let chars = chars_of(s);
    let p = chars_of(pat);
    match chars_find(&chars, &p) {
        None => owned(s),
        Some(i) => {
            proof {
                lemma_occurrence_found(chars@, p@, 0);
            }
            let n = chars.len();
            let head = string_from_range(&chars, 0, i);
            let tail = string_from_range(&chars, i + p.len(), n);
            let rest = replace_all_str(tail.as_str(), pat, with);
            concat3(head.as_str(), with, rest.as_str())
        },
    }
}

} // verus!
