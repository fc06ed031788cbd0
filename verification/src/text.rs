use vstd::prelude::*;
use vstd::utf8::*;

verus! {

// ---------------------------------------------------------------------------
// Characters and strings
// ---------------------------------------------------------------------------

/// Every character of `s`, in order.
pub fn chars_of(s: &str) -> (v: Vec<char>)
    ensures
        v@ == s@,
{
    let mut v: Vec<char> = Vec::new();
    for c in it: s.chars()
        invariant
            v@ == it.seq().take(it.index()),
            it.seq() == s@,
    {
        v.push(c);
    }
    v
}

/// Appends one character (`String::push`).
#[verifier::external_body]
pub(crate) fn push_char(s: &mut String, c: char)
    ensures
        final(s)@ == old(s)@.push(c),
{
    s.push(c);
}

/// Appends `chars[from..to]` to `s`.
pub fn push_range(s: &mut String, chars: &Vec<char>, from: usize, to: usize)
    requires
        from <= to <= chars.len(),
    ensures
        final(s)@ == old(s)@ + chars@.subrange(from as int, to as int),
{
    let ghost start = s@;
    let mut i = from;
    while i < to
        invariant
            from <= i <= to,
            to <= chars.len(),
            s@ == start + chars@.subrange(from as int, i as int),
        decreases to - i,
    {
        push_char(s, chars[i]);
        i += 1;
        assert(chars@.subrange(from as int, i as int) =~= chars@.subrange(
            from as int,
            i - 1,
        ).push(chars@[i - 1]));
    }
}

/// The string made of `chars[from..to]`.
pub fn string_from_range(chars: &Vec<char>, from: usize, to: usize) -> (s: String)
    requires
        from <= to <= chars.len(),
    ensures
        s@ == chars@.subrange(from as int, to as int),
{
    let mut s = String::new();
    push_range(&mut s, chars, from, to);
    assert(Seq::<char>::empty() + chars@.subrange(from as int, to as int) =~= chars@.subrange(
        from as int,
        to as int,
    ));
    s
}

/// Appends `t` to `s`.
pub fn push_text(s: &mut String, t: &str)
    ensures
        final(s)@ == old(s)@ + t@,
{
    s.append(t);
}

/// Whether two texts hold the same characters.
pub fn same_text(a: &str, b: &str) -> (r: bool)
    ensures
        r == (a@ == b@),
{
    let x = a.to_owned();
    let y = b.to_owned();
    x == y
}

// ---------------------------------------------------------------------------
// UTF-8 lengths
// ---------------------------------------------------------------------------

/// Number of bytes of the UTF-8 encoding of `c`.
pub open spec fn char_width(c: char) -> nat {
    encode_scalar(c as u32).len()
}

/// Number of bytes of the UTF-8 encoding of `s` (what `str::len` returns).
pub open spec fn utf8_len(s: Seq<char>) -> nat {
    encode_utf8(s).len()
}

proof fn lemma_encode_utf8_add(a: Seq<char>, b: Seq<char>)
    ensures
        encode_utf8(a + b) == encode_utf8(a) + encode_utf8(b),
    decreases a.len(),
{
    if a.len() == 0 {
        assert(a + b =~= b);
        assert(encode_utf8(a) =~= Seq::<u8>::empty());
        assert(encode_utf8(a) + encode_utf8(b) =~= encode_utf8(b));
    } else {
        lemma_encode_utf8_add(a.drop_first(), b);
        assert((a + b).drop_first() =~= a.drop_first() + b);
        assert((a + b)[0] == a[0]);
        assert(encode_utf8(a + b) =~= encode_scalar(a[0] as u32) + encode_utf8(a.drop_first() + b));
        assert(encode_utf8(a) + encode_utf8(b) =~= encode_scalar(a[0] as u32) + (encode_utf8(
            a.drop_first(),
        ) + encode_utf8(b)));
    }
}

/// The UTF-8 length of a concatenation is the sum of the lengths.
pub proof fn lemma_utf8_len_add(a: Seq<char>, b: Seq<char>)
    ensures
        utf8_len(a + b) == utf8_len(a) + utf8_len(b),
{
    lemma_encode_utf8_add(a, b);
}

/// Appending a character adds its width.
pub proof fn lemma_utf8_len_push(s: Seq<char>, c: char)
    ensures
        utf8_len(s.push(c)) == utf8_len(s) + char_width(c),
{
    lemma_encode_utf8_add(s, seq![c]);
    assert(s.push(c) =~= s + seq![c]);
    assert(seq![c].drop_first() =~= Seq::<char>::empty());
    assert(encode_utf8(seq![c]) =~= encode_scalar(c as u32) + encode_utf8(Seq::<char>::empty()));
    assert(encode_utf8(Seq::<char>::empty()) =~= Seq::<u8>::empty());
}

/// A character takes one to four bytes.
pub proof fn lemma_char_width_bounds(c: char)
    ensures
        1 <= char_width(c) <= 4,
{
    char_is_scalar(c);
}

/// Width in bytes of the UTF-8 encoding of `c`.
pub fn char_width_of(c: char) -> (w: usize)
    ensures
        w == char_width(c),
        1 <= w <= 4,
{
    proof {
        char_is_scalar(c);
    }
    let v = c as u32;
    if v <= 0x7F {
        1
    } else if v <= 0x7FF {
        2
    } else if v <= 0xFFFF {
        3
    } else {
        4
    }
}

/// UTF-8 byte length of `s`.
pub fn byte_len(s: &str) -> (n: usize)
    ensures
        n == utf8_len(s@),
{
    let bytes = s.as_bytes();
    bytes.len()
}

// ---------------------------------------------------------------------------
// Cutting text at a byte budget
// ---------------------------------------------------------------------------

/// Number of leading characters of `s` whose UTF-8 encoding fits in `budget` bytes.
pub open spec fn fit_count(s: Seq<char>, budget: int) -> nat
    decreases s.len(),
{
    if s.len() == 0 {
        0
    } else if char_width(s[0]) <= budget {
        1 + fit_count(s.drop_first(), budget - char_width(s[0]))
    } else {
        0
    }
}

/// `s` cut at the last character boundary at or before byte `max_bytes`.
pub open spec fn utf8_truncate(s: Seq<char>, max_bytes: int) -> Seq<char> {
    s.take(fit_count(s, max_bytes) as int)
}

/// The prefix kept by `fit_count` is the longest one that fits: it takes at most
/// `budget` bytes, and one more character would not fit.
pub proof fn lemma_fit_count(s: Seq<char>, budget: int)
    requires
        budget >= 0,
    ensures
        fit_count(s, budget) <= s.len(),
        utf8_len(s.take(fit_count(s, budget) as int)) <= budget,
        fit_count(s, budget) < s.len() ==> utf8_len(s.take(fit_count(s, budget) as int + 1)) > budget,
    decreases s.len(),
{
    let k = fit_count(s, budget);
    if s.len() == 0 {
        assert(s.take(0) =~= Seq::<char>::empty());
    } else {
        lemma_char_width_bounds(s[0]);
        if char_width(s[0]) <= budget {
            let t = s.drop_first();
            let b2 = budget - char_width(s[0]);
            lemma_fit_count(t, b2);
            let k2 = fit_count(t, b2);
            assert(s.take(k as int).drop_first() =~= t.take(k2 as int));
            assert(s.take(k as int)[0] == s[0]);
            if k < s.len() {
                assert(s.take(k as int + 1).drop_first() =~= t.take(k2 as int + 1));
                assert(s.take(k as int + 1)[0] == s[0]);
            }
        } else {
            assert(s.take(0) =~= Seq::<char>::empty());
            assert(s.take(1).drop_first() =~= Seq::<char>::empty());
            assert(s.take(1)[0] == s[0]);
            assert(encode_utf8(s.take(1)) =~= encode_scalar(s[0] as u32) + encode_utf8(
                Seq::<char>::empty(),
            ));
        }
    }
}

/// Cutting at a byte budget keeps the longest prefix that fits, and all of text that fits.
pub proof fn lemma_truncate_longest_prefix(s: Seq<char>, budget: int) -> (k: int)
    requires
        budget >= 0,
    ensures
        0 <= k <= s.len(),
        utf8_truncate(s, budget) == s.take(k),
        utf8_len(s.take(k)) <= budget,
        k < s.len() ==> utf8_len(s.take(k + 1)) > budget,
        utf8_len(s) <= budget ==> k == s.len() && s.take(k) == s,
{
    lemma_fit_count(s, budget);
    if utf8_len(s) <= budget {
        lemma_fit_count_all(s, budget);
        assert(s.take(s.len() as int) =~= s);
    }
    fit_count(s, budget) as int
}

/// Text that already fits is kept whole.
pub proof fn lemma_fit_count_all(s: Seq<char>, budget: int)
    requires
        utf8_len(s) <= budget,
    ensures
        fit_count(s, budget) == s.len(),
    decreases s.len(),
{
    if s.len() > 0 {
        lemma_utf8_len_add(seq![s[0]], s.drop_first());
        assert(seq![s[0]] + s.drop_first() =~= s);
        lemma_utf8_len_push(Seq::<char>::empty(), s[0]);
        assert(Seq::<char>::empty().push(s[0]) =~= seq![s[0]]);
        assert(encode_utf8(Seq::<char>::empty()) =~= Seq::<u8>::empty());
        lemma_fit_count_all(s.drop_first(), budget - char_width(s[0]));
    }
}

/// How many leading characters of `chars` fit in `max_bytes` bytes of UTF-8.
pub fn fit_prefix(chars: &Vec<char>, max_bytes: usize) -> (n: usize)
    ensures
        n == fit_count(chars@, max_bytes as int),
{
    let mut n: usize = 0;
    let mut used: usize = 0;
    assert(chars@.skip(0) =~= chars@);
    while n < chars.len()
        invariant
            n <= chars.len(),
            used <= max_bytes,
            fit_count(chars@, max_bytes as int) == n + fit_count(
                chars@.skip(n as int),
                max_bytes - used,
            ),
        decreases chars.len() - n,
    {
        let w = char_width_of(chars[n]);
        assert(chars@.skip(n as int)[0] == chars@[n as int]);
        if w > max_bytes - used {
            return n;
        }
        assert(chars@.skip(n as int).drop_first() =~= chars@.skip(n + 1));
        used = used + w;
        n = n + 1;
    }
    n
}

/// `s` cut at the last character boundary at or before byte `max_bytes`.
pub fn truncate_utf8(s: &str, max_bytes: usize) -> (r: String)
    ensures
        r@ == utf8_truncate(s@, max_bytes as int),
{
    let chars = chars_of(s);
    let n = fit_prefix(&chars, max_bytes);
    proof {
        lemma_fit_count(s@, max_bytes as int);
    }
    let r = string_from_range(&chars, 0, n);
    assert(chars@.subrange(0, n as int) =~= s@.take(n as int));
    r
}

// ---------------------------------------------------------------------------
// Decimal numbers
// ---------------------------------------------------------------------------

/// The character of a decimal digit.
pub open spec fn digit_char(d: nat) -> char {
    if d == 0 {
        '0'
    } else if d == 1 {
        '1'
    } else if d == 2 {
        '2'
    } else if d == 3 {
        '3'
    } else if d == 4 {
        '4'
    } else if d == 5 {
        '5'
    } else if d == 6 {
        '6'
    } else if d == 7 {
        '7'
    } else if d == 8 {
        '8'
    } else {
        '9'
    }
}

/// Decimal notation of `n`, without leading zeros.
pub open spec fn decimal(n: nat) -> Seq<char>
    decreases n,
{
    if n < 10 {
        seq![digit_char(n)]
    } else {
        decimal(n / 10).push(digit_char(n % 10))
    }
}

/// Decimal notation of `n`, with a leading `-` when negative.
pub open spec fn signed_decimal(n: int) -> Seq<char> {
    if n < 0 {
        seq!['-'] + decimal((-n) as nat)
    } else {
        decimal(n as nat)
    }
}

fn digit_of(d: u64) -> (c: char)
    requires
        d < 10,
    ensures
        c == digit_char(d as nat),
{
    if d == 0 {
        '0'
    } else if d == 1 {
        '1'
    } else if d == 2 {
        '2'
    } else if d == 3 {
        '3'
    } else if d == 4 {
        '4'
    } else if d == 5 {
        '5'
    } else if d == 6 {
        '6'
    } else if d == 7 {
        '7'
    } else if d == 8 {
        '8'
    } else {
        '9'
    }
}

/// Appends the decimal notation of `n`.
pub fn push_decimal(s: &mut String, n: u64)
    ensures
        final(s)@ == old(s)@ + decimal(n as nat),
    decreases n,
{
    if n >= 10 {
        push_decimal(s, n / 10);
    }
    push_char(s, digit_of(n % 10));
    proof {
        if n >= 10 {
            assert(old(s)@ + decimal(n as nat) =~= (old(s)@ + decimal((n / 10) as nat)).push(
                digit_char((n % 10) as nat),
            ));
        } else {
            assert(old(s)@ + decimal(n as nat) =~= old(s)@.push(digit_char(n as nat)));
        }
    }
}

/// Appends the decimal notation of `n`, signed.
pub fn push_signed_decimal(s: &mut String, n: i64)
    ensures
        final(s)@ == old(s)@ + signed_decimal(n as int),
{
    if n < 0 {
        push_char(s, '-');
        let m: u64 = if n == i64::MIN {
            9223372036854775808u64
        } else {
            (-n) as u64
        };
        push_decimal(s, m);
        assert(old(s)@ + signed_decimal(n as int) =~= old(s)@.push('-') + decimal(m as nat));
    } else {
        push_decimal(s, n as u64);
    }
}

/// Decimal notation has at least one digit, and none of its characters is a colon.
pub proof fn lemma_decimal_shape(n: nat)
    ensures
        decimal(n).len() >= 1,
        n >= 10 ==> decimal(n).len() >= 2,
        forall|i: int| 0 <= i < decimal(n).len() ==> decimal(n)[i] != ':',
    decreases n,
{
    if n >= 10 {
        lemma_decimal_shape(n / 10);
    }
}

/// Different numbers have different decimal notations.
pub proof fn lemma_decimal_injective(a: nat, b: nat)
    requires
        decimal(a) == decimal(b),
    ensures
        a == b,
    decreases a,
{
    lemma_decimal_shape(a);
    lemma_decimal_shape(b);
    if a >= 10 && b >= 10 {
        let da = decimal(a);
        assert(da.drop_last() =~= decimal(a / 10));
        assert(decimal(b).drop_last() =~= decimal(b / 10));
        assert(da.last() == digit_char(a % 10));
        assert(decimal(b).last() == digit_char(b % 10));
        lemma_digit_char_injective(a % 10, b % 10);
        lemma_decimal_injective(a / 10, b / 10);
    } else if a < 10 && b < 10 {
        assert(decimal(a)[0] == digit_char(a));
        assert(decimal(b)[0] == digit_char(b));
        lemma_digit_char_injective(a, b);
    }
}

proof fn lemma_digit_char_injective(a: nat, b: nat)
    requires
        a < 10,
        b < 10,
        digit_char(a) == digit_char(b),
    ensures
        a == b,
{
}

/// Two texts joined by a colon, as in `format!("{}:{}", a, b)`.
pub open spec fn colon_joined(a: Seq<char>, b: Seq<char>) -> Seq<char> {
    a + seq![':'] + b
}

/// Texts without a colon, joined by one, can be split back apart.
pub proof fn lemma_colon_joined_injective(a1: Seq<char>, b1: Seq<char>, a2: Seq<char>, b2: Seq<char>)
    requires
        forall|i: int| 0 <= i < a1.len() ==> a1[i] != ':',
        forall|i: int| 0 <= i < a2.len() ==> a2[i] != ':',
        colon_joined(a1, b1) == colon_joined(a2, b2),
    ensures
        a1 == a2,
        b1 == b2,
{
    let j = colon_joined(a1, b1);
    if a1.len() < a2.len() {
        assert(j[a1.len() as int] == ':');
        assert(colon_joined(a2, b2)[a1.len() as int] == a2[a1.len() as int]);
    } else if a2.len() < a1.len() {
        assert(colon_joined(a2, b2)[a2.len() as int] == ':');
        assert(j[a2.len() as int] == a1[a2.len() as int]);
    } else {
        assert(a1 =~= j.take(a1.len() as int));
        assert(a2 =~= colon_joined(a2, b2).take(a2.len() as int));
        assert(b1 =~= j.skip(a1.len() as int + 1));
        assert(b2 =~= colon_joined(a2, b2).skip(a2.len() as int + 1));
    }
}

/// Appends `format!("{}:{}", a, b)` for two unsigned numbers.
pub fn push_number_pair(s: &mut String, a: u64, b: u64)
    ensures
        final(s)@ == old(s)@ + colon_joined(decimal(a as nat), decimal(b as nat)),
{
    push_decimal(s, a);
    push_char(s, ':');
    push_decimal(s, b);
    assert(old(s)@ + colon_joined(decimal(a as nat), decimal(b as nat)) =~= (old(s)@ + decimal(
        a as nat,
    )).push(':') + decimal(b as nat));
}

// ---------------------------------------------------------------------------
// Searching text
// ---------------------------------------------------------------------------

/// `needle` occurs in `hay` starting at character `i`.
pub open spec fn occurs_at(hay: Seq<char>, needle: Seq<char>, i: int) -> bool {
    0 <= i && i + needle.len() <= hay.len() && hay.subrange(i, i + needle.len()) == needle
}

/// `needle` occurs somewhere in `hay`.
pub open spec fn contains_text(hay: Seq<char>, needle: Seq<char>) -> bool {
    exists|i: int| occurs_at(hay, needle, i)
}

/// Whether `needle` occurs in `hay` at character `i`.
pub fn occurs_at_exec(hay: &Vec<char>, needle: &Vec<char>, i: usize) -> (r: bool)
    ensures
        r == occurs_at(hay@, needle@, i as int),
{
    if i > hay.len() || needle.len() > hay.len() - i {
        return false;
    }
    let mut j: usize = 0;
    while j < needle.len()
        invariant
            j <= needle.len(),
            i + needle.len() <= hay.len(),
            forall|k: int| 0 <= k < j ==> hay@[i + k] == needle@[k],
        decreases needle.len() - j,
    {
        if hay[i + j] != needle[j] {
            assert(hay@.subrange(i as int, i + needle.len())[j as int] != needle@[j as int]);
            return false;
        }
        j += 1;
    }
    assert(hay@.subrange(i as int, i + needle.len()) =~= needle@);
    true
}

/// First character position at which `needle` occurs in `hay`.
pub fn find_text(hay: &Vec<char>, needle: &Vec<char>) -> (r: Option<usize>)
    ensures
        match r {
            Some(i) => occurs_at(hay@, needle@, i as int) && forall|j: int|
                0 <= j < i ==> !occurs_at(hay@, needle@, j),
            None => !contains_text(hay@, needle@),
        },
{
    if needle.len() > hay.len() {
        return None;
    }
    let last = hay.len() - needle.len();
    let mut i: usize = 0;
    while i < last
        invariant
            last == hay.len() - needle.len(),
            i <= last,
            forall|j: int| 0 <= j < i ==> !occurs_at(hay@, needle@, j),
        decreases last - i,
    {
        if occurs_at_exec(hay, needle, i) {
            return Some(i);
        }
        i += 1;
    }
    if occurs_at_exec(hay, needle, last) {
        Some(last)
    } else {
        None
    }
}

/// Whether `needle` occurs in `hay`.
pub fn text_contains(hay: &str, needle: &str) -> (r: bool)
    ensures
        r == contains_text(hay@, needle@),
{
    let h = chars_of(hay);
    let n = chars_of(needle);
    match find_text(&h, &n) {
        Some(_) => true,
        None => false,
    }
}

// ---------------------------------------------------------------------------
// White space
// ---------------------------------------------------------------------------

/// The characters with the Unicode `White_Space` property (`char::is_whitespace`).
pub open spec fn is_white_space(c: char) -> bool {
    let v = c as u32;
    ||| 0x9 <= v <= 0xD
    ||| v == 0x20
    ||| v == 0x85
    ||| v == 0xA0
    ||| v == 0x1680
    ||| 0x2000 <= v <= 0x200A
    ||| v == 0x2028
    ||| v == 0x2029
    ||| v == 0x202F
    ||| v == 0x205F
    ||| v == 0x3000
}

/// Whether `c` is white space.
pub fn is_white_space_exec(c: char) -> (r: bool)
    ensures
        r == is_white_space(c),
{
    let v = c as u32;
    (0x9 <= v && v <= 0xD) || v == 0x20 || v == 0x85 || v == 0xA0 || v == 0x1680 || (0x2000 <= v
        && v <= 0x200A) || v == 0x2028 || v == 0x2029 || v == 0x202F || v == 0x205F || v == 0x3000
}

/// `s` without its leading white space.
pub open spec fn trim_start_ws(s: Seq<char>) -> Seq<char>
    decreases s.len(),
{
    if s.len() > 0 && is_white_space(s[0]) {
        trim_start_ws(s.drop_first())
    } else {
        s
    }
}

/// `s` without its trailing white space.
pub open spec fn trim_end_ws(s: Seq<char>) -> Seq<char>
    decreases s.len(),
{
    if s.len() > 0 && is_white_space(s.last()) {
        trim_end_ws(s.drop_last())
    } else {
        s
    }
}

/// `s` without leading and trailing white space (`str::trim`).
pub open spec fn trim_ws(s: Seq<char>) -> Seq<char> {
    trim_end_ws(trim_start_ws(s))
}

/// Bounds of `chars[from..to]` once trimmed.
pub fn trim_range(chars: &Vec<char>, from: usize, to: usize) -> (r: (usize, usize))
    requires
        from <= to <= chars.len(),
    ensures
        from <= r.0 <= r.1 <= to,
        chars@.subrange(r.0 as int, r.1 as int) == trim_ws(chars@.subrange(from as int, to as int)),
{
    let mut a = from;
    while a < to && is_white_space_exec(chars[a])
        invariant
            from <= a <= to <= chars.len(),
            trim_start_ws(chars@.subrange(from as int, to as int)) == trim_start_ws(
                chars@.subrange(a as int, to as int),
            ),
        decreases to - a,
    {
        assert(chars@.subrange(a as int, to as int).drop_first() =~= chars@.subrange(
            a + 1,
            to as int,
        ));
        a += 1;
    }
    assert(trim_start_ws(chars@.subrange(a as int, to as int)) == chars@.subrange(
        a as int,
        to as int,
    ));
    let mut b = to;
    while b > a && is_white_space_exec(chars[b - 1])
        invariant
            from <= a <= b <= to <= chars.len(),
            trim_end_ws(chars@.subrange(a as int, to as int)) == trim_end_ws(
                chars@.subrange(a as int, b as int),
            ),
        decreases b - a,
    {
        assert(chars@.subrange(a as int, b as int).drop_last() =~= chars@.subrange(
            a as int,
            b - 1,
        ));
        b -= 1;
    }
    (a, b)
}

/// The first `n` characters of `s` (all of them when it is shorter).
pub fn take_chars(s: &str, n: usize) -> (r: String)
    ensures
        r@ == s@.take(if n < s@.len() { n as int } else { s@.len() as int }),
{
    let chars = chars_of(s);
    let k = if n < chars.len() {
        n
    } else {
        chars.len()
    };
    let r = string_from_range(&chars, 0, k);
    assert(chars@.subrange(0, k as int) =~= s@.take(k as int));
    r
}

// ---------------------------------------------------------------------------
// Distinct texts
// ---------------------------------------------------------------------------

/// Each element of `s` once, where it first occurs.
pub open spec fn first_occurrences(s: Seq<Seq<char>>) -> Seq<Seq<char>>
    decreases s.len(),
{
    if s.len() == 0 {
        seq![]
    } else {
        let rest = first_occurrences(s.drop_last());
        if rest.contains(s.last()) {
            rest
        } else {
            rest.push(s.last())
        }
    }
}

/// Each element occurs once in `first_occurrences(s)`, and exactly the elements of `s` occur there.
pub proof fn lemma_first_occurrences(s: Seq<Seq<char>>)
    ensures
        first_occurrences(s).no_duplicates(),
        forall|x: Seq<char>| #[trigger] first_occurrences(s).contains(x) <==> s.contains(x),
    decreases s.len(),
{
    if s.len() > 0 {
        let p = s.drop_last();
        let v = s.last();
        lemma_first_occurrences(p);
        let r = first_occurrences(p);
        let fs = first_occurrences(s);
        assert(s =~= p.push(v));
        assert forall|x: Seq<char>| s.contains(x) <==> (p.contains(x) || x == v) by {
            if s.contains(x) {
                let i = choose|i: int| 0 <= i < s.len() && s[i] == x;
                if i < p.len() {
                    assert(p[i] == x);
                }
            }
            if p.contains(x) {
                let i = choose|i: int| 0 <= i < p.len() && p[i] == x;
                assert(s[i] == x);
            }
            if x == v {
                assert(s[s.len() - 1] == x);
            }
        }
        if r.contains(v) {
            assert(fs == r);
            assert forall|x: Seq<char>| #[trigger] fs.contains(x) <==> s.contains(x) by {
                assert(r.contains(x) <==> p.contains(x));
                assert(r.contains(v) <==> p.contains(v));
            }
        } else {
            assert(fs == r.push(v));
            assert forall|x: Seq<char>| r.push(v).contains(x) <==> (r.contains(x) || x == v) by {
                if r.push(v).contains(x) {
                    let i = choose|i: int| 0 <= i < r.push(v).len() && r.push(v)[i] == x;
                    if i < r.len() {
                        assert(r[i] == x);
                    }
                }
                if r.contains(x) {
                    let i = choose|i: int| 0 <= i < r.len() && r[i] == x;
                    assert(r.push(v)[i] == x);
                }
                if x == v {
                    assert(r.push(v)[r.len() as int] == x);
                }
            }
            assert forall|x: Seq<char>| #[trigger] fs.contains(x) <==> s.contains(x) by {
                assert(r.contains(x) <==> p.contains(x));
            }
            assert forall|i: int, j: int|
                0 <= i < fs.len() && 0 <= j < fs.len() && i != j implies fs[i] != fs[j] by {
                if i < r.len() && j < r.len() {
                    assert(fs[i] == r[i] && fs[j] == r[j]);
                } else if i < r.len() {
                    assert(fs[i] == r[i]);
                    assert(r.contains(r[i]));
                } else if j < r.len() {
                    assert(fs[j] == r[j]);
                    assert(r.contains(r[j]));
                }
            }
        }
    }
}

} // verus!
