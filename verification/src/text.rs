use vstd::prelude::*;

verus! {

/// Appends one `char` to a `String` (`String::push`).
#[verifier::external_body]
pub(crate) fn push_char(s: &mut String, c: char)
    ensures
        final(s)@ == old(s)@.push(c),
{
    s.push(c)
}

/// The characters of a string slice, in order.
pub fn chars_of(s: &str) -> (r: Vec<char>)
    ensures
        r@ == s@,
{
    let mut v: Vec<char> = Vec::new();
    for c in it: s.chars()
        invariant
            it.seq() == s@,
            v@ == it.seq().take(it.index() as int),
    {
        v.push(c);
    }
    v
}

/// A `String` made of the given characters, in order.
pub fn string_from_chars(v: &Vec<char>) -> (r: String)
    ensures
        r@ == v@,
{
    let mut s = String::new();
    for i in 0..v.len()
        invariant
            s@ == v@.take(i as int),
    {
        push_char(&mut s, v[i]);
        assert(v@.take(i + 1) =~= v@.take(i as int).push(v@[i as int]));
    }
    assert(v@.take(v.len() as int) =~= v@);
    s
}

} // verus!

verus! {

// ---------------------------------------------------------------------------
// Character classes that std decides (Unicode tables): named results.
// ---------------------------------------------------------------------------

/// What `str::to_lowercase` returns for a string (Unicode lowercase mapping).
pub uninterp spec fn lowercase_of(s: Seq<char>) -> Seq<char>;

/// Whether `char::is_alphanumeric` holds of a character (Unicode Alphabetic or Numeric).
pub uninterp spec fn is_alphanumeric_char(c: char) -> bool;

/// Whether `char::is_whitespace` holds of a character (Unicode White_Space).
pub uninterp spec fn is_whitespace_char(c: char) -> bool;

/// Calls `str::to_lowercase`; the result is named `lowercase_of` of the input.
#[verifier::external_body]
pub(crate) fn to_lowercase(s: &str) -> (r: String)
    ensures
        r@ == lowercase_of(s@),
{
    s.to_lowercase()
}

/// Calls `char::is_alphanumeric`; the result is named `is_alphanumeric_char`.
#[verifier::external_body]
pub(crate) fn char_is_alphanumeric(c: char) -> (r: bool)
    ensures
        r == is_alphanumeric_char(c),
{
    c.is_alphanumeric()
}

/// Leading characters of `s` that satisfy `char::is_whitespace` removed.
pub open spec fn trim_start_ws(s: Seq<char>) -> Seq<char>
    decreases s.len(),
{
    if s.len() > 0 && is_whitespace_char(s[0]) {
        trim_start_ws(s.drop_first())
    } else {
        s
    }
}

/// Trailing characters of `s` that satisfy `char::is_whitespace` removed.
pub open spec fn trim_end_ws(s: Seq<char>) -> Seq<char>
    decreases s.len(),
{
    if s.len() > 0 && is_whitespace_char(s.last()) {
        trim_end_ws(s.drop_last())
    } else {
        s
    }
}

/// `s` with leading and trailing whitespace removed.
pub open spec fn trimmed(s: Seq<char>) -> Seq<char> {
    trim_end_ws(trim_start_ws(s))
}

/// Calls `str::trim`, which removes leading and trailing characters that have the
/// Unicode White_Space property (the property `char::is_whitespace` tests). The
/// second clause follows from the first (`lemma_trimmed_ends`).
#[verifier::external_body]
pub(crate) fn trim(s: &str) -> (r: &str)
    ensures
        r@ == trimmed(s@),
        r@.len() > 0 ==> !is_whitespace_char(r@[0]) && !is_whitespace_char(r@.last()),
{
    s.trim()
}

proof fn lemma_trim_start_ws(s: Seq<char>) -> (k: int)
    ensures
        0 <= k <= s.len(),
        trim_start_ws(s) == s.skip(k),
        trim_start_ws(s).len() > 0 ==> !is_whitespace_char(trim_start_ws(s)[0]),
    decreases s.len(),
{
    if s.len() > 0 && is_whitespace_char(s[0]) {
        let k = lemma_trim_start_ws(s.drop_first());
        assert(s.drop_first().skip(k) =~= s.skip(k + 1));
        k + 1
    } else {
        assert(s.skip(0) =~= s);
        0
    }
}

proof fn lemma_trim_end_ws(s: Seq<char>) -> (k: int)
    ensures
        0 <= k <= s.len(),
        trim_end_ws(s) == s.take(k),
        trim_end_ws(s).len() > 0 ==> !is_whitespace_char(trim_end_ws(s).last()),
    decreases s.len(),
{
    if s.len() > 0 && is_whitespace_char(s.last()) {
        let k = lemma_trim_end_ws(s.drop_last());
        assert(s.drop_last().take(k) =~= s.take(k));
        k
    } else {
        assert(s.take(s.len() as int) =~= s);
        s.len() as int
    }
}

/// A trimmed text neither starts nor ends with whitespace.
pub proof fn lemma_trimmed_ends(s: Seq<char>)
    ensures
        trimmed(s).len() > 0 ==> !is_whitespace_char(trimmed(s)[0]) && !is_whitespace_char(trimmed(s).last()),
{
    let t = trim_start_ws(s);
    lemma_trim_start_ws(s);
    lemma_trim_end_ws(t);
    if trimmed(s).len() > 0 {
        assert(trimmed(s)[0] == t[0]);
    }
}

// ---------------------------------------------------------------------------
// Plain sequence helpers.
// ---------------------------------------------------------------------------

/// Leading copies of `c` removed from `s`.
pub open spec fn strip_leading(s: Seq<char>, c: char) -> Seq<char>
    decreases s.len(),
{
    if s.len() > 0 && s[0] == c {
        strip_leading(s.drop_first(), c)
    } else {
        s
    }
}

/// Trailing copies of `c` removed from `s`.
pub open spec fn strip_trailing(s: Seq<char>, c: char) -> Seq<char>
    decreases s.len(),
{
    if s.len() > 0 && s.last() == c {
        strip_trailing(s.drop_last(), c)
    } else {
        s
    }
}

/// `needle` occurs in `hay` as a contiguous run (what `str::contains` tests).
pub open spec fn contains_seq(hay: Seq<char>, needle: Seq<char>) -> bool {
    exists|i: int| 0 <= i && i + needle.len() <= hay.len() && #[trigger] hay.subrange(i, i + needle.len()) == needle
}

/// `s` padded on the right with spaces up to `width` characters (what `{:<width}` prints).
pub open spec fn pad_right(s: Seq<char>, width: nat) -> Seq<char> {
    if s.len() < width {
        s + Seq::new((width - s.len()) as nat, |i: int| ' ')
    } else {
        s
    }
}

/// The part of `s` after its last `c`, or all of `s` when it holds no `c`
/// (what `s.rsplit(c).next()` yields).
pub open spec fn after_last(s: Seq<char>, c: char) -> Seq<char>
    decreases s.len(),
{
    if s.len() == 0 {
        s
    } else if s.last() == c {
        Seq::empty()
    } else {
        after_last(s.drop_last(), c).push(s.last())
    }
}

/// The first `n` characters of `v`.
pub fn copy_prefix(v: &Vec<char>, n: usize) -> (r: Vec<char>)
    requires
        n <= v.len(),
    ensures
        r@ == v@.take(n as int),
{
    let mut r: Vec<char> = Vec::new();
    for i in 0..n
        invariant
            n <= v.len(),
            r@ == v@.take(i as int),
    {
        r.push(v[i]);
        assert(v@.take(i + 1) =~= v@.take(i as int).push(v@[i as int]));
    }
    r
}

/// Removes leading copies of `c`.
pub fn strip_leading_chars(v: &Vec<char>, c: char) -> (r: Vec<char>)
    ensures
        r@ == strip_leading(v@, c),
{
    let mut start: usize = 0;
    assert(v@.skip(0) =~= v@);
    while start < v.len() && v[start] == c
        invariant
            start <= v.len(),
            strip_leading(v@.skip(start as int), c) == strip_leading(v@, c),
        decreases v.len() - start,
    {
        assert(v@.skip(start as int).drop_first() =~= v@.skip(start + 1));
        start = start + 1;
    }
    let mut r: Vec<char> = Vec::new();
    for i in start..v.len()
        invariant
            start <= v.len(),
            r@ == v@.subrange(start as int, i as int),
    {
        r.push(v[i]);
        assert(v@.subrange(start as int, i + 1) =~= v@.subrange(start as int, i as int).push(v@[i as int]));
    }
    assert(r@ =~= v@.skip(start as int));
    r
}

/// Removes trailing copies of `c`.
pub fn strip_trailing_chars(v: &Vec<char>, c: char) -> (r: Vec<char>)
    ensures
        r@ == strip_trailing(v@, c),
{
    let mut end: usize = v.len();
    assert(v@.take(v.len() as int) =~= v@);
    while end > 0 && v[end - 1] == c
        invariant
            end <= v.len(),
            strip_trailing(v@.take(end as int), c) == strip_trailing(v@, c),
        decreases end,
    {
        assert(v@.take(end as int).drop_last() =~= v@.take(end - 1));
        end = end - 1;
    }
    let r = copy_prefix(v, end);
    assert(strip_trailing(v@.take(end as int), c) == v@.take(end as int));
    r
}

/// Whether `needle` occurs in `hay` (`str::contains` with a string pattern).
pub fn contains_chars(hay: &Vec<char>, needle: &Vec<char>) -> (r: bool)
    ensures
        r == contains_seq(hay@, needle@),
{
    if needle.len() > hay.len() {
        return false;
    }
    let last = hay.len() - needle.len();
    let mut i: usize = 0;
    while i <= last
        invariant
            last == hay.len() - needle.len(),
            needle.len() <= hay.len(),
            i <= last + 1,
            forall|k: int| 0 <= k < i ==> #[trigger] hay@.subrange(k, k + needle@.len()) != needle@,
        decreases last + 1 - i,
    {
        let mut j: usize = 0;
        let mut same = true;
        while j < needle.len()
            invariant
                i <= last,
                last == hay.len() - needle.len(),
                j <= needle.len(),
                same == (forall|m: int| 0 <= m < j ==> hay@[i + m] == needle@[m]),
            decreases needle.len() - j,
        {
            if hay[i + j] != needle[j] {
                same = false;
            }
            j = j + 1;
        }
        if same {
            assert(hay@.subrange(i as int, i + needle@.len()) =~= needle@);
            return true;
        }
        assert(hay@.subrange(i as int, i + needle@.len()) != needle@) by {
            let m = choose|m: int| 0 <= m < needle.len() && hay@[i + m] != needle@[m];
            assert(hay@.subrange(i as int, i + needle@.len())[m] != needle@[m]);
        }
        i = i + 1;
    }
    assert forall|k: int| 0 <= k && k + needle@.len() <= hay@.len() implies #[trigger] hay@.subrange(k, k + needle@.len()) != needle@ by {
        assert(k < i);
    }
    false
}

/// `v` without `prefix` at its start, when it starts with it (`str::strip_prefix`).
pub fn strip_prefix_chars(v: &Vec<char>, prefix: &str) -> (r: Option<Vec<char>>)
    ensures
        r is Some <==> (prefix@.len() <= v@.len() && v@.take(prefix@.len() as int) == prefix@),
        r matches Some(rest) ==> rest@ == v@.skip(prefix@.len() as int),
{
    let p = chars_of(prefix);
    if p.len() > v.len() {
        return None;
    }
    let head = copy_prefix(v, p.len());
    if !chars_equal(&head, &p) {
        return None;
    }
    let mut rest: Vec<char> = Vec::new();
    for i in p.len()..v.len()
        invariant
            p.len() <= v.len(),
            rest@ == v@.subrange(p.len() as int, i as int),
    {
        rest.push(v[i]);
        assert(v@.subrange(p.len() as int, i + 1) =~= v@.subrange(p.len() as int, i as int).push(v@[i as int]));
    }
    assert(rest@ =~= v@.skip(p.len() as int));
    Some(rest)
}

/// Whether two character sequences are equal.
pub fn chars_equal(a: &Vec<char>, b: &Vec<char>) -> (r: bool)
    ensures
        r == (a@ == b@),
{
    if a.len() != b.len() {
        return false;
    }
    for i in 0..a.len()
        invariant
            a.len() == b.len(),
            forall|k: int| 0 <= k < i ==> a@[k] == b@[k],
    {
        if a[i] != b[i] {
            return false;
        }
    }
    assert(a@ =~= b@);
    true
}

/// Appends a string slice to a character vector.
pub fn append_str(v: &mut Vec<char>, s: &str)
    ensures
        final(v)@ == old(v)@ + s@,
{
    let cs = chars_of(s);
    append_chars(v, &cs);
}

/// Appends characters to a character vector.
pub fn append_chars(v: &mut Vec<char>, s: &Vec<char>)
    ensures
        final(v)@ == old(v)@ + s@,
{
    let ghost start = v@;
    for i in 0..s.len()
        invariant
            v@ == start + s@.take(i as int),
    {
        v.push(s[i]);
        assert(s@.take(i + 1) =~= s@.take(i as int).push(s@[i as int]));
    }
    assert(s@.take(s.len() as int) =~= s@);
}

/// `{:<width}`: pads on the right with spaces up to `width` characters.
pub fn pad_right_chars(v: &Vec<char>, width: usize) -> (r: Vec<char>)
    ensures
        r@ == pad_right(v@, width as nat),
{
    let mut r = copy_prefix(v, v.len());
    assert(v@.take(v.len() as int) =~= v@);
    assert(v@ + Seq::new(0nat, |i: int| ' ') =~= v@);
    let mut k: usize = v.len();
    while k < width
        invariant
            v.len() <= k || width <= v.len(),
            k >= v.len(),
            k <= width || width <= v.len(),
            width <= v.len() ==> k == v.len(),
            r@ == v@ + Seq::new((k - v.len()) as nat, |i: int| ' '),
        decreases width - k,
    {
        r.push(' ');
        assert(v@ + Seq::new((k + 1 - v.len()) as nat, |i: int| ' ') =~= (v@ + Seq::new((k - v.len()) as nat, |i: int| ' ')).push(' '));
        k = k + 1;
    }
    if v.len() < width {
        assert(k == width);
        assert(r@ =~= pad_right(v@, width as nat));
    } else {
        assert(r@ =~= v@);
    }
    r
}

/// The part after the last `c` (`s.rsplit(c).next()`), or all of `s`.
pub fn after_last_char(v: &Vec<char>, c: char) -> (r: Vec<char>)
    ensures
        r@ == after_last(v@, c),
{
    let mut start: usize = v.len();
    assert(v@.take(v.len() as int) =~= v@);
    assert(v@.skip(v.len() as int) =~= Seq::<char>::empty());
    assert(v@ + Seq::<char>::empty() =~= v@);
    while start > 0 && v[start - 1] != c
        invariant
            start <= v.len(),
            after_last(v@, c) == after_last(v@.take(start as int), c) + v@.skip(start as int),
            forall|k: int| start <= k < v.len() ==> v@[k] != c,
        decreases start,
    {
        let ghost t = v@.take(start as int);
        assert(t.drop_last() =~= v@.take(start - 1));
        assert(v@.skip(start - 1) =~= seq![v@[start - 1]] + v@.skip(start as int));
        assert(after_last(t, c) == after_last(t.drop_last(), c).push(t.last()));
        assert(after_last(t.drop_last(), c).push(t.last()) + v@.skip(start as int) =~= after_last(t.drop_last(), c) + v@.skip(start - 1));
        start = start - 1;
    }
    assert(after_last(v@.take(start as int), c) =~= Seq::<char>::empty());
    let mut r: Vec<char> = Vec::new();
    for i in start..v.len()
        invariant
            start <= v.len(),
            r@ == v@.subrange(start as int, i as int),
    {
        r.push(v[i]);
        assert(v@.subrange(start as int, i + 1) =~= v@.subrange(start as int, i as int).push(v@[i as int]));
    }
    assert(r@ =~= v@.skip(start as int));
    assert(Seq::<char>::empty() + v@.skip(start as int) =~= v@.skip(start as int));
    r
}

} // verus!

verus! {

// ---------------------------------------------------------------------------
// Decimal numbers: `<u32 as FromStr>::from_str` and `u32`'s `Display`.
// ---------------------------------------------------------------------------

/// An ASCII decimal digit.
pub open spec fn is_digit(c: char) -> bool {
    '0' <= c && c <= '9'
}

/// Every character is an ASCII decimal digit.
pub open spec fn all_digits(d: Seq<char>) -> bool {
    forall|i: int| 0 <= i < d.len() ==> is_digit(#[trigger] d[i])
}

/// The value of a run of decimal digits.
pub open spec fn digits_value(d: Seq<char>) -> nat
    decreases d.len(),
{
    if d.len() == 0 {
        0
    } else {
        digits_value(d.drop_last()) * 10 + ((d.last() as u32) - ('0' as u32)) as nat
    }
}

/// What `s.parse::<u32>()` gives: an optional `+`, then one or more ASCII digits
/// whose value fits in a `u32`; anything else is an error (`None`).
pub open spec fn parse_u32_spec(s: Seq<char>) -> Option<u32> {
    let d = if s.len() > 0 && s[0] == '+' { s.drop_first() } else { s };
    if d.len() > 0 && all_digits(d) && digits_value(d) <= u32::MAX {
        Some(digits_value(d) as u32)
    } else {
        None
    }
}

/// The digit character for `d < 10`.
pub open spec fn digit_char(d: nat) -> char {
    (d + ('0' as u32)) as char
}

/// The decimal rendering of `n` (what `n.to_string()` gives for a `u32`): no sign,
/// no leading zeros, `"0"` for zero.
pub open spec fn decimal(n: nat) -> Seq<char>
    decreases n,
{
    if n < 10 {
        seq![digit_char(n)]
    } else {
        decimal(n / 10).push(digit_char(n % 10))
    }
}

proof fn lemma_digit_char(d: nat)
    requires
        d < 10,
    ensures
        is_digit(digit_char(d)),
        (digit_char(d) as u32) - ('0' as u32) == d,
{
    assert(('0' as u32) == 48);
    assert((d + 48) as char as u32 == d + 48) by {
        vstd::utf8::char_u32_cast((d + 48) as char, (d + 48) as u32);
    }
}

/// Parsing the decimal rendering of a `u32` gives the number back.
pub proof fn lemma_parse_decimal(n: u32)
    ensures
        parse_u32_spec(decimal(n as nat)) == Some(n),
{
    lemma_decimal_digits(n as nat);
    let d = decimal(n as nat);
    assert(d[0] != '+') by {
        assert(is_digit(d[0]));
    }
}

/// The decimal rendering of `n` is a non-empty run of digits of value `n`.
pub proof fn lemma_decimal_digits(n: nat)
    ensures
        decimal(n).len() > 0,
        all_digits(decimal(n)),
        digits_value(decimal(n)) == n,
    decreases n,
{
    if n < 10 {
        lemma_digit_char(n);
        assert(decimal(n).drop_last() =~= Seq::<char>::empty());
        assert(digits_value(Seq::<char>::empty()) == 0);
        assert(decimal(n).last() == digit_char(n));
    } else {
        lemma_decimal_digits(n / 10);
        lemma_digit_char(n % 10);
        assert(decimal(n).drop_last() =~= decimal(n / 10));
        assert(decimal(n).last() == digit_char(n % 10));
        assert(digits_value(decimal(n)) == digits_value(decimal(n / 10)) * 10 + (n % 10));
        assert(all_digits(decimal(n))) by {
            assert forall|i: int| 0 <= i < decimal(n).len() implies is_digit(#[trigger] decimal(n)[i]) by {
                if i < decimal(n / 10).len() {
                    assert(decimal(n)[i] == decimal(n / 10)[i]);
                }
            }
        }
        assert(n == (n / 10) * 10 + n % 10) by (nonlinear_arith);
    }
}

proof fn lemma_digits_push(pre: Seq<char>, c: char)
    requires
        all_digits(pre),
        is_digit(c),
    ensures
        all_digits(pre.push(c)),
        digits_value(pre.push(c)) == digits_value(pre) * 10 + ((c as u32) - ('0' as u32)),
        digits_value(pre.push(c)) >= digits_value(pre),
{
    assert(pre.push(c).drop_last() =~= pre);
    assert forall|k: int| 0 <= k < pre.push(c).len() implies is_digit(#[trigger] pre.push(c)[k]) by {
        if k < pre.len() {
            assert(pre.push(c)[k] == pre[k]);
        }
    }
}

/// Reads `v[start..]` as a run of decimal digits that fits in a `u32`.
fn parse_digits(v: &Vec<char>, start: usize) -> (r: Option<u32>)
    requires
        start <= v.len(),
    ensures
        r == (if all_digits(v@.skip(start as int)) && digits_value(v@.skip(start as int)) <= u32::MAX {
            Some(digits_value(v@.skip(start as int)) as u32)
        } else {
            None::<u32>
        }),
{
    let mut acc: u64 = 0;
    let mut over = false;
    let mut i: usize = start;
    assert(v@.subrange(start as int, start as int) =~= Seq::<char>::empty());
    while i < v.len()
        invariant
            start <= i <= v.len(),
            all_digits(v@.subrange(start as int, i as int)),
            !over ==> acc == digits_value(v@.subrange(start as int, i as int)) && acc <= u32::MAX,
            over ==> digits_value(v@.subrange(start as int, i as int)) > u32::MAX,
        decreases v.len() - i,
    {
        let c = v[i];
        if !('0' <= c && c <= '9') {
            assert(!all_digits(v@.skip(start as int))) by {
                assert(v@.skip(start as int)[i - start] == c);
                assert(!is_digit(v@.skip(start as int)[i - start]));
            }
            return None;
        }
        proof {
            lemma_digits_push(v@.subrange(start as int, i as int), c);
            assert(v@.subrange(start as int, i as int).push(c) =~= v@.subrange(start as int, i + 1));
        }
        if !over {
            let dv = (c as u32) - ('0' as u32);
            acc = acc * 10 + dv as u64;
            if acc > 0xffff_ffff {
                over = true;
            }
        }
        i = i + 1;
    }
    assert(v@.subrange(start as int, v.len() as int) =~= v@.skip(start as int));
    if over {
        None
    } else {
        Some(acc as u32)
    }
}

/// `query.parse::<u32>()`: `Some` exactly when the text is an optional `+`
/// followed by decimal digits whose value fits in a `u32`.
pub fn parse_u32(v: &Vec<char>) -> (r: Option<u32>)
    ensures
        r == parse_u32_spec(v@),
{
    let start: usize = if v.len() > 0 && v[0] == '+' { 1 } else { 0 };
    assert(v@.skip(1) =~= v@.drop_first());
    assert(v@.skip(0) =~= v@);
    if start >= v.len() {
        return None;
    }
    parse_digits(v, start)
}

/// `n.to_string()` for a `u32`, as characters.
pub fn decimal_chars(n: u32) -> (r: Vec<char>)
    ensures
        r@ == decimal(n as nat),
    decreases n,
{
    if n < 10 {
        let c = ((n + ('0' as u32)) as u8) as char;
        proof {
            assert(('0' as u32) == 48);
        }
        let mut r: Vec<char> = Vec::new();
        r.push(c);
        assert(r@ =~= seq![digit_char(n as nat)]) by {
            assert(c == digit_char(n as nat));
        }
        r
    } else {
        let mut r = decimal_chars(n / 10);
        let d = n % 10;
        let c = ((d + ('0' as u32)) as u8) as char;
        proof {
            assert(('0' as u32) == 48);
            assert(c == digit_char((n % 10) as nat));
        }
        r.push(c);
        r
    }
}

} // verus!

verus! {

// ---------------------------------------------------------------------------
// UTF-8 byte lengths (what `str::len` counts).
// ---------------------------------------------------------------------------

/// The number of bytes of `c` in UTF-8 (`char::len_utf8`).
pub open spec fn utf8_width(c: char) -> nat {
    let v = c as u32;
    if v < 0x80 {
        1
    } else if v < 0x800 {
        2
    } else if v < 0x10000 {
        3
    } else {
        4
    }
}

/// The number of bytes of `s` in UTF-8 (`str::len`).
pub open spec fn utf8_len(s: Seq<char>) -> nat
    decreases s.len(),
{
    if s.len() == 0 {
        0
    } else {
        utf8_width(s[0]) + utf8_len(s.drop_first())
    }
}

/// Byte lengths add up over concatenation.
pub proof fn lemma_utf8_len_concat(a: Seq<char>, b: Seq<char>)
    ensures
        utf8_len(a + b) == utf8_len(a) + utf8_len(b),
    decreases a.len(),
{
    if a.len() > 0 {
        assert((a + b).drop_first() =~= a.drop_first() + b);
        lemma_utf8_len_concat(a.drop_first(), b);
    } else {
        assert(a + b =~= b);
    }
}

/// The byte length of the first `k + 1` characters.
pub proof fn lemma_utf8_len_take_next(s: Seq<char>, k: int)
    requires
        0 <= k < s.len(),
    ensures
        utf8_len(s.take(k + 1)) == utf8_len(s.take(k)) + utf8_width(s[k]),
{
    assert(s.take(k + 1) =~= s.take(k) + seq![s[k]]);
    lemma_utf8_len_concat(s.take(k), seq![s[k]]);
    assert(seq![s[k]].drop_first() =~= Seq::<char>::empty());
    assert(utf8_len(Seq::<char>::empty()) == 0);
    assert(utf8_len(seq![s[k]]) == utf8_width(s[k]));
}

/// Prefix byte lengths grow strictly with the number of characters.
pub proof fn lemma_utf8_len_take_mono(s: Seq<char>, j: int, k: int)
    requires
        0 <= j < k <= s.len(),
    ensures
        utf8_len(s.take(j)) < utf8_len(s.take(k)),
    decreases k - j,
{
    lemma_utf8_len_take_next(s, k - 1);
    if j < k - 1 {
        lemma_utf8_len_take_mono(s, j, k - 1);
    }
}

/// `utf8_len` is the length of vstd's UTF-8 encoding of the characters.
pub proof fn lemma_utf8_len_is_encoded_len(s: Seq<char>)
    ensures
        utf8_len(s) == vstd::utf8::encode_utf8(s).len(),
    decreases s.len(),
{
    if s.len() > 0 {
        lemma_utf8_len_is_encoded_len(s.drop_first());
        let v = s[0] as u32;
        vstd::utf8::char_is_scalar(s[0]);
    }
}

/// `c.len_utf8()`.
pub fn char_utf8_width(c: char) -> (r: usize)
    ensures
        r == utf8_width(c),
{
    let v = c as u32;
    if v < 0x80 {
        1
    } else if v < 0x800 {
        2
    } else if v < 0x10000 {
        3
    } else {
        4
    }
}

/// The number of characters at the start of `s` that make up exactly `n` bytes,
/// when that many bytes end on a character boundary.
pub open spec fn chars_in_bytes(s: Seq<char>, n: nat) -> int {
    choose|k: int| 0 <= k <= s.len() && utf8_len(s.take(k)) == n
}

/// `n` bytes into `s` is a character boundary (or the end).
pub open spec fn is_boundary(s: Seq<char>, n: nat) -> bool {
    exists|k: int| 0 <= k <= s.len() && utf8_len(s.take(k)) == n
}

/// At most one character count gives a byte length.
pub proof fn lemma_boundary_unique(s: Seq<char>, n: nat, k: int)
    requires
        0 <= k <= s.len(),
        utf8_len(s.take(k)) == n,
    ensures
        chars_in_bytes(s, n) == k,
{
    let c = chars_in_bytes(s, n);
    assert(is_boundary(s, n));
    if c < k {
        lemma_utf8_len_take_mono(s, c, k);
    } else if k < c {
        lemma_utf8_len_take_mono(s, k, c);
    }
}

/// Finds the number of leading characters that make up exactly `n` bytes, if the
/// `n`-th byte is a character boundary.
pub fn boundary_chars(v: &Vec<char>, n: usize) -> (r: Option<usize>)
    ensures
        r is Some <==> is_boundary(v@, n as nat),
        r matches Some(k) ==> k == chars_in_bytes(v@, n as nat) && k <= v.len()
            && utf8_len(v@.take(k as int)) == n,
{
    let mut total: usize = 0;
    let mut i: usize = 0;
    assert(v@.take(0) =~= Seq::<char>::empty());
    while i < v.len() && total < n
        invariant
            i <= v.len(),
            total == utf8_len(v@.take(i as int)),
            total <= n,
            forall|k: int| 0 <= k < i ==> utf8_len(v@.take(k)) < n,
        decreases v.len() - i,
    {
        proof {
            lemma_utf8_len_take_next(v@, i as int);
            assert forall|k: int| 0 <= k < i + 1 implies utf8_len(v@.take(k)) < n by {
                if k < i {
                } else {
                    assert(k == i);
                }
            }
        }
        let w = char_utf8_width(v[i]);
        if w > n - total {
            proof {
                assert forall|k: int| 0 <= k <= v@.len() implies utf8_len(v@.take(k)) != n by {
                    if k > i {
                        if k > i + 1 {
                            lemma_utf8_len_take_mono(v@, i + 1, k);
                        }
                    }
                }
            }
            return None;
        }
        total = total + w;
        i = i + 1;
    }
    if total == n {
        proof {
            lemma_boundary_unique(v@, n as nat, i as int);
        }
        Some(i)
    } else {
        proof {
            assert(i == v.len());
            assert forall|k: int| 0 <= k <= v@.len() implies utf8_len(v@.take(k)) != n by {
                if k < i {
                } else {
                    assert(k == i);
                }
            }
        }
        None
    }
}

} // verus!
