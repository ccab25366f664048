//! Text handling shared by the request handlers: characters of strings,
//! splitting on a separator, trimming, decimal rendering and Rust-style
//! integer parsing, all over `Seq<char>` models.
use vstd::prelude::*;
use vstd::string::StrSliceExecFns;

verus! {

broadcast use vstd::string::group_string_axioms;

// ---------------------------------------------------------------------------
// Characters and strings
// ---------------------------------------------------------------------------

/// The characters of a string slice, in order.
pub fn chars_of(s: &str) -> (r: Vec<char>)
    ensures
        r@ == s@,
{
    let mut r: Vec<char> = Vec::new();
    for c in it: s.chars()
        invariant
            it.seq() == s@,
            r@ == it.seq().take(it.index()),
    {
        r.push(c);
    }
    r
}

/// Appends one character to a `String` (std's `String::push`).
#[verifier::external_body]
fn string_push(s: &mut String, c: char)
    ensures
        final(s)@ == old(s)@.push(c),
{
    s.push(c);
}

/// A `String` holding exactly the given characters.
pub fn string_of(cs: &Vec<char>) -> (r: String)
    ensures
        r@ == cs@,
{
    let mut r = String::new();
    for i in 0..cs.len()
        invariant
            r@ == cs@.take(i as int),
    {
        string_push(&mut r, cs[i]);
        assert(cs@.take(i + 1) == cs@.take(i as int).push(cs@[i as int]));
    }
    assert(cs@.take(cs@.len() as int) == cs@);
    r
}

/// Appends all characters of `more` to `out`.
pub fn append_chars(out: &mut Vec<char>, more: &Vec<char>)
    ensures
        final(out)@ == old(out)@ + more@,
{
    for i in 0..more.len()
        invariant
            out@ == old(out)@ + more@.take(i as int),
    {
        out.push(more[i]);
        assert(more@.take(i + 1) == more@.take(i as int).push(more@[i as int]));
    }
    assert(more@.take(more@.len() as int) == more@);
}

/// Appends all characters of a string slice to `out`.
pub fn append_str(out: &mut Vec<char>, s: &str)
    ensures
        final(out)@ == old(out)@ + s@,
{
    let cs = chars_of(s);
    append_chars(out, &cs);
}

/// Whether two character sequences are equal.
pub fn chars_equal(a: &Vec<char>, b: &Vec<char>) -> (r: bool)
    ensures
        r == (a@ == b@),
{
    if a.len() != b.len() {
        return false;
    }
    for i in 0..a.len()
        invariant
            a@.len() == b@.len(),
            forall|j: int| 0 <= j < i ==> a@[j] == b@[j],
    {
        if a[i] != b[i] {
            return false;
        }
    }
    assert(a@ =~= b@);
    true
}

/// Whether a `String` holds exactly the text of a string slice.
pub fn text_is(s: &String, t: &str) -> (r: bool)
    ensures
        r == (s@ == t@),
{
    let a = chars_of(s.as_str());
    let b = chars_of(t);
    chars_equal(&a, &b)
}

// ---------------------------------------------------------------------------
// Substrings
// ---------------------------------------------------------------------------

/// `pat` occurs in `hay` as a contiguous run of characters (`str::contains`).
pub open spec fn contains_seq(hay: Seq<char>, pat: Seq<char>) -> bool {
    exists|i: int| 0 <= i <= hay.len() - pat.len() && #[trigger] hay.subrange(i, i + pat.len()) == pat
}

/// Whether `pat` occurs in `hay`.
pub fn contains_chars(hay: &Vec<char>, pat: &Vec<char>) -> (r: bool)
    ensures
        r == contains_seq(hay@, pat@),
{
    if pat.len() > hay.len() {
        return false;
    }
    if pat.len() == 0 {
        assert(hay@.subrange(0, 0 + pat@.len() as int) =~= pat@);
        assert(contains_seq(hay@, pat@));
        return true;
    }
    let hl = hay.len();
    let last = hl - pat.len();
    let mut i: usize = 0;
    while i <= last
        invariant
            hl == hay@.len(),
            last == hay@.len() - pat@.len(),
            1 <= pat@.len() <= hay@.len(),
            i <= last + 1,
            forall|k: int| 0 <= k < i ==> #[trigger] hay@.subrange(k, k + pat@.len()) != pat@,
        decreases last + 1 - i,
    {
        let mut j: usize = 0;
        let mut same = true;
        while j < pat.len()
            invariant
                0 <= j <= pat@.len(),
                hl == hay@.len(),
                i <= last,
                last == hay@.len() - pat@.len(),
                pat@.len() <= hay@.len(),
                i + pat@.len() <= hay@.len(),
                same ==> forall|m: int| 0 <= m < j ==> hay@[i + m] == pat@[m],
                !same ==> hay@.subrange(i as int, i + pat@.len()) != pat@,
            decreases pat@.len() - j,
        {
            if hay[i + j] != pat[j] {
                assert(hay@.subrange(i as int, i + pat@.len())[j as int] != pat@[j as int]);
                same = false;
            }
            j = j + 1;
        }
        if same {
            assert(hay@.subrange(i as int, i + pat@.len()) =~= pat@);
            return true;
        }
        i = i + 1;
    }
    false
}

// ---------------------------------------------------------------------------
// Splitting on a separator character
// ---------------------------------------------------------------------------

/// The pieces of `s` between occurrences of `sep`, as `str::split` with a
/// character pattern gives them: `n` separators give `n + 1` pieces, and the
/// empty text gives one empty piece.
pub open spec fn split_on(s: Seq<char>, sep: char) -> Seq<Seq<char>>
    decreases s.len(),
{
    if s.len() == 0 {
        seq![Seq::<char>::empty()]
    } else {
        let rest = split_on(s.drop_last(), sep);
        if s.last() == sep {
            rest.push(Seq::<char>::empty())
        } else {
            rest.update(rest.len() - 1, rest.last().push(s.last()))
        }
    }
}

/// `split_on` never yields an empty list of pieces.
pub proof fn lemma_split_nonempty(s: Seq<char>, sep: char)
    ensures
        split_on(s, sep).len() >= 1,
    decreases s.len(),
{
    if s.len() > 0 {
        lemma_split_nonempty(s.drop_last(), sep);
    }
}

/// The views of a list of string slices.
pub open spec fn str_views(v: Seq<&str>) -> Seq<Seq<char>> {
    v.map_values(|p: &str| p@)
}

/// Splits a string slice on every occurrence of `sep` (`str::split`).
pub fn split_str<'a>(s: &'a str, sep: char) -> (r: Vec<&'a str>)
    ensures
        str_views(r@) == split_on(s@, sep),
{
    let cs = chars_of(s);
    let n = cs.len();
    let mut pieces: Vec<&'a str> = Vec::new();
    let mut start: usize = 0;
    let mut i: usize = 0;
    assert(s@.take(0) =~= Seq::<char>::empty());
    assert(s@.subrange(0, 0) =~= Seq::<char>::empty());
    assert(str_views(pieces@) =~= Seq::<Seq<char>>::empty());
    while i < n
        invariant
            n == cs@.len(),
            cs@ == s@,
            start <= i <= n,
            split_on(s@.take(i as int), sep) == str_views(pieces@).push(s@.subrange(start as int, i as int)),
        decreases n - i,
    {
        proof {
            lemma_split_nonempty(s@.take(i as int), sep);
            assert(s@.take(i + 1).drop_last() == s@.take(i as int));
            assert(s@.take(i + 1).last() == s@[i as int]);
        }
        if cs[i] == sep {
            let ghost before = pieces@;
            let piece = s.substring_char(start, i);
            pieces.push(piece);
            assert(str_views(pieces@) =~= str_views(before).push(piece@));
            start = i + 1;
            assert(s@.subrange(start as int, i + 1) =~= Seq::<char>::empty());
        } else {
            assert(s@.subrange(start as int, i + 1) =~= s@.subrange(start as int, i as int).push(s@[i as int]));
        }
        i = i + 1;
    }
    let last = s.substring_char(start, n);
    pieces.push(last);
    assert(s@.take(n as int) =~= s@);
    assert(str_views(pieces@) =~= str_views(pieces@.drop_last()).push(last@));
    pieces
}


// ---------------------------------------------------------------------------
// Trimming (`str::trim`)
// ---------------------------------------------------------------------------

/// Rust's `char::is_whitespace`: the Unicode `White_Space` property.
pub open spec fn is_whitespace(c: char) -> bool {
    let n = c as u32;
    ||| 9 <= n <= 13
    ||| n == 32
    ||| n == 0x85
    ||| n == 0xa0
    ||| n == 0x1680
    ||| 0x2000 <= n <= 0x200a
    ||| n == 0x2028
    ||| n == 0x2029
    ||| n == 0x202f
    ||| n == 0x205f
    ||| n == 0x3000
}

/// Whether a character is white space.
pub fn is_whitespace_char(c: char) -> (r: bool)
    ensures
        r == is_whitespace(c),
{
    let n = c as u32;
    (9 <= n && n <= 13) || n == 32 || n == 0x85 || n == 0xa0 || n == 0x1680 || (0x2000 <= n && n
        <= 0x200a) || n == 0x2028 || n == 0x2029 || n == 0x202f || n == 0x205f || n == 0x3000
}

/// `s` without its leading white space.
pub open spec fn trim_start(s: Seq<char>) -> Seq<char>
    decreases s.len(),
{
    if s.len() > 0 && is_whitespace(s[0]) {
        trim_start(s.drop_first())
    } else {
        s
    }
}

/// `s` without its trailing white space.
pub open spec fn trim_end(s: Seq<char>) -> Seq<char>
    decreases s.len(),
{
    if s.len() > 0 && is_whitespace(s.last()) {
        trim_end(s.drop_last())
    } else {
        s
    }
}

/// `s` without leading and trailing white space (`str::trim`).
pub open spec fn trim(s: Seq<char>) -> Seq<char> {
    trim_end(trim_start(s))
}

/// The characters of `s` from `lo` up to `hi`.
pub fn slice_chars(s: &Vec<char>, lo: usize, hi: usize) -> (r: Vec<char>)
    requires
        lo <= hi <= s@.len(),
    ensures
        r@ == s@.subrange(lo as int, hi as int),
{
    let mut r: Vec<char> = Vec::new();
    let mut i = lo;
    while i < hi
        invariant
            lo <= i <= hi <= s@.len(),
            r@ == s@.subrange(lo as int, i as int),
        decreases hi - i,
    {
        r.push(s[i]);
        assert(s@.subrange(lo as int, i + 1) == s@.subrange(lo as int, i as int).push(s@[i as int]));
        i = i + 1;
    }
    r
}

/// `s` without leading and trailing white space.
pub fn trim_chars(s: &Vec<char>) -> (r: Vec<char>)
    ensures
        r@ == trim(s@),
{
    let n = s.len();
    let mut lo: usize = 0;
    assert(s@.subrange(0, n as int) == s@);
    while lo < n && is_whitespace_char(s[lo])
        invariant
            lo <= n,
            n == s@.len(),
            trim_start(s@) == trim_start(s@.subrange(lo as int, n as int)),
        decreases n - lo,
    {
        assert(s@.subrange(lo as int, n as int).drop_first() == s@.subrange(lo + 1, n as int));
        lo = lo + 1;
    }
    assert(trim_start(s@) == s@.subrange(lo as int, n as int));
    let mut hi: usize = n;
    while hi > lo && is_whitespace_char(s[hi - 1])
        invariant
            lo <= hi <= n,
            n == s@.len(),
            trim(s@) == trim_end(s@.subrange(lo as int, hi as int)),
        decreases hi,
    {
        assert(s@.subrange(lo as int, hi as int).drop_last() == s@.subrange(lo as int, hi - 1));
        hi = hi - 1;
    }
    slice_chars(s, lo, hi)
}

// ---------------------------------------------------------------------------
// Decimal rendering (`Display` for integers)
// ---------------------------------------------------------------------------

/// The decimal digit character for `d < 10`.
pub open spec fn digit_char(d: nat) -> char {
    if d == 0 {
        '0'
    } else if d == 1 {
        '1'
    } else if d == 2 {
        '2'
    } else if d == 3 {
        '3'
    } else if d == 4 {
        '4'
    } else if d == 5 {
        '5'
    } else if d == 6 {
        '6'
    } else if d == 7 {
        '7'
    } else if d == 8 {
        '8'
    } else {
        '9'
    }
}

/// The decimal text of a natural number, without leading zeros.
pub open spec fn decimal(n: nat) -> Seq<char>
    decreases n,
{
    if n < 10 {
        seq![digit_char(n)]
    } else {
        decimal(n / 10).push(digit_char(n % 10))
    }
}

/// The decimal text of an integer, with a leading `-` when it is negative.
pub open spec fn signed_decimal(i: int) -> Seq<char> {
    if i < 0 {
        seq!['-'] + decimal((-i) as nat)
    } else {
        decimal(i as nat)
    }
}

fn digit_char_exec(d: u64) -> (c: char)
    requires
        d < 10,
    ensures
        c == digit_char(d as nat),
{
    if d == 0 {
        '0'
    } else if d == 1 {
        '1'
    } else if d == 2 {
        '2'
    } else if d == 3 {
        '3'
    } else if d == 4 {
        '4'
    } else if d == 5 {
        '5'
    } else if d == 6 {
        '6'
    } else if d == 7 {
        '7'
    } else if d == 8 {
        '8'
    } else {
        '9'
    }
}

/// Appends the decimal text of `n` to `out`.
pub fn push_decimal(out: &mut Vec<char>, n: u64)
    ensures
        final(out)@ == old(out)@ + decimal(n as nat),
    decreases n,
{
    if n >= 10 {
        push_decimal(out, n / 10);
    }
    out.push(digit_char_exec(n % 10));
    assert(decimal(n as nat) == if n < 10 {
        seq![digit_char(n as nat)]
    } else {
        decimal((n / 10) as nat).push(digit_char((n % 10) as nat))
    });
}

/// Appends the decimal text of `i`, with its sign, to `out`.
pub fn push_signed_decimal(out: &mut Vec<char>, i: i64)
    ensures
        final(out)@ == old(out)@ + signed_decimal(i as int),
{
    if i < 0 {
        out.push('-');
        let magnitude: u64 = if i == i64::MIN {
            9223372036854775808u64
        } else {
            (-i) as u64
        };
        push_decimal(out, magnitude);
    } else {
        push_decimal(out, i as u64);
    }
}

// ---------------------------------------------------------------------------
// Integer parsing (`from_str_radix` / `str::parse`)
// ---------------------------------------------------------------------------

/// The value of a digit character in the given radix (`char::to_digit`).
pub open spec fn digit_value(c: char, radix: nat) -> Option<nat> {
    let n = c as u32;
    let v: int = if 48 <= n <= 57 {
        n - 48
    } else if 97 <= n <= 122 {
        n - 87
    } else if 65 <= n <= 90 {
        n - 55
    } else {
        36
    };
    if v < radix {
        Some(v as nat)
    } else {
        None
    }
}

/// The value of a non-empty run of digits; `None` when `s` is empty or holds
/// a character that is no digit in the radix.
pub open spec fn digits_value(s: Seq<char>, radix: nat) -> Option<nat>
    decreases s.len(),
{
    if s.len() == 0 {
        None
    } else if s.len() == 1 {
        digit_value(s[0], radix)
    } else {
        match (digits_value(s.drop_last(), radix), digit_value(s.last(), radix)) {
            (Some(p), Some(d)) => Some(p * radix + d),
            _ => None,
        }
    }
}

/// An unsigned integer as `from_str_radix` reads it: an optional `+`, then
/// one or more digits. The value is not yet bounded by a type.
pub open spec fn parse_unsigned(s: Seq<char>, radix: nat) -> Option<nat> {
    if s.len() > 0 && s[0] == '+' {
        digits_value(s.drop_first(), radix)
    } else {
        digits_value(s, radix)
    }
}

/// A signed integer as `from_str_radix` reads it: an optional `+` or `-`,
/// then one or more digits.
pub open spec fn parse_signed(s: Seq<char>, radix: nat) -> Option<int> {
    if s.len() > 0 && s[0] == '-' {
        match digits_value(s.drop_first(), radix) {
            Some(v) => Some(-v),
            None => None,
        }
    } else {
        match parse_unsigned(s, radix) {
            Some(v) => Some(v as int),
            None => None,
        }
    }
}

/// A parsed value kept only when it does not exceed `max`.
pub open spec fn within(v: Option<nat>, max: nat) -> Option<nat> {
    match v {
        Some(x) => if x <= max {
            Some(x)
        } else {
            None
        },
        None => None,
    }
}

/// A parsed value kept only when it lies in `min..=max`.
pub open spec fn within_range(v: Option<int>, min: int, max: int) -> Option<int> {
    match v {
        Some(x) => if min <= x <= max {
            Some(x)
        } else {
            None
        },
        None => None,
    }
}

/// Rust's `u8::from_str`.
pub open spec fn parse_u8(s: Seq<char>) -> Option<nat> {
    within(parse_unsigned(s, 10), 255)
}

fn digit_of(c: char, radix: u32) -> (r: Option<u64>)
    requires
        2 <= radix <= 36,
    ensures
        r is Some <==> digit_value(c, radix as nat) is Some,
        r matches Some(d) ==> digit_value(c, radix as nat) == Some(d as nat) && d < radix,
{
    let n = c as u32;
    let v: u32 = if 48 <= n && n <= 57 {
        n - 48
    } else if 97 <= n && n <= 122 {
        n - 87
    } else if 65 <= n && n <= 90 {
        n - 55
    } else {
        36
    };
    if v < radix {
        Some(v as u64)
    } else {
        None
    }
}

/// A prefix that is no run of digits makes the whole sequence none either.
proof fn lemma_digits_prefix_none(s: Seq<char>, k: int, radix: nat)
    requires
        0 < k <= s.len(),
        digits_value(s.take(k), radix) is None,
    ensures
        digits_value(s, radix) is None,
    decreases s.len(),
{
    if k < s.len() {
        assert(s.drop_last().take(k) == s.take(k));
        lemma_digits_prefix_none(s.drop_last(), k, radix);
    } else {
        assert(s.take(k) == s);
    }
}

/// Adding digits never makes a value smaller.
proof fn lemma_digits_grow(s: Seq<char>, k: int, radix: nat)
    requires
        0 < k <= s.len(),
        radix >= 1,
        digits_value(s.take(k), radix) is Some,
        digits_value(s, radix) is Some,
    ensures
        digits_value(s, radix).unwrap() >= digits_value(s.take(k), radix).unwrap(),
    decreases s.len(),
{
    if k < s.len() {
        assert(s.drop_last().take(k) == s.take(k));
        lemma_digits_grow(s.drop_last(), k, radix);
        let p = digits_value(s.drop_last(), radix).unwrap();
        let d = digit_value(s.last(), radix).unwrap();
        assert(p * radix + d >= p) by (nonlinear_arith)
            requires
                radix >= 1,
                d >= 0,
                p >= 0,
        ;
    } else {
        assert(s.take(k) == s);
    }
}

/// Reads the digits of `s` from `start` on, refusing values above `max`.
pub fn parse_digits(s: &Vec<char>, start: usize, radix: u32, max: u64) -> (r: Option<u64>)
    requires
        start <= s@.len(),
        2 <= radix <= 36,
    ensures
        r is Some <==> within(
            digits_value(s@.subrange(start as int, s@.len() as int), radix as nat),
            max as nat,
        ) is Some,
        r matches Some(v) ==> digits_value(
            s@.subrange(start as int, s@.len() as int),
            radix as nat,
        ) == Some(v as nat),
{
    let n = s.len();
    let ghost t = s@.subrange(start as int, n as int);
    if start >= n {
        return None;
    }
    let mut acc: u64 = 0;
    let mut i = start;
    while i < n
        invariant
            start < n,
            start <= i <= n,
            n == s@.len(),
            t == s@.subrange(start as int, n as int),
            2 <= radix <= 36,
            acc <= max,
            i > start ==> digits_value(t.take(i - start), radix as nat) == Some(acc as nat),
            i == start ==> acc == 0,
        decreases n - i,
    {
        let ghost k: int = i - start + 1;
        assert(t.take(k).drop_last() == t.take(k - 1));
        assert(t.take(k).last() == s@[i as int]);
        let d = match digit_of(s[i], radix) {
            Some(d) => d,
            None => {
                proof {
                    lemma_digits_prefix_none(t, k, radix as nat);
                }
                return None;
            },
        };
        let r64 = radix as u64;
        assert(digits_value(t.take(k), radix as nat) == Some((acc * r64 + d) as nat)) by {
            if i == start {
                assert(t.take(k).len() == 1);
            }
        }
        if d > max || acc > (max - d) / r64 {
            proof {
                let q: int = (max - d) as int / r64 as int;
                if d <= max {
                    assert(acc * r64 + d > max) by (nonlinear_arith)
                        requires
                            acc > q,
                            q == (max - d) as int / r64 as int,
                            r64 >= 2,
                            d <= max,
                    ;
                }
                if digits_value(t, radix as nat) is Some {
                    lemma_digits_grow(t, k, radix as nat);
                }
                assert(t.take(t.len() as int) == t);
            }
            return None;
        }
        assert(acc * r64 + d <= max) by (nonlinear_arith)
            requires
                acc <= (max - d) as int / r64 as int,
                r64 >= 2,
                d <= max,
        ;
        acc = acc * r64 + d;
        i = i + 1;
    }
    assert(t.take(n - start) == t);
    Some(acc)
}

/// Reads an unsigned integer (`from_str_radix` for an unsigned type whose
/// largest value is `max`).
pub fn parse_unsigned_chars(s: &Vec<char>, radix: u32, max: u64) -> (r: Option<u64>)
    requires
        2 <= radix <= 36,
    ensures
        r is Some <==> within(parse_unsigned(s@, radix as nat), max as nat) is Some,
        r matches Some(v) ==> parse_unsigned(s@, radix as nat) == Some(v as nat),
{
    if s.len() > 0 && s[0] == '+' {
        assert(s@.subrange(1, s@.len() as int) == s@.drop_first());
        parse_digits(s, 1, radix, max)
    } else {
        assert(s@.subrange(0, s@.len() as int) == s@);
        parse_digits(s, 0, radix, max)
    }
}

/// Reads a signed decimal integer (`str::parse` for a signed type whose
/// range is `min..=max`).
pub fn parse_signed_chars(s: &Vec<char>, min: i64, max: i64) -> (r: Option<i64>)
    requires
        min <= 0 <= max,
    ensures
        r is Some <==> within_range(parse_signed(s@, 10), min as int, max as int) is Some,
        r matches Some(v) ==> parse_signed(s@, 10) == Some(v as int),
{
    if s.len() > 0 && s[0] == '-' {
        assert(s@.subrange(1, s@.len() as int) == s@.drop_first());
        let limit: u64 = if min == i64::MIN {
            9223372036854775808u64
        } else {
            (-min) as u64
        };
        match parse_digits(s, 1, 10, limit) {
            Some(m) => {
                if m == 9223372036854775808u64 {
                    Some(i64::MIN)
                } else {
                    Some(-(m as i64))
                }
            },
            None => None,
        }
    } else {
        let p = parse_unsigned_chars(s, 10, max as u64);
        match p {
            Some(v) => Some(v as i64),
            None => None,
        }
    }
}


/// A number read from a query parameter.
#[derive(Debug, PartialEq, Eq)]
pub enum Val {
    Int(isize),
}

/// Reads an optional text as an `isize` (`str::parse::<isize>`); `None` when
/// there is no text or it does not read.
pub fn parse_string(s: Option<&str>) -> (r: Option<Val>)
    ensures
        match s {
            None => r is None,
            Some(t) => match within_range(parse_signed(t@, 10), isize::MIN as int, isize::MAX as int) {
                Some(v) => r == Some(Val::Int(v as isize)),
                None => r is None,
            },
        },
{
    let t = s?;
    let cs = chars_of(t);
    match parse_signed_chars(&cs, isize::MIN as i64, isize::MAX as i64) {
        Some(v) => Some(Val::Int(v as isize)),
        None => None,
    }
}


/// Every digit character reads back as its digit.
pub proof fn lemma_digit_char_value(d: nat)
    requires
        d < 10,
    ensures
        digit_value(digit_char(d), 10) == Some(d),
        digit_char(d) != '.',
        digit_char(d) != '+',
        digit_char(d) != ':',
        digit_char(d) != '-',
{
}

/// The decimal text of a number reads back as that number.
pub proof fn lemma_decimal_reads_back(n: nat)
    ensures
        digits_value(decimal(n), 10) == Some(n),
        parse_unsigned(decimal(n), 10) == Some(n),
        decimal(n).len() >= 1,
    decreases n,
{
    lemma_digit_char_value(n % 10);
    if n >= 10 {
        lemma_decimal_reads_back(n / 10);
        assert(decimal(n).drop_last() == decimal(n / 10));
    }
    assert(decimal(n)[0] != '+') by {
        lemma_decimal_digits_only(n, '+');
    }
}

/// A decimal text holds nothing but digit characters.
pub proof fn lemma_decimal_digits_only(n: nat, c: char)
    requires
        forall|d: nat| d < 10 ==> digit_char(d) != c,
    ensures
        forall|i: int| 0 <= i < decimal(n).len() ==> decimal(n)[i] != c,
    decreases n,
{
    assert(digit_char(n % 10) != c);
    if n >= 10 {
        lemma_decimal_digits_only(n / 10, c);
        assert forall|i: int| 0 <= i < decimal(n).len() implies decimal(n)[i] != c by {
            if i < decimal(n).len() - 1 {
                assert(decimal(n)[i] == decimal(n / 10)[i]);
            }
        }
    }
}


/// The signed decimal text of an integer reads back as that integer
/// (`str::parse` of `Display`).
pub proof fn lemma_signed_decimal_reads_back(n: int)
    ensures
        parse_signed(signed_decimal(n), 10) == Some(n),
{
    assert forall|d: nat| d < 10 implies digit_char(d) != '-' by {
        lemma_digit_char_value(d);
    }
    if n < 0 {
        let m = (-n) as nat;
        lemma_decimal_reads_back(m);
        assert(signed_decimal(n).drop_first() == decimal(m));
    } else {
        let m = n as nat;
        lemma_decimal_reads_back(m);
        lemma_decimal_digits_only(m, '-');
        assert(decimal(m)[0] != '-');
    }
}

/// A text without the separator is a single piece.
pub proof fn lemma_split_single(y: Seq<char>, sep: char)
    requires
        forall|i: int| 0 <= i < y.len() ==> y[i] != sep,
    ensures
        split_on(y, sep) == seq![y],
    decreases y.len(),
{
    if y.len() > 0 {
        lemma_split_single(y.drop_last(), sep);
        assert(y.drop_last().push(y.last()) =~= y);
        assert(seq![y.drop_last()].update(0, y.drop_last().push(y.last())) =~= seq![y]);
    } else {
        assert(y =~= Seq::<char>::empty());
    }
}

/// Appending a separator and a text without it adds that text as a piece.
pub proof fn lemma_split_append(x: Seq<char>, y: Seq<char>, sep: char)
    requires
        forall|i: int| 0 <= i < y.len() ==> y[i] != sep,
    ensures
        split_on(x + seq![sep] + y, sep) == split_on(x, sep).push(y),
    decreases y.len(),
{
    let z = x + seq![sep] + y;
    if y.len() == 0 {
        assert(z.drop_last() =~= x);
        assert(y =~= Seq::<char>::empty());
    } else {
        lemma_split_append(x, y.drop_last(), sep);
        assert(z.drop_last() =~= x + seq![sep] + y.drop_last());
        let rest = split_on(x, sep).push(y.drop_last());
        assert(y.drop_last().push(y.last()) =~= y);
        assert(rest.update(rest.len() - 1, rest.last().push(y.last())) =~= split_on(x, sep).push(y));
    }
}

} // verus!
