//! Address arithmetic: byte-wise XOR, IPv4 destinations and keys by
//! wrapping octet addition and subtraction, and the IPv6 group handling.
use vstd::prelude::*;
use crate::text::{
    chars_of, decimal, digit_char, digit_value, digits_value, lemma_signed_decimal_reads_back,
    lemma_decimal_digits_only, lemma_decimal_reads_back,
    lemma_digit_char_value, lemma_split_append, lemma_split_single, parse_signed, parse_signed_chars, parse_u8, parse_unsigned, parse_unsigned_chars,
    push_decimal, push_signed_decimal, signed_decimal, split_on, split_str, str_views, string_of,
    within, within_range,
};

verus! {

// ---------------------------------------------------------------------------
// XOR of byte vectors
// ---------------------------------------------------------------------------

/// Byte-wise XOR of two sequences, as long as the shorter one.
pub open spec fn xor_bytes(a: Seq<u8>, b: Seq<u8>) -> Seq<u8> {
    let n = if a.len() <= b.len() {
        a.len()
    } else {
        b.len()
    };
    Seq::new(n, |i: int| a[i] ^ b[i])
}

/// XORs `a` and `b` position by position, stopping at the end of the shorter.
pub fn xor(a: &Vec<u8>, b: &Vec<u8>) -> (c: Vec<u8>)
    ensures
        c@ == xor_bytes(a@, b@),
{
    let n = if a.len() <= b.len() {
        a.len()
    } else {
        b.len()
    };
    let mut c: Vec<u8> = Vec::new();
    for i in 0..n
        invariant
            n == xor_bytes(a@, b@).len(),
            c@ == xor_bytes(a@, b@).take(i as int),
    {
        c.push(a[i] ^ b[i]);
        assert(xor_bytes(a@, b@).take(i + 1) == xor_bytes(a@, b@).take(i as int).push(a@[i as int] ^ b@[i as int]));
    }
    assert(xor_bytes(a@, b@).take(n as int) == xor_bytes(a@, b@));
    c
}

// ---------------------------------------------------------------------------
// Rendering four values as a dotted quad
// ---------------------------------------------------------------------------

/// `"{}.{}.{}.{}"` of the first four values.
pub open spec fn quad_text(a: Seq<int>) -> Seq<char> {
    signed_decimal(a[0]) + seq!['.'] + signed_decimal(a[1]) + seq!['.'] + signed_decimal(a[2])
        + seq!['.'] + signed_decimal(a[3])
}

/// Bytes taken as integers.
pub open spec fn byte_ints(a: Seq<u8>) -> Seq<int> {
    a.map_values(|x: u8| x as int)
}

/// The first four values, in decimal, joined by dots.
pub fn quad_string(vals: &Vec<i64>) -> (r: String)
    requires
        vals@.len() >= 4,
    ensures
        r@ == quad_text(vals@.map_values(|x: i64| x as int)),
{
    let mut out: Vec<char> = Vec::new();
    push_signed_decimal(&mut out, vals[0]);
    out.push('.');
    push_signed_decimal(&mut out, vals[1]);
    out.push('.');
    push_signed_decimal(&mut out, vals[2]);
    out.push('.');
    push_signed_decimal(&mut out, vals[3]);
    let ghost a = vals@.map_values(|x: i64| x as int);
    assert(out@ =~= quad_text(a));
    string_of(&out)
}

// ---------------------------------------------------------------------------
// IPv4: dotted octets
// ---------------------------------------------------------------------------

/// Every piece reads as a `u8`.
pub open spec fn octet_pieces_ok(ps: Seq<Seq<char>>) -> bool {
    forall|i: int| 0 <= i < ps.len() ==> #[trigger] parse_u8(ps[i]) is Some
}

/// The `u8` read from each piece.
pub open spec fn octets_of(ps: Seq<Seq<char>>) -> Seq<u8> {
    Seq::new(ps.len(), |i: int| parse_u8(ps[i]).unwrap() as u8)
}

/// Every `.`-separated piece of `s` reads as a `u8`.
pub open spec fn dotted_ok(s: Seq<char>) -> bool {
    octet_pieces_ok(split_on(s, '.'))
}

/// The octets of a dotted text, one per `.`-separated piece.
pub open spec fn dotted_octets(s: Seq<char>) -> Seq<u8> {
    octets_of(split_on(s, '.'))
}

/// Reads every `.`-separated piece of `s` as a `u8`; `None` when one does not
/// read (where `str::parse::<u8>` fails).
pub fn parse_dotted_octets(s: &str) -> (r: Option<Vec<u8>>)
    ensures
        r is Some <==> dotted_ok(s@),
        r matches Some(v) ==> v@ == dotted_octets(s@),
{
    let pieces = split_str(s, '.');
    let ghost ps = split_on(s@, '.');
    let mut out: Vec<u8> = Vec::new();
    for i in 0..pieces.len()
        invariant
            str_views(pieces@) == ps,
            ps == split_on(s@, '.'),
            out@.len() == i,
            forall|j: int| 0 <= j < i ==> #[trigger] parse_u8(ps[j]) is Some,
            forall|j: int| 0 <= j < i ==> out@[j] == parse_u8(ps[j]).unwrap() as u8,
    {
        let cs = chars_of(pieces[i]);
        assert(cs@ == ps[i as int]);
        match parse_unsigned_chars(&cs, 10, 255) {
            Some(v) => {
                out.push(v as u8);
            },
            None => {
                assert(parse_u8(ps[i as int]) is None);
                return None;
            },
        }
    }
    assert(out@ =~= octets_of(ps));
    Some(out)
}

/// Wrapping octet addition, one octet per key octet.
pub open spec fn dest_octets(from: Seq<u8>, key: Seq<u8>) -> Seq<u8> {
    Seq::new(key.len(), |i: int| ((from[i] + key[i]) % 256) as u8)
}

/// Wrapping octet subtraction `to - from`, one octet per `to` octet.
pub open spec fn key_octets(from: Seq<u8>, to: Seq<u8>) -> Seq<u8> {
    Seq::new(to.len(), |i: int| ((to[i] - from[i] + 256) % 256) as u8)
}

/// Inputs on which the IPv4 handlers answer: both texts read as octets, the
/// second has at least four and no more than the first.
pub open spec fn quad_inputs_ok(first: Seq<char>, second: Seq<char>) -> bool {
    &&& dotted_ok(first)
    &&& dotted_ok(second)
    &&& 4 <= dotted_octets(second).len() <= dotted_octets(first).len()
}

fn octets_as_i64(a: &Vec<u8>) -> (r: Vec<i64>)
    ensures
        r@.len() == a@.len(),
        r@.map_values(|x: i64| x as int) == byte_ints(a@),
{
    let mut r: Vec<i64> = Vec::new();
    for i in 0..a.len()
        invariant
            r@.len() == i,
            forall|j: int| 0 <= j < i ==> r@[j] == a@[j] as i64,
    {
        r.push(a[i] as i64);
    }
    assert(r@.map_values(|x: i64| x as int) =~= byte_ints(a@));
    r
}

/// The destination address: each octet of `from` plus the matching octet of
/// `key`, wrapping at 256, shown as a dotted quad of the first four.
pub fn calculate_dest(from: &str, key: &str) -> (r: String)
    requires
        quad_inputs_ok(from@, key@),
    ensures
        r@ == quad_text(byte_ints(dest_octets(dotted_octets(from@), dotted_octets(key@)))),
{
    let f = match parse_dotted_octets(from) {
        Some(v) => v,
        None => return String::new(),
    };
    let k = match parse_dotted_octets(key) {
        Some(v) => v,
        None => return String::new(),
    };
    let mut answer: Vec<u8> = Vec::new();
    for i in 0..k.len()
        invariant
            k@.len() <= f@.len(),
            answer@.len() == i,
            forall|j: int| 0 <= j < i ==> answer@[j] == ((f@[j] + k@[j]) % 256) as u8,
    {
        let sum: u16 = f[i] as u16 + k[i] as u16;
        answer.push((sum % 256) as u8);
    }
    assert(answer@ =~= dest_octets(f@, k@));
    quad_string(&octets_as_i64(&answer))
}

/// The key between two addresses: each octet of `to` minus the matching octet
/// of `from`, wrapping at 256, shown as a dotted quad of the first four.
pub fn calculate_key(from: &str, to: &str) -> (r: String)
    requires
        quad_inputs_ok(from@, to@),
    ensures
        r@ == quad_text(byte_ints(key_octets(dotted_octets(from@), dotted_octets(to@)))),
{
    let f = match parse_dotted_octets(from) {
        Some(v) => v,
        None => return String::new(),
    };
    let t = match parse_dotted_octets(to) {
        Some(v) => v,
        None => return String::new(),
    };
    let mut answer: Vec<u8> = Vec::new();
    for i in 0..t.len()
        invariant
            t@.len() <= f@.len(),
            answer@.len() == i,
            forall|j: int| 0 <= j < i ==> answer@[j] == ((t@[j] - f@[j] + 256) % 256) as u8,
    {
        let diff: u16 = t[i] as u16 + 256 - f[i] as u16;
        answer.push((diff % 256) as u8);
    }
    assert(answer@ =~= key_octets(f@, t@));
    quad_string(&octets_as_i64(&answer))
}


// ---------------------------------------------------------------------------
// IPv6: groups
// ---------------------------------------------------------------------------

/// A piece is empty, or reads as a hexadecimal `usize` (`from_str_radix` 16).
pub open spec fn hex_group_ok(p: Seq<char>) -> bool {
    p.len() == 0 || within(parse_unsigned(p, 16), usize::MAX as nat) is Some
}

/// The value of a hexadecimal piece.
pub open spec fn hex_group(p: Seq<char>) -> usize {
    parse_unsigned(p, 16).unwrap() as usize
}

/// The groups of an address: each empty piece stands for `fill` zero groups,
/// each other piece for its hexadecimal value.
pub open spec fn expand_groups(ps: Seq<Seq<char>>, fill: nat) -> Seq<usize>
    decreases ps.len(),
{
    if ps.len() == 0 {
        Seq::<usize>::empty()
    } else {
        expand_groups(ps.drop_last(), fill) + if ps.last().len() == 0 {
            Seq::new(fill, |i: int| 0usize)
        } else {
            seq![hex_group(ps.last())]
        }
    }
}

/// Pieces that `create_addr` accepts: at most nine, each empty or hexadecimal.
pub open spec fn groups_ok(ps: Seq<Seq<char>>) -> bool {
    &&& ps.len() <= 9
    &&& forall|i: int| 0 <= i < ps.len() ==> #[trigger] hex_group_ok(ps[i])
}

/// The groups of a split address, empty pieces filling up to nine pieces.
pub open spec fn address_groups(ps: Seq<Seq<char>>) -> Seq<usize> {
    expand_groups(ps, (9 - ps.len()) as nat)
}

/// Expands the pieces of an IPv6 address into numeric groups: every empty
/// piece becomes `9 - n` zero groups (`n` the number of pieces), every other
/// piece its hexadecimal value.
pub fn create_addr(parsed_thing: Vec<&str>) -> (result: Vec<usize>)
    requires
        groups_ok(str_views(parsed_thing@)),
    ensures
        result@ == address_groups(str_views(parsed_thing@)),
{
    let ghost ps = str_views(parsed_thing@);
    let mut result: Vec<usize> = Vec::new();
    let len_ipv6 = parsed_thing.len();
    let less_than_len: usize = 9 - len_ipv6;
    assert(ps.take(0) =~= Seq::<Seq<char>>::empty());
    for k in 0..len_ipv6
        invariant
            len_ipv6 == parsed_thing@.len(),
            ps == str_views(parsed_thing@),
            groups_ok(ps),
            less_than_len == 9 - len_ipv6,
            result@ == expand_groups(ps.take(k as int), less_than_len as nat),
    {
        let num = parsed_thing[k];
        assert(ps.take(k + 1).drop_last() == ps.take(k as int));
        assert(ps.take(k + 1).last() == num@);
        assert(hex_group_ok(ps[k as int]));
        if num.is_empty() {
            let ghost before = result@;
            for l in 0..less_than_len
                invariant
                    result@ == before + Seq::new(l as nat, |i: int| 0usize),
            {
                result.push(0);
                assert(before + Seq::new((l + 1) as nat, |i: int| 0usize) =~= (before + Seq::new(
                    l as nat,
                    |i: int| 0usize,
                )).push(0));
            }
        } else {
            let cs = chars_of(num);
            match parse_unsigned_chars(&cs, 16, usize::MAX as u64) {
                Some(v) => {
                    let ghost before = result@;
                    result.push(v as usize);
                    assert(result@ =~= before + seq![hex_group(num@)]);
                },
                None => {
                    assert(false);
                },
            }
        }
    }
    assert(ps.take(len_ipv6 as int) == ps);
    result
}

/// The IPv6 pieces of a text, split on `:`.
pub open spec fn v6_pieces(s: Seq<char>) -> Seq<Seq<char>> {
    split_on(s, ':')
}

/// The decimal text of a group, read back as a binary number that fits a
/// `u32` (`u32::from_str_radix(&x.to_string(), 2)`).
pub open spec fn binary_reading(x: usize) -> Option<nat> {
    within(parse_unsigned(decimal(x as nat), 2), u32::MAX as nat)
}

/// The XOR of the `i`-th groups of two addresses, read back as binary.
pub open spec fn v6_answer(from: Seq<char>, key: Seq<char>, i: int) -> Option<nat> {
    binary_reading(address_groups(v6_pieces(from))[i] ^ address_groups(v6_pieces(key))[i])
}

/// Inputs on which `calculate_v6dest` answers: both addresses split into
/// acceptable pieces, expand to at least eight groups, and each of the first
/// eight XORed groups has a decimal text of zeros and ones only.
pub open spec fn v6dest_inputs_ok(from: Seq<char>, key: Seq<char>) -> bool {
    &&& groups_ok(v6_pieces(from))
    &&& groups_ok(v6_pieces(key))
    &&& address_groups(v6_pieces(from)).len() >= 8
    &&& address_groups(v6_pieces(key)).len() >= 8
    &&& forall|i: int| 0 <= i < 8 ==> #[trigger] v6_answer(from, key, i) is Some
}

/// XORs the first eight groups of two IPv6 addresses, reads the decimal text
/// of each result as a binary number, and shows the first four as a dotted
/// quad.
pub fn calculate_v6dest(from: &str, key: &str) -> (r: String)
    requires
        v6dest_inputs_ok(from@, key@),
    ensures
        r@ == quad_text(Seq::new(4, |i: int| v6_answer(from@, key@, i).unwrap() as int)),
{
    let parsed_from = split_str(from, ':');
    let parsed_key = split_str(key, ':');
    let parsed_result = create_addr(parsed_from);
    let key_result = create_addr(parsed_key);
    let mut answer: Vec<i64> = Vec::new();
    for i in 0..8usize
        invariant
            parsed_result@ == address_groups(v6_pieces(from@)),
            key_result@ == address_groups(v6_pieces(key@)),
            v6dest_inputs_ok(from@, key@),
            answer@.len() == i,
            forall|j: int| 0 <= j < i ==> answer@[j] as int == v6_answer(from@, key@, j).unwrap(),
    {
        let x: usize = parsed_result[i] ^ key_result[i];
        let mut digits: Vec<char> = Vec::new();
        push_decimal(&mut digits, x as u64);
        assert(digits@ =~= decimal(x as nat));
        assert(v6_answer(from@, key@, i as int) is Some);
        match parse_unsigned_chars(&digits, 2, u32::MAX as u64) {
            Some(v) => {
                answer.push(v as i64);
            },
            None => {
                assert(false);
            },
        }
    }
    let r = quad_string(&answer);
    assert(answer@.map_values(|x: i64| x as int).take(4) =~= Seq::new(
        4,
        |i: int| v6_answer(from@, key@, i).unwrap() as int,
    ));
    r
}

/// Whether both texts are accepted by `calculate_dest` / `calculate_key`
/// (see `quad_inputs_ok`).
pub fn quad_inputs_ready(first: &str, second: &str) -> (r: bool)
    ensures
        r == quad_inputs_ok(first@, second@),
{
    match (parse_dotted_octets(first), parse_dotted_octets(second)) {
        (Some(f), Some(s)) => 4 <= s.len() && s.len() <= f.len(),
        _ => false,
    }
}

/// Whether pieces are accepted by `create_addr` (see `groups_ok`).
pub fn groups_ready(parsed_thing: &Vec<&str>) -> (r: bool)
    ensures
        r == groups_ok(str_views(parsed_thing@)),
{
    let ghost ps = str_views(parsed_thing@);
    if parsed_thing.len() > 9 {
        return false;
    }
    for i in 0..parsed_thing.len()
        invariant
            ps == str_views(parsed_thing@),
            ps.len() <= 9,
            forall|j: int| 0 <= j < i ==> #[trigger] hex_group_ok(ps[j]),
    {
        let piece = parsed_thing[i];
        if !piece.is_empty() {
            let cs = chars_of(piece);
            if parse_unsigned_chars(&cs, 16, usize::MAX as u64).is_none() {
                assert(!hex_group_ok(ps[i as int]));
                return false;
            }
        }
    }
    true
}

/// Whether both addresses are accepted by `calculate_v6dest` (see
/// `v6dest_inputs_ok`).
pub fn v6dest_inputs_ready(from: &str, key: &str) -> (r: bool)
    ensures
        r == v6dest_inputs_ok(from@, key@),
{
    let parsed_from = split_str(from, ':');
    let parsed_key = split_str(key, ':');
    if !groups_ready(&parsed_from) || !groups_ready(&parsed_key) {
        return false;
    }
    let from_groups = create_addr(parsed_from);
    let key_groups = create_addr(parsed_key);
    if from_groups.len() < 8 || key_groups.len() < 8 {
        return false;
    }
    for i in 0..8usize
        invariant
            from_groups@ == address_groups(v6_pieces(from@)),
            key_groups@ == address_groups(v6_pieces(key@)),
            from_groups@.len() >= 8,
            key_groups@.len() >= 8,
            forall|j: int| 0 <= j < i ==> #[trigger] v6_answer(from@, key@, j) is Some,
    {
        let x: usize = from_groups[i] ^ key_groups[i];
        let mut digits: Vec<char> = Vec::new();
        push_decimal(&mut digits, x as u64);
        assert(digits@ =~= decimal(x as nat));
        if parse_unsigned_chars(&digits, 2, u32::MAX as u64).is_none() {
            assert(v6_answer(from@, key@, i as int) is None);
            return false;
        }
    }
    true
}

// ---------------------------------------------------------------------------
// IPv6 keys: pieces split by a regular expression
// ---------------------------------------------------------------------------

/// The views of a list of strings.
pub open spec fn string_views(v: Seq<String>) -> Seq<Seq<char>> {
    v.map_values(|s: String| s@)
}

/// What `regex::Regex::new(pattern)` followed by `Regex::split(haystack)`
/// yields: `None` when the pattern does not compile, else the pieces of the
/// haystack between the matches.
pub uninterp spec fn regex_split(pattern: Seq<char>, haystack: Seq<char>) -> Option<Seq<Seq<char>>>;

/// The pattern separating the pieces of an IPv6 key: `::` or `:`.
pub open spec fn v6_separator() -> Seq<char> {
    "::|:"@
}

/// The pieces of `s` between the matches of `::|:`, as `Regex::split` finds
/// them: matches are found leftmost first and do not overlap, and at a
/// position where both alternatives match, the first one (`::`) is taken.
/// Text ending in a separator ends in an empty piece; empty text is one empty
/// piece.
pub open spec fn colon_pieces(s: Seq<char>) -> Seq<Seq<char>>
    decreases s.len(),
{
    if s.len() == 0 {
        seq![Seq::<char>::empty()]
    } else if s[0] == ':' {
        if s.len() >= 2 && s[1] == ':' {
            seq![Seq::<char>::empty()] + colon_pieces(s.skip(2))
        } else {
            seq![Seq::<char>::empty()] + colon_pieces(s.skip(1))
        }
    } else {
        let rest = colon_pieces(s.skip(1));
        rest.update(0, seq![s[0]] + rest[0])
    }
}

/// Calls `regex::Regex::new(pattern)` and, when it compiles, `Regex::split`
/// on `haystack`, collecting the pieces. The outcome is the name
/// `regex_split` of the two texts. For the pattern `::|:` the regex crate
/// documents leftmost-first matching, so the pattern compiles and the pieces
/// are `colon_pieces(haystack)`; for other patterns how matches are found is
/// not stated.
#[verifier::external_body]
fn split_by_regex(pattern: &str, haystack: &str) -> (r: Option<Vec<String>>)
    ensures
        r is Some <==> regex_split(pattern@, haystack@) is Some,
        r matches Some(v) ==> string_views(v@) == regex_split(pattern@, haystack@).unwrap(),
        r is None ==> pattern@ != v6_separator(),
        r matches Some(v) ==> (pattern@ == v6_separator() ==> string_views(v@) == colon_pieces(haystack@)),
{
    match regex::Regex::new(pattern) {
        Ok(re) => Some(re.split(haystack).map(String::from).collect()),
        Err(_) => None,
    }
}

/// The pieces of an IPv6 key text, split on `::` or `:`.
fn split_key_pieces(s: &str) -> (r: Vec<String>)
    ensures
        string_views(r@) == colon_pieces(s@),
{
    let pattern = "::|:";
    match split_by_regex(pattern, s) {
        Some(p) => p,
        None => Vec::new(),
    }
}

/// Every piece reads as an `i32` (`str::parse::<i32>`).
pub open spec fn i32_pieces_ok(ps: Seq<Seq<char>>) -> bool {
    forall|i: int|
        0 <= i < ps.len() ==> #[trigger] within_range(
            parse_signed(ps[i], 10),
            i32::MIN as int,
            i32::MAX as int,
        ) is Some
}

/// The `i32` read from each piece.
pub open spec fn i32_values(ps: Seq<Seq<char>>) -> Seq<i32> {
    Seq::new(ps.len(), |i: int| parse_signed(ps[i], 10).unwrap() as i32)
}

/// Pieces on which the key is defined: all read as `i32`, and the `to`
/// pieces are at least four and no more than the `from` pieces.
pub open spec fn v6key_ready(from: Seq<Seq<char>>, to: Seq<Seq<char>>) -> bool {
    &&& i32_pieces_ok(from)
    &&& i32_pieces_ok(to)
    &&& 4 <= to.len() <= from.len()
}

/// `to[i] ^ from[i]` for each `to` piece.
pub open spec fn v6key_values(from: Seq<Seq<char>>, to: Seq<Seq<char>>) -> Seq<int> {
    Seq::new(to.len(), |i: int| (i32_values(to)[i] ^ i32_values(from)[i]) as int)
}

/// Whether the key is defined on the given pieces.
pub fn v6key_parts_ready(from_parts: &Vec<String>, to_parts: &Vec<String>) -> (r: bool)
    ensures
        r == v6key_ready(string_views(from_parts@), string_views(to_parts@)),
{
    let ghost fp = string_views(from_parts@);
    let ghost tp = string_views(to_parts@);
    if to_parts.len() < 4 || to_parts.len() > from_parts.len() {
        return false;
    }
    for i in 0..from_parts.len()
        invariant
            fp == string_views(from_parts@),
            forall|j: int|
                0 <= j < i ==> #[trigger] within_range(
                    parse_signed(fp[j], 10),
                    i32::MIN as int,
                    i32::MAX as int,
                ) is Some,
    {
        let cs = chars_of(from_parts[i].as_str());
        if parse_signed_chars(&cs, i32::MIN as i64, i32::MAX as i64).is_none() {
            assert(fp[i as int] == cs@);
            return false;
        }
    }
    for i in 0..to_parts.len()
        invariant
            tp == string_views(to_parts@),
            forall|j: int|
                0 <= j < i ==> #[trigger] within_range(
                    parse_signed(tp[j], 10),
                    i32::MIN as int,
                    i32::MAX as int,
                ) is Some,
    {
        let cs = chars_of(to_parts[i].as_str());
        if parse_signed_chars(&cs, i32::MIN as i64, i32::MAX as i64).is_none() {
            assert(tp[i as int] == cs@);
            return false;
        }
    }
    true
}

fn read_i32_pieces(parts: &Vec<String>) -> (r: Vec<i32>)
    requires
        i32_pieces_ok(string_views(parts@)),
    ensures
        r@ == i32_values(string_views(parts@)),
{
    let ghost ps = string_views(parts@);
    let mut r: Vec<i32> = Vec::new();
    for i in 0..parts.len()
        invariant
            ps == string_views(parts@),
            i32_pieces_ok(ps),
            r@.len() == i,
            forall|j: int| 0 <= j < i ==> r@[j] == parse_signed(ps[j], 10).unwrap() as i32,
    {
        let cs = chars_of(parts[i].as_str());
        assert(cs@ == ps[i as int]);
        assert(within_range(parse_signed(ps[i as int], 10), i32::MIN as int, i32::MAX as int) is Some);
        match parse_signed_chars(&cs, i32::MIN as i64, i32::MAX as i64) {
            Some(v) => r.push(v as i32),
            None => {
                assert(false);
            },
        }
    }
    assert(r@ =~= i32_values(ps));
    r
}

/// The key from already split pieces: each `to` value XOR the matching `from`
/// value, the first four shown as a dotted quad.
pub fn v6key_from_parts(from_parts: &Vec<String>, to_parts: &Vec<String>) -> (r: String)
    requires
        v6key_ready(string_views(from_parts@), string_views(to_parts@)),
    ensures
        r@ == quad_text(v6key_values(string_views(from_parts@), string_views(to_parts@))),
{
    let parsed_from = read_i32_pieces(from_parts);
    let parsed_to = read_i32_pieces(to_parts);
    let mut answer: Vec<i64> = Vec::new();
    for i in 0..parsed_to.len()
        invariant
            parsed_to@.len() <= parsed_from@.len(),
            answer@.len() == i,
            forall|j: int| 0 <= j < i ==> answer@[j] as int == (parsed_to@[j] ^ parsed_from@[j]) as int,
    {
        let x: i32 = parsed_to[i] ^ parsed_from[i];
        answer.push(x as i64);
    }
    let r = quad_string(&answer);
    assert(answer@.map_values(|x: i64| x as int) =~= v6key_values(
        string_views(from_parts@),
        string_views(to_parts@),
    ));
    r
}

/// Whether `calculate_v6key` answers on two key texts: every piece reads as
/// an `i32`, and `to` has at least four pieces and no more than `from`.
pub fn v6key_inputs_ready(from: &str, to: &str) -> (r: bool)
    ensures
        r == v6key_ready(colon_pieces(from@), colon_pieces(to@)),
{
    let from_parts = split_key_pieces(from);
    let to_parts = split_key_pieces(to);
    v6key_parts_ready(&from_parts, &to_parts)
}

/// Splits both addresses on `::` or `:`, reads every piece as an `i32` and
/// XORs `to` with `from` piece by piece, the first four shown as a dotted
/// quad.
pub fn calculate_v6key(from: &str, to: &str) -> (r: String)
    requires
        v6key_ready(colon_pieces(from@), colon_pieces(to@)),
    ensures
        r@ == quad_text(v6key_values(colon_pieces(from@), colon_pieces(to@))),
{
    let from_parts = split_key_pieces(from);
    let to_parts = split_key_pieces(to);
    v6key_from_parts(&from_parts, &to_parts)
}

// ---------------------------------------------------------------------------
// Laws of the IPv4 arithmetic
// ---------------------------------------------------------------------------

/// Subtracting from a destination the source it was computed from gives back
/// the key.
pub proof fn law_key_undoes_dest_octets(from: Seq<u8>, key: Seq<u8>)
    requires
        key.len() <= from.len(),
    ensures
        key_octets(from, dest_octets(from, key)) == key,
{
    assert forall|i: int| 0 <= i < key.len() implies #[trigger] key_octets(
        from,
        dest_octets(from, key),
    )[i] == key[i] by {
        let f = from[i];
        let k = key[i];
        let d = ((f + k) % 256) as u8;
        assert(d == dest_octets(from, key)[i]);
        assert(((d - f + 256) % 256) as u8 == k);
    }
    assert(key_octets(from, dest_octets(from, key)) =~= key);
}

/// Adding to the source the key computed towards a destination gives back
/// the destination.
pub proof fn law_dest_undoes_key_octets(from: Seq<u8>, to: Seq<u8>)
    requires
        to.len() <= from.len(),
    ensures
        dest_octets(from, key_octets(from, to)) == to,
{
    assert forall|i: int| 0 <= i < to.len() implies #[trigger] dest_octets(
        from,
        key_octets(from, to),
    )[i] == to[i] by {
        let f = from[i];
        let t = to[i];
        let k = ((t - f + 256) % 256) as u8;
        assert(k == key_octets(from, to)[i]);
        assert(((f + k) % 256) as u8 == t);
    }
    assert(dest_octets(from, key_octets(from, to)) =~= to);
}

/// A dotted quad of octets reads back as those four octets.
pub proof fn lemma_quad_reads_back(octets: Seq<u8>)
    requires
        octets.len() >= 4,
    ensures
        dotted_ok(quad_text(byte_ints(octets))),
        dotted_octets(quad_text(byte_ints(octets))) == octets.take(4),
{
    let a = byte_ints(octets);
    let d0 = decimal(octets[0] as nat);
    let d1 = decimal(octets[1] as nat);
    let d2 = decimal(octets[2] as nat);
    let d3 = decimal(octets[3] as nat);
    assert forall|d: nat| d < 10 implies digit_char(d) != '.' by {
        lemma_digit_char_value(d);
    }
    lemma_decimal_digits_only(octets[0] as nat, '.');
    lemma_decimal_digits_only(octets[1] as nat, '.');
    lemma_decimal_digits_only(octets[2] as nat, '.');
    lemma_decimal_digits_only(octets[3] as nat, '.');
    lemma_split_single(d0, '.');
    lemma_split_append(d0, d1, '.');
    lemma_split_append(d0 + seq!['.'] + d1, d2, '.');
    lemma_split_append(d0 + seq!['.'] + d1 + seq!['.'] + d2, d3, '.');
    assert(quad_text(a) == d0 + seq!['.'] + d1 + seq!['.'] + d2 + seq!['.'] + d3);
    let ps = split_on(quad_text(a), '.');
    assert(ps =~= seq![d0, d1, d2, d3]);
    lemma_decimal_reads_back(octets[0] as nat);
    lemma_decimal_reads_back(octets[1] as nat);
    lemma_decimal_reads_back(octets[2] as nat);
    lemma_decimal_reads_back(octets[3] as nat);
    assert(octet_pieces_ok(ps));
    assert(octets_of(ps) =~= octets.take(4));
}

/// Dotted quads of two octet sequences agree when their first four agree.
proof fn lemma_quad_first_four(a: Seq<u8>, b: Seq<u8>)
    requires
        a.len() >= 4,
        b.len() >= 4,
        forall|i: int| 0 <= i < 4 ==> a[i] == b[i],
    ensures
        quad_text(byte_ints(a)) == quad_text(byte_ints(b)),
{
    assert(byte_ints(a)[0] == byte_ints(b)[0]);
    assert(byte_ints(a)[1] == byte_ints(b)[1]);
    assert(byte_ints(a)[2] == byte_ints(b)[2]);
    assert(byte_ints(a)[3] == byte_ints(b)[3]);
}

/// The key computed from a source and the destination that the source and a
/// key give is that key: `calculate_key(from, calculate_dest(from, key))`
/// is answered, and shows the key's first four octets.
pub proof fn law_key_of_dest(from: Seq<char>, key: Seq<char>)
    requires
        quad_inputs_ok(from, key),
    ensures
        ({
            let dest = quad_text(byte_ints(dest_octets(dotted_octets(from), dotted_octets(key))));
            &&& quad_inputs_ok(from, dest)
            &&& quad_text(byte_ints(key_octets(dotted_octets(from), dotted_octets(dest))))
                == quad_text(byte_ints(dotted_octets(key)))
        }),
{
    let f = dotted_octets(from);
    let k = dotted_octets(key);
    let d = dest_octets(f, k);
    lemma_quad_reads_back(d);
    law_key_undoes_dest_octets(f, k);
    let back = key_octets(f, d.take(4));
    assert forall|i: int| 0 <= i < 4 implies back[i] == k[i] by {
        assert(back[i] == key_octets(f, d)[i]);
    }
    lemma_quad_first_four(back, k);
}

/// The destination computed from a source and the key between that source
/// and a destination is that destination: `calculate_dest(from,
/// calculate_key(from, to))` is answered, and shows `to`'s first four octets.
pub proof fn law_dest_of_key(from: Seq<char>, to: Seq<char>)
    requires
        quad_inputs_ok(from, to),
    ensures
        ({
            let key = quad_text(byte_ints(key_octets(dotted_octets(from), dotted_octets(to))));
            &&& quad_inputs_ok(from, key)
            &&& quad_text(byte_ints(dest_octets(dotted_octets(from), dotted_octets(key))))
                == quad_text(byte_ints(dotted_octets(to)))
        }),
{
    let f = dotted_octets(from);
    let t = dotted_octets(to);
    let k = key_octets(f, t);
    lemma_quad_reads_back(k);
    law_dest_undoes_key_octets(f, t);
    let back = dest_octets(f, k.take(4));
    assert forall|i: int| 0 <= i < 4 implies back[i] == t[i] by {
        assert(back[i] == dest_octets(f, k)[i]);
    }
    lemma_quad_first_four(back, t);
}

// ---------------------------------------------------------------------------
// Laws of XOR
// ---------------------------------------------------------------------------

/// XOR does not depend on the order of its operands.
pub proof fn law_xor_commutes(a: Seq<u8>, b: Seq<u8>)
    ensures
        xor_bytes(a, b) == xor_bytes(b, a),
{
    assert forall|i: int| 0 <= i < xor_bytes(a, b).len() implies #[trigger] xor_bytes(a, b)[i]
        == xor_bytes(b, a)[i] by {
        let x = a[i];
        let y = b[i];
        assert(x ^ y == y ^ x) by (bit_vector);
    }
    assert(xor_bytes(a, b) =~= xor_bytes(b, a));
}

/// XORing twice with the same bytes gives back the first operand.
pub proof fn law_xor_undoes_itself(a: Seq<u8>, b: Seq<u8>)
    requires
        a.len() <= b.len(),
    ensures
        xor_bytes(xor_bytes(a, b), b) == a,
{
    assert forall|i: int| 0 <= i < a.len() implies #[trigger] xor_bytes(xor_bytes(a, b), b)[i]
        == a[i] by {
        let x = a[i];
        let y = b[i];
        assert((x ^ y) ^ y == x) by (bit_vector);
    }
    assert(xor_bytes(xor_bytes(a, b), b) =~= a);
}


// ---------------------------------------------------------------------------
// Laws of the IPv6 handling
// ---------------------------------------------------------------------------

/// The number of empty pieces.
pub open spec fn empty_pieces(ps: Seq<Seq<char>>) -> nat
    decreases ps.len(),
{
    if ps.len() == 0 {
        0
    } else {
        empty_pieces(ps.drop_last()) + if ps.last().len() == 0 {
            1nat
        } else {
            0nat
        }
    }
}

/// Each non-empty piece gives one group, each empty piece `fill` groups.
pub proof fn lemma_expand_groups_len(ps: Seq<Seq<char>>, fill: nat)
    ensures
        empty_pieces(ps) <= ps.len(),
        expand_groups(ps, fill).len() == (ps.len() - empty_pieces(ps)) + empty_pieces(ps) * fill,
    decreases ps.len(),
{
    if ps.len() > 0 {
        lemma_expand_groups_len(ps.drop_last(), fill);
        let e = empty_pieces(ps.drop_last());
        assert((e + 1) * fill == e * fill + fill) by (nonlinear_arith);
        let prev = expand_groups(ps.drop_last(), fill);
        if ps.last().len() == 0 {
            assert(expand_groups(ps, fill) == prev + Seq::new(fill, |i: int| 0usize));
            assert(empty_pieces(ps) == e + 1);
            assert(empty_pieces(ps) * fill == e * fill + fill);
        } else {
            assert(expand_groups(ps, fill) == prev + seq![hex_group(ps.last())]);
            assert(empty_pieces(ps) == e);
        }
    } else {
        assert(0 * fill == 0) by (nonlinear_arith);
    }
}

/// An address written with one empty piece (`::`) among at most nine pieces
/// expands to exactly eight groups.
pub proof fn law_compressed_address_has_eight_groups(ps: Seq<Seq<char>>)
    requires
        ps.len() <= 9,
        empty_pieces(ps) == 1,
    ensures
        address_groups(ps).len() == 8,
{
    lemma_expand_groups_len(ps, (9 - ps.len()) as nat);
}

/// An address written in full, eight non-empty pieces, expands to exactly
/// eight groups.
pub proof fn law_full_address_has_eight_groups(ps: Seq<Seq<char>>)
    requires
        ps.len() == 8,
        empty_pieces(ps) == 0,
    ensures
        address_groups(ps).len() == 8,
{
    lemma_expand_groups_len(ps, 1);
}

/// With as many pieces on both sides, the IPv6 key does not depend on which
/// address is the source.
pub proof fn law_v6key_symmetric(from: Seq<Seq<char>>, to: Seq<Seq<char>>)
    requires
        v6key_ready(from, to),
        from.len() == to.len(),
    ensures
        v6key_ready(to, from),
        v6key_values(from, to) == v6key_values(to, from),
{
    assert forall|i: int| 0 <= i < to.len() implies #[trigger] v6key_values(from, to)[i]
        == v6key_values(to, from)[i] by {
        let x = i32_values(to)[i];
        let y = i32_values(from)[i];
        assert(x ^ y == y ^ x) by (bit_vector);
    }
    assert(v6key_values(from, to) =~= v6key_values(to, from));
}


/// Each group `calculate_v6dest` answers is the XOR of the two addresses'
/// groups: the group `z` that gives back the source's group when XORed with
/// the key's group is the one whose decimal text is read as binary.
pub proof fn law_v6dest_group_is_xor(from: Seq<char>, key: Seq<char>, i: int, z: usize)
    requires
        0 <= i < address_groups(v6_pieces(from)).len(),
        i < address_groups(v6_pieces(key)).len(),
        z ^ address_groups(v6_pieces(key))[i] == address_groups(v6_pieces(from))[i],
    ensures
        v6_answer(from, key, i) == binary_reading(z),
{
    let f = address_groups(v6_pieces(from))[i];
    let k = address_groups(v6_pieces(key))[i];
    assert(f ^ k == z) by (bit_vector)
        requires
            z ^ k == f,
    ;
}

/// An address XORed with itself answers `0.0.0.0`: every accepted address
/// with at least eight groups is a valid pair with itself, and each of the
/// four shown groups is zero.
pub proof fn law_v6dest_self(a: Seq<char>)
    requires
        groups_ok(v6_pieces(a)),
        address_groups(v6_pieces(a)).len() >= 8,
    ensures
        v6dest_inputs_ok(a, a),
        Seq::new(4, |i: int| v6_answer(a, a, i).unwrap() as int) == seq![0int, 0, 0, 0],
{
    reveal_with_fuel(digits_value, 2);
    assert(decimal(0) == seq!['0']);
    assert(digit_value('0', 2) == Some(0nat));
    assert(parse_unsigned(decimal(0), 2) == Some(0nat));
    assert(binary_reading(0usize) == Some(0nat));
    assert forall|i: int| 0 <= i < 8 implies #[trigger] v6_answer(a, a, i) == Some(0nat) by {
        let g = address_groups(v6_pieces(a))[i];
        assert(g ^ g == 0usize) by (bit_vector);
    }
    assert(Seq::new(4, |i: int| v6_answer(a, a, i).unwrap() as int) =~= seq![0int, 0, 0, 0]);
}

/// A single hexadecimal digit is a group of that digit's value.
pub proof fn law_hex_single_digit(c: char)
    requires
        digit_value(c, 16) is Some,
    ensures
        hex_group_ok(seq![c]),
        hex_group(seq![c]) == digit_value(c, 16).unwrap(),
{
    assert(seq![c][0] == c);
    assert(c != '+');
}

/// Groups are read in base sixteen: one more hexadecimal digit multiplies the
/// value by sixteen and adds the digit, whether or not the piece happens to
/// hold decimal digits only (`10` is sixteen, `2001` is 8193).
pub proof fn law_hex_digit_step(p: Seq<char>, c: char)
    requires
        p.len() > 0,
        p[0] != '+',
        hex_group_ok(p),
        digit_value(c, 16) is Some,
        hex_group_ok(p.push(c)),
    ensures
        hex_group(p.push(c)) == hex_group(p) * 16 + digit_value(c, 16).unwrap(),
{
    let q = p.push(c);
    assert(q[0] == p[0]);
    assert(q.drop_last() == p);
    assert(q.last() == c);
    let vp = digits_value(p, 16).unwrap();
    let d = digit_value(c, 16).unwrap();
    assert(digits_value(q, 16) == Some(vp * 16 + d));
}

/// Pieces written as the decimal texts of `i32` numbers are read back as
/// those numbers, in decimal (`str::parse::<i32>`): `10` is ten.
pub proof fn law_i32_pieces_decimal(ps: Seq<Seq<char>>, ns: Seq<i32>)
    requires
        ps.len() == ns.len(),
        forall|i: int| 0 <= i < ps.len() ==> #[trigger] ps[i] == signed_decimal(ns[i] as int),
    ensures
        i32_pieces_ok(ps),
        i32_values(ps) == ns,
{
    assert forall|i: int| 0 <= i < ps.len() implies parse_signed(ps[i], 10) == Some(ns[i] as int) by {
        lemma_signed_decimal_reads_back(ns[i] as int);
    }
    assert(i32_values(ps) =~= ns);
}

/// The IPv6 key of pieces written as decimal `i32` texts is, piece by piece,
/// the `to` number XOR the `from` number.
pub proof fn law_v6key_xor_of_numbers(
    from: Seq<Seq<char>>,
    to: Seq<Seq<char>>,
    nf: Seq<i32>,
    nt: Seq<i32>,
)
    requires
        from.len() == nf.len(),
        to.len() == nt.len(),
        4 <= to.len() <= from.len(),
        forall|i: int| 0 <= i < from.len() ==> #[trigger] from[i] == signed_decimal(nf[i] as int),
        forall|i: int| 0 <= i < to.len() ==> #[trigger] to[i] == signed_decimal(nt[i] as int),
    ensures
        v6key_ready(from, to),
        v6key_values(from, to) == Seq::new(to.len(), |i: int| (nt[i] ^ nf[i]) as int),
{
    law_i32_pieces_decimal(from, nf);
    law_i32_pieces_decimal(to, nt);
    assert(v6key_values(from, to) =~= Seq::new(to.len(), |i: int| (nt[i] ^ nf[i]) as int));
}

} // verus!
