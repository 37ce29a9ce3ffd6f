//! IPv4 addresses in text: the check that the HTTP API applies to the
//! addresses it is given, and the dotted-decimal parsing and formatting
//! that the user-space loader and collector apply.

use vstd::prelude::*;

verus! {

/// An ASCII decimal digit.
pub open spec fn is_digit(c: char) -> bool {
    '0' <= c && c <= '9'
}

/// The value of an ASCII decimal digit.
pub open spec fn digit_value(c: char) -> int {
    c as int - '0' as int
}

/// The ASCII digit of a value below ten.
pub open spec fn digit_char(d: int) -> char {
    if d == 0 {
        '0'
    } else if d == 1 {
        '1'
    } else if d == 2 {
        '2'
    } else if d == 3 {
        '3'
    } else if d == 4 {
        '4'
    } else if d == 5 {
        '5'
    } else if d == 6 {
        '6'
    } else if d == 7 {
        '7'
    } else if d == 8 {
        '8'
    } else {
        '9'
    }
}

/// The fields of `s` between its dots, in order: one more field than
/// there are dots, empty fields included.
pub open spec fn split_dots(s: Seq<char>) -> Seq<Seq<char>>
    decreases s.len(),
{
    if s.len() == 0 {
        seq![Seq::<char>::empty()]
    } else {
        let f = split_dots(s.drop_last());
        if s.last() == '.' {
            f.push(Seq::<char>::empty())
        } else {
            f.update(f.len() - 1, f.last().push(s.last()))
        }
    }
}

/// One alternative of `(?:25[0-5]|2[0-4][0-9]|[01]?[0-9][0-9]?)`.
pub open spec fn is_octet_pattern(t: Seq<char>) -> bool {
    ||| t.len() == 3 && t[0] == '2' && t[1] == '5' && '0' <= t[2] && t[2] <= '5'
    ||| t.len() == 3 && t[0] == '2' && '0' <= t[1] && t[1] <= '4' && is_digit(t[2])
    ||| t.len() == 3 && (t[0] == '0' || t[0] == '1') && is_digit(t[1]) && is_digit(t[2])
    ||| t.len() == 2 && is_digit(t[0]) && is_digit(t[1])
    ||| t.len() == 1 && is_digit(t[0])
}

/// `s` matches, as a whole, the pattern [`IPV4_PATTERN`]: four dot-separated
/// fields, each an octet alternative (which holds no dot).
pub open spec fn is_dotted_quad(s: Seq<char>) -> bool {
    let f = split_dots(s);
    &&& f.len() == 4
    &&& forall|i: int| 0 <= i < 4 ==> #[trigger] is_octet_pattern(f[i])
}

/// The pattern that the HTTP API requires of an address it is given.
pub const IPV4_PATTERN: &'static str =
    r"^(?:(?:25[0-5]|2[0-4][0-9]|[01]?[0-9][0-9]?)\.){3}(?:25[0-5]|2[0-4][0-9]|[01]?[0-9][0-9]?)$";

/// Calls `regex::Regex::new` on the pattern and `regex::Regex::is_match` on
/// the haystack. Claimed: with the pattern [`IPV4_PATTERN`] (which compiles,
/// so the `unwrap` does not panic) the result is whether the whole haystack
/// is four dot-separated octet alternatives, `^` and `$` anchoring at the
/// ends of the haystack and `[0-9]` meaning the ASCII digits.
#[verifier::external_body]
fn regex_is_match(pattern: &str, haystack: &str) -> (r: bool)
    requires
        pattern@ == IPV4_PATTERN@,
    ensures
        r == is_dotted_quad(haystack@),
{
    regex::Regex::new(pattern).unwrap().is_match(haystack)
}

/// Whether `s` is an IPv4 address in the form the HTTP API accepts.
pub fn is_ipv4_text(s: &str) -> (r: bool)
    ensures
        r == is_dotted_quad(s@),
{
    regex_is_match(IPV4_PATTERN, s)
}

/// The value of a sequence of decimal digits, most significant first.
pub open spec fn decimal_value(t: Seq<char>) -> int
    decreases t.len(),
{
    if t.len() == 0 {
        0
    } else {
        decimal_value(t.drop_last()) * 10 + digit_value(t.last())
    }
}

/// A field that the standard library's IPv4 parser takes as an octet: one
/// to three decimal digits, no leading zero unless the field is `0`, and a
/// value of at most 255.
pub open spec fn is_std_octet(t: Seq<char>) -> bool {
    &&& 1 <= t.len() <= 3
    &&& forall|i: int| 0 <= i < t.len() ==> #[trigger] is_digit(t[i])
    &&& (t.len() == 1 || t[0] != '0')
    &&& decimal_value(t) <= 255
}

/// The address with the four given octets, the first most significant.
pub open spec fn ipv4_from_octets(a: int, b: int, c: int, d: int) -> u32 {
    (a * 0x100_0000 + b * 0x1_0000 + c * 0x100 + d) as u32
}

/// The address that the standard library's `Ipv4Addr::from_str` reads from
/// `s`, as a `u32` (first octet most significant), if it reads one: exactly
/// four dot-separated octet fields and nothing else.
pub open spec fn std_ipv4_addr(s: Seq<char>) -> Option<u32> {
    let f = split_dots(s);
    if f.len() == 4 && is_std_octet(f[0]) && is_std_octet(f[1]) && is_std_octet(f[2])
        && is_std_octet(f[3]) {
        Some(
            ipv4_from_octets(
                decimal_value(f[0]),
                decimal_value(f[1]),
                decimal_value(f[2]),
                decimal_value(f[3]),
            ),
        )
    } else {
        None
    }
}

/// The decimal text of a value below 256, without leading zeros.
pub open spec fn decimal_text(n: int) -> Seq<char> {
    if n < 10 {
        seq![digit_char(n)]
    } else if n < 100 {
        seq![digit_char(n / 10), digit_char(n % 10)]
    } else {
        seq![digit_char(n / 100), digit_char((n / 10) % 10), digit_char(n % 10)]
    }
}

/// The dotted-decimal text of an address, as `Ipv4Addr`'s `Display` writes it.
pub open spec fn dotted_text(a: u32) -> Seq<char> {
    decimal_text((a / 0x100_0000) as int) + seq!['.'] + decimal_text(((a / 0x1_0000) % 0x100) as int)
        + seq!['.'] + decimal_text(((a / 0x100) % 0x100) as int) + seq!['.'] + decimal_text(
        (a % 0x100) as int,
    )
}

/// The characters of `s`, in order.
fn chars_of(s: &str) -> (r: Vec<char>)
    ensures
        r@ == s@,
{
    let n = s.unicode_len();
    let mut r: Vec<char> = Vec::new();
    for i in 0..n
        invariant
            n == s@.len(),
            r@ == s@.take(i as int),
    {
        r.push(s.get_char(i));
        assert(r@ =~= s@.take(i + 1));
    }
    assert(r@ =~= s@);
    r
}

/// The views of a vector of character vectors.
pub open spec fn fields_view(v: Seq<Vec<char>>) -> Seq<Seq<char>> {
    v.map_values(|f: Vec<char>| f@)
}

/// Splits `chars` at its dots.
fn split_fields(chars: &Vec<char>) -> (r: Vec<Vec<char>>)
    ensures
        fields_view(r@) == split_dots(chars@),
{
    let n = chars.len();
    let mut fields: Vec<Vec<char>> = Vec::new();
    let mut cur: Vec<char> = Vec::new();
    assert(chars@.take(0) =~= Seq::<char>::empty());
    assert(fields_view(fields@).push(cur@) =~= split_dots(chars@.take(0)));
    for i in 0..n
        invariant
            n == chars@.len(),
            fields_view(fields@).push(cur@) == split_dots(chars@.take(i as int)),
    {
        let c = chars[i];
        assert(chars@.take(i + 1).drop_last() =~= chars@.take(i as int));
        if c == '.' {
            let ghost before = fields_view(fields@);
            fields.push(cur);
            cur = Vec::new();
            assert(fields_view(fields@) =~= before.push(fields@.last()@));
            assert(fields_view(fields@).push(cur@) =~= split_dots(chars@.take(i + 1)));
        } else {
            let ghost prev = cur@;
            cur.push(c);
            assert(fields_view(fields@).push(cur@) =~= fields_view(fields@).push(prev).update(
                fields@.len() as int,
                prev.push(c),
            ));
        }
    }
    let ghost before = fields_view(fields@);
    fields.push(cur);
    assert(fields_view(fields@) =~= before.push(fields@.last()@));
    assert(chars@.take(n as int) =~= chars@);
    fields
}

/// The octet that the standard library reads from one field, if any.
fn std_octet(field: &Vec<char>) -> (r: Option<u8>)
    ensures
        r == (if is_std_octet(field@) {
            Some(decimal_value(field@) as u8)
        } else {
            None::<u8>
        }),
        r matches Some(v) ==> v as int == decimal_value(field@),
{
    let len = field.len();
    if len == 0 || len > 3 {
        return None;
    }
    let mut value: u32 = 0;
    let mut i: usize = 0;
    assert(field@.take(0) =~= Seq::<char>::empty());
    while i < len
        invariant
            1 <= len <= 3,
            len == field@.len(),
            i <= len,
            value == decimal_value(field@.take(i as int)),
            i == 0 ==> value == 0,
            i == 1 ==> value < 10,
            i == 2 ==> value < 100,
            value < 1000,
            forall|j: int| 0 <= j < i ==> #[trigger] is_digit(field@[j]),
        decreases len - i,
    {
        let c = field[i];
        if !('0' <= c && c <= '9') {
            assert(!is_digit(field@[i as int]));
            return None;
        }
        assert(field@.take(i + 1).drop_last() =~= field@.take(i as int));
        value = value * 10 + ((c as u32) - ('0' as u32));
        i = i + 1;
    }
    assert(field@.take(len as int) =~= field@);
    if len > 1 && field[0] == '0' {
        return None;
    }
    if value > 255 {
        return None;
    }
    Some(value as u8)
}

/// Reads an IPv4 address in dotted-decimal form, as `Ipv4Addr::from_str`
/// does, giving the address as a `u32` with the first octet most significant.
pub fn parse_ipv4(s: &str) -> (r: Option<u32>)
    ensures
        r == std_ipv4_addr(s@),
{
    let chars = chars_of(s);
    let fields = split_fields(&chars);
    if fields.len() != 4 {
        return None;
    }
    assert(fields_view(fields@)[0] == fields@[0]@);
    assert(fields_view(fields@)[1] == fields@[1]@);
    assert(fields_view(fields@)[2] == fields@[2]@);
    assert(fields_view(fields@)[3] == fields@[3]@);
    let a = match std_octet(&fields[0]) {
        Some(v) => v,
        None => return None,
    };
    let b = match std_octet(&fields[1]) {
        Some(v) => v,
        None => return None,
    };
    let c = match std_octet(&fields[2]) {
        Some(v) => v,
        None => return None,
    };
    let d = match std_octet(&fields[3]) {
        Some(v) => v,
        None => return None,
    };
    let r = (a as u32) * 0x100_0000 + (b as u32) * 0x1_0000 + (c as u32) * 0x100 + (d as u32);
    assert(split_dots(s@) == fields_view(fields@));
    assert(r == ipv4_from_octets(
        decimal_value(fields@[0]@),
        decimal_value(fields@[1]@),
        decimal_value(fields@[2]@),
        decimal_value(fields@[3]@),
    ));
    Some(r)
}

/// Appends the digit `d` to `out`.
fn push_digit(out: &mut String, d: u32)
    requires
        d < 10,
    ensures
        final(out)@ == old(out)@.push(digit_char(d as int)),
{
    let text = match d {
        0 => "0",
        1 => "1",
        2 => "2",
        3 => "3",
        4 => "4",
        5 => "5",
        6 => "6",
        7 => "7",
        8 => "8",
        _ => "9",
    };
    proof {
        reveal_strlit("0");
        reveal_strlit("1");
        reveal_strlit("2");
        reveal_strlit("3");
        reveal_strlit("4");
        reveal_strlit("5");
        reveal_strlit("6");
        reveal_strlit("7");
        reveal_strlit("8");
        reveal_strlit("9");
    }
    out.append(text);
    assert(out@ =~= old(out)@.push(digit_char(d as int)));
}

/// Appends the decimal text of `n` to `out`.
fn push_decimal(out: &mut String, n: u32)
    requires
        n < 256,
    ensures
        final(out)@ == old(out)@ + decimal_text(n as int),
{
    if n >= 100 {
        push_digit(out, n / 100);
        push_digit(out, (n / 10) % 10);
        push_digit(out, n % 10);
    } else if n >= 10 {
        push_digit(out, n / 10);
        push_digit(out, n % 10);
    } else {
        push_digit(out, n);
    }
    assert(out@ =~= old(out)@ + decimal_text(n as int));
}

/// Appends a dot to `out`.
fn push_dot(out: &mut String)
    ensures
        final(out)@ == old(out)@.push('.'),
{
    proof {
        reveal_strlit(".");
    }
    out.append(".");
    assert(out@ =~= old(out)@.push('.'));
}

/// The dotted-decimal text of an address, as `Ipv4Addr`'s `Display` writes it.
pub fn format_ipv4(a: u32) -> (r: String)
    ensures
        r@ == dotted_text(a),
{
    let mut out = String::new();
    push_decimal(&mut out, a / 0x100_0000);
    push_dot(&mut out);
    push_decimal(&mut out, (a / 0x1_0000) % 0x100);
    push_dot(&mut out);
    push_decimal(&mut out, (a / 0x100) % 0x100);
    push_dot(&mut out);
    push_decimal(&mut out, a % 0x100);
    assert(out@ =~= dotted_text(a));
    out
}

/// Every split has at least one field.
proof fn lemma_split_nonempty(s: Seq<char>)
    ensures
        split_dots(s).len() >= 1,
    decreases s.len(),
{
    if s.len() > 0 {
        lemma_split_nonempty(s.drop_last());
    }
}

/// A text without dots is a single field.
proof fn lemma_split_no_dot(t: Seq<char>)
    requires
        forall|i: int| 0 <= i < t.len() ==> t[i] != '.',
    ensures
        split_dots(t) == seq![t],
    decreases t.len(),
{
    if t.len() > 0 {
        lemma_split_no_dot(t.drop_last());
        assert(t.drop_last().push(t.last()) =~= t);
        assert(split_dots(t) =~= seq![t]);
    } else {
        assert(t =~= Seq::<char>::empty());
    }
}

/// The fields of `x.y` are those of `x` followed by those of `y`.
proof fn lemma_split_concat(x: Seq<char>, y: Seq<char>)
    ensures
        split_dots(x + seq!['.'] + y) == split_dots(x) + split_dots(y),
    decreases y.len(),
{
    let z = x + seq!['.'] + y;
    if y.len() == 0 {
        assert(z.drop_last() =~= x);
        assert(split_dots(z) =~= split_dots(x) + split_dots(y));
    } else {
        lemma_split_concat(x, y.drop_last());
        lemma_split_nonempty(y.drop_last());
        assert(z.drop_last() =~= x + seq!['.'] + y.drop_last());
        assert(split_dots(z) =~= split_dots(x) + split_dots(y));
    }
}

/// The value of a field of one to three characters, digit by digit.
proof fn lemma_decimal_value_short(t: Seq<char>)
    requires
        1 <= t.len() <= 3,
    ensures
        t.len() == 1 ==> decimal_value(t) == digit_value(t[0]),
        t.len() == 2 ==> decimal_value(t) == digit_value(t[0]) * 10 + digit_value(t[1]),
        t.len() == 3 ==> decimal_value(t) == digit_value(t[0]) * 100 + digit_value(t[1]) * 10
            + digit_value(t[2]),
{
    let s1 = seq![t[0]];
    assert(s1.drop_last() =~= Seq::<char>::empty());
    assert(decimal_value(s1.drop_last()) == 0);
    assert(decimal_value(s1) == digit_value(t[0]));
    if t.len() == 1 {
        assert(t =~= s1);
    } else {
        let s2 = seq![t[0], t[1]];
        assert(s2.drop_last() =~= s1);
        assert(decimal_value(s2) == digit_value(t[0]) * 10 + digit_value(t[1]));
        if t.len() == 2 {
            assert(t =~= s2);
        } else {
            assert(t.drop_last() =~= s2);
        }
    }
}

/// What a digit character is.
proof fn lemma_digit_char(d: int)
    requires
        0 <= d < 10,
    ensures
        is_digit(digit_char(d)),
        digit_value(digit_char(d)) == d,
        digit_char(d) != '.',
{
}

/// The decimal text of an octet value is a standard octet field of that value.
proof fn lemma_decimal_text(n: int)
    requires
        0 <= n < 256,
    ensures
        is_std_octet(decimal_text(n)),
        decimal_value(decimal_text(n)) == n,
        forall|i: int| 0 <= i < decimal_text(n).len() ==> decimal_text(n)[i] != '.',
{
    let t = decimal_text(n);
    lemma_decimal_value_short(t);
    if n < 10 {
        lemma_digit_char(n);
    } else if n < 100 {
        lemma_digit_char(n / 10);
        lemma_digit_char(n % 10);
    } else {
        lemma_digit_char(n / 100);
        lemma_digit_char((n / 10) % 10);
        lemma_digit_char(n % 10);
    }
    assert(forall|i: int| 0 <= i < t.len() ==> #[trigger] is_digit(t[i]));
}

/// Four dot-free texts joined by dots split back into those four.
proof fn lemma_split_four(d0: Seq<char>, d1: Seq<char>, d2: Seq<char>, d3: Seq<char>)
    requires
        forall|i: int| 0 <= i < d0.len() ==> d0[i] != '.',
        forall|i: int| 0 <= i < d1.len() ==> d1[i] != '.',
        forall|i: int| 0 <= i < d2.len() ==> d2[i] != '.',
        forall|i: int| 0 <= i < d3.len() ==> d3[i] != '.',
    ensures
        split_dots(d0 + seq!['.'] + d1 + seq!['.'] + d2 + seq!['.'] + d3) == seq![d0, d1, d2, d3],
{
    lemma_split_no_dot(d0);
    lemma_split_no_dot(d1);
    lemma_split_no_dot(d2);
    lemma_split_no_dot(d3);
    lemma_split_concat(d0, d1);
    lemma_split_concat(d0 + seq!['.'] + d1, d2);
    lemma_split_concat(d0 + seq!['.'] + d1 + seq!['.'] + d2, d3);
    assert(seq![d0] + seq![d1] + seq![d2] + seq![d3] =~= seq![d0, d1, d2, d3]);
}

/// The four octets of an address put back together give the address.
proof fn lemma_octets_recombine(a: u32)
    ensures
        ipv4_from_octets(
            (a / 0x100_0000) as int,
            ((a / 0x1_0000) % 0x100) as int,
            ((a / 0x100) % 0x100) as int,
            (a % 0x100) as int,
        ) == a,
{
}

/// Reading back the dotted-decimal text of an address gives the address:
/// `parse_ipv4(format_ipv4(a)) == Some(a)`.
pub proof fn lemma_parse_format(a: u32)
    ensures
        std_ipv4_addr(dotted_text(a)) == Some(a),
{
    let o0 = (a / 0x100_0000) as int;
    let o1 = ((a / 0x1_0000) % 0x100) as int;
    let o2 = ((a / 0x100) % 0x100) as int;
    let o3 = (a % 0x100) as int;
    lemma_decimal_text(o0);
    lemma_decimal_text(o1);
    lemma_decimal_text(o2);
    lemma_decimal_text(o3);
    lemma_split_four(decimal_text(o0), decimal_text(o1), decimal_text(o2), decimal_text(o3));
    lemma_octets_recombine(a);
}

/// A standard octet field is one of the octet alternatives of the pattern.
proof fn lemma_std_octet_matches_pattern(t: Seq<char>)
    requires
        is_std_octet(t),
    ensures
        is_octet_pattern(t),
{
    assert(is_digit(t[0]));
    if t.len() == 1 {
    } else if t.len() == 2 {
        assert(is_digit(t[1]));
    } else {
        assert(is_digit(t[1]));
        assert(is_digit(t[2]));
        lemma_decimal_value_short(t);
    }
}

/// Every address text that the standard library reads also matches the
/// pattern that the HTTP API checks, so whatever the loader can parse the
/// API would have accepted. (The converse fails: `01.2.3.4` matches the
/// pattern but is refused by the parser.)
pub proof fn lemma_std_parse_implies_pattern(s: Seq<char>)
    requires
        std_ipv4_addr(s) is Some,
    ensures
        is_dotted_quad(s),
{
    let f = split_dots(s);
    lemma_std_octet_matches_pattern(f[0]);
    lemma_std_octet_matches_pattern(f[1]);
    lemma_std_octet_matches_pattern(f[2]);
    lemma_std_octet_matches_pattern(f[3]);
    assert forall|i: int| 0 <= i < 4 implies #[trigger] is_octet_pattern(f[i]) by {
        if i == 0 {
        } else if i == 1 {
        } else if i == 2 {
        } else {
        }
    }
}

/// The fields of a split joined again with dots.
pub open spec fn join_dots(f: Seq<Seq<char>>) -> Seq<char>
    decreases f.len(),
{
    if f.len() == 0 {
        Seq::<char>::empty()
    } else if f.len() == 1 {
        f[0]
    } else {
        join_dots(f.drop_last()) + seq!['.'] + f.last()
    }
}

/// Joining the fields of a text with dots gives the text back.
proof fn lemma_join_split(s: Seq<char>)
    ensures
        join_dots(split_dots(s)) == s,
    decreases s.len(),
{
    if s.len() == 0 {
        assert(join_dots(split_dots(s)) =~= s);
    } else {
        let pre = s.drop_last();
        let c = s.last();
        lemma_join_split(pre);
        lemma_split_nonempty(pre);
        let f = split_dots(pre);
        if c == '.' {
            assert(f.push(Seq::<char>::empty()).drop_last() =~= f);
            assert(join_dots(split_dots(s)) =~= s);
        } else {
            let g = f.update(f.len() - 1, f.last().push(c));
            assert(s =~= pre.push(c));
            if f.len() == 1 {
                assert(join_dots(f) == f[0]);
                assert(g.len() == 1);
                assert(join_dots(g) == g[0]);
                assert(g[0] =~= f[0].push(c));
                assert(join_dots(g) =~= s);
            } else {
                assert(g.drop_last() =~= f.drop_last());
                assert(join_dots(g) =~= join_dots(f.drop_last()) + seq!['.'] + f.last().push(c));
                assert(join_dots(g) =~= s);
            }
        }
    }
}

/// An octet alternative is one to three ASCII digits.
proof fn lemma_octet_pattern_digits(t: Seq<char>)
    requires
        is_octet_pattern(t),
    ensures
        1 <= t.len() <= 3,
        forall|i: int| 0 <= i < t.len() ==> '0' <= #[trigger] t[i] && t[i] <= '9',
{
}

/// A text matching the pattern is four groups of one to three ASCII digits
/// separated by three dots, with nothing else in it.
pub proof fn lemma_dotted_quad_shape(s: Seq<char>)
    requires
        is_dotted_quad(s),
    ensures
        exists|d1: int, d2: int, d3: int|
            {
                &&& 1 <= d1 <= 3
                &&& d1 + 2 <= d2 <= d1 + 4
                &&& d2 + 2 <= d3 <= d2 + 4
                &&& d3 + 2 <= s.len() <= d3 + 4
                &&& s[d1] == '.' && s[d2] == '.' && s[d3] == '.'
                &&& forall|i: int|
                    0 <= i < s.len() && i != d1 && i != d2 && i != d3 ==> '0' <= #[trigger] s[i]
                        && s[i] <= '9'
            },
{
    let f = split_dots(s);
    assert(is_octet_pattern(f[0]));
    assert(is_octet_pattern(f[1]));
    assert(is_octet_pattern(f[2]));
    assert(is_octet_pattern(f[3]));
    lemma_octet_pattern_digits(f[0]);
    lemma_octet_pattern_digits(f[1]);
    lemma_octet_pattern_digits(f[2]);
    lemma_octet_pattern_digits(f[3]);
    lemma_join_split(s);
    let f2 = f.drop_last();
    let f1 = f2.drop_last();
    let f0 = f1.drop_last();
    assert(f0 =~= seq![f[0]]);
    assert(f1 =~= seq![f[0], f[1]]);
    assert(f2 =~= seq![f[0], f[1], f[2]]);
    assert(join_dots(f0) == f[0]);
    assert(join_dots(f1) == f[0] + seq!['.'] + f[1]);
    assert(join_dots(f2) == f[0] + seq!['.'] + f[1] + seq!['.'] + f[2]);
    assert(s == f[0] + seq!['.'] + f[1] + seq!['.'] + f[2] + seq!['.'] + f[3]);
    let d1 = f[0].len() as int;
    let d2 = d1 + 1 + f[1].len();
    let d3 = d2 + 1 + f[2].len();
    assert forall|i: int| 0 <= i < s.len() && i != d1 && i != d2 && i != d3 implies '0'
        <= #[trigger] s[i] && s[i] <= '9' by {
        if i < d1 {
            assert(s[i] == f[0][i]);
        } else if i < d2 {
            assert(s[i] == f[1][i - d1 - 1]);
        } else if i < d3 {
            assert(s[i] == f[2][i - d2 - 1]);
        } else {
            assert(s[i] == f[3][i - d3 - 1]);
        }
    }
    assert(s[d1] == '.' && s[d2] == '.' && s[d3] == '.');
}

} // verus!
