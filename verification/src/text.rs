//! Small string utilities over character sequences.
use vstd::prelude::*;
use vstd::utf8::{valid_utf8, encode_utf8};

verus! {

/// Appends one character to a string.
/// Trusted: calls `String::push`, which std documents as appending the
/// given char to the end of the string.
#[verifier::external_body]
pub(crate) fn push_char(s: &mut String, c: char)
    ensures
        final(s)@ == old(s)@.push(c),
{
    s.push(c);
}

/// What Rust's `{:?}` formatting of a string gives.
pub uninterp spec fn str_debug(s: Seq<char>) -> Seq<char>;

/// The string as `{:?}` formats it.
/// Trusted: formats with std's `Debug` for `str`, which puts the text in
/// double quotes and escapes characters as `char::escape_debug` does.  Which
/// characters are escaped depends on Unicode tables, so the result is only
/// named, as a function of the text; nothing more is said of it.
#[verifier::external_body]
pub(crate) fn debug_str(s: &str) -> (r: String)
    ensures
        r@ == str_debug(s@),
{
    format!("{:?}", s)
}

/// Each byte read as the character of the same number.
pub open spec fn byte_chars(bs: Seq<u8>) -> Seq<char> {
    Seq::new(bs.len(), |i: int| bs[i] as char)
}

/// Characters numbered below 256 taken back as bytes.
pub open spec fn char_bytes(cs: Seq<char>) -> Seq<u8> {
    Seq::new(cs.len(), |i: int| cs[i] as u8)
}

/// Reading bytes as characters and back gives the bytes.
pub proof fn lemma_char_bytes_byte_chars(bs: Seq<u8>)
    ensures
        char_bytes(byte_chars(bs)) == bs,
{
    assert forall|i: int| 0 <= i < bs.len() implies #[trigger] char_bytes(byte_chars(bs))[i] == bs[i] by {
        let b = bs[i];
        assert((b as char) as u8 == b);
    }
    assert(char_bytes(byte_chars(bs)) =~= bs);
}

/// The bytes of the text, each as the character of the same number.
pub fn byte_chars_of(s: &str) -> (v: Vec<char>)
    ensures
        v@ == byte_chars(encode_utf8(s@)),
{
    let bytes = s.as_bytes();
    let mut v: Vec<char> = Vec::new();
    let mut i: usize = 0;
    while i < bytes.len()
        invariant
            bytes@ == encode_utf8(s@),
            i <= bytes@.len(),
            v@ == byte_chars(bytes@.subrange(0, i as int)),
        decreases bytes@.len() - i,
    {
        let b = bytes[i];
        v.push(b as char);
        i = i + 1;
        assert(v@ =~= byte_chars(bytes@.subrange(0, i as int)));
    }
    assert(bytes@.subrange(0, i as int) =~= bytes@);
    v
}

/// The characters given, each taken as the byte of the same number.
pub fn bytes_of_chars(cs: &[char]) -> (v: Vec<u8>)
    ensures
        v@ == char_bytes(cs@),
{
    let mut v: Vec<u8> = Vec::new();
    let mut i: usize = 0;
    while i < cs.len()
        invariant
            i <= cs@.len(),
            v@ == char_bytes(cs@.subrange(0, i as int)),
        decreases cs@.len() - i,
    {
        let c = cs[i];
        #[verifier::truncate]
        let b = c as u8;
        v.push(b);
        i = i + 1;
        assert(v@ =~= char_bytes(cs@.subrange(0, i as int)));
    }
    assert(cs@.subrange(0, i as int) =~= cs@);
    v
}

/// The text whose UTF-8 encoding is `bytes`, when they are valid UTF-8.
/// Trusted: calls `String::from_utf8`, which std documents as succeeding on
/// valid UTF-8, and whose string, when it succeeds, holds exactly those
/// bytes.
#[verifier::external_body]
pub(crate) fn string_from_utf8(bytes: Vec<u8>) -> (r: Option<String>)
    ensures
        valid_utf8(bytes@) ==> r is Some,
        r matches Some(s) ==> encode_utf8(s@) == bytes@,
{
    String::from_utf8(bytes).ok()
}

/// Builds a `String` holding exactly the given characters.
pub fn string_from_chars(cs: &[char]) -> (s: String)
    ensures
        s@ == cs@,
{
    let mut s = String::new();
    let mut i: usize = 0;
    while i < cs.len()
        invariant
            i <= cs@.len(),
            s@ == cs@.subrange(0, i as int),
        decreases cs@.len() - i,
    {
        push_char(&mut s, cs[i]);
        i = i + 1;
        assert(s@ =~= cs@.subrange(0, i as int));
    }
    assert(cs@.subrange(0, cs@.len() as int) =~= cs@);
    s
}

/// The characters of a string slice, in order.
pub fn chars_of(s: &str) -> (v: Vec<char>)
    ensures
        v@ == s@,
{
    let n = s.unicode_len();
    let mut v: Vec<char> = Vec::new();
    let mut i: usize = 0;
    while i < n
        invariant
            n == s@.len(),
            i <= n,
            v@ == s@.subrange(0, i as int),
        decreases n - i,
    {
        v.push(s.get_char(i));
        i = i + 1;
        assert(v@ =~= s@.subrange(0, i as int));
    }
    assert(s@.subrange(0, n as int) =~= s@);
    v
}

/// Whether two string slices hold the same characters.
pub fn str_eq(a: &str, b: &str) -> (r: bool)
    ensures
        r == (a@ == b@),
{
    let n = a.unicode_len();
    let m = b.unicode_len();
    if n != m {
        return false;
    }
    let mut i: usize = 0;
    while i < n
        invariant
            n == a@.len(),
            m == b@.len(),
            n == m,
            i <= n,
            a@.subrange(0, i as int) == b@.subrange(0, i as int),
        decreases n - i,
    {
        if a.get_char(i) != b.get_char(i) {
            assert(a@[i as int] != b@[i as int]);
            return false;
        }
        i = i + 1;
        assert(a@.subrange(0, i as int) =~= a@.subrange(0, i as int - 1).push(a@[i - 1]));
        assert(b@.subrange(0, i as int) =~= b@.subrange(0, i as int - 1).push(b@[i - 1]));
    }
    assert(a@.subrange(0, n as int) =~= a@);
    assert(b@.subrange(0, n as int) =~= b@);
    true
}

} // verus!

verus! {

/// The parts joined, with `sep` between neighbours.
pub open spec fn seq_join(parts: Seq<Seq<char>>, sep: Seq<char>) -> Seq<char>
    decreases parts.len(),
{
    if parts.len() == 0 {
        Seq::empty()
    } else if parts.len() == 1 {
        parts[0]
    } else {
        seq_join(parts.drop_last(), sep) + sep + parts.last()
    }
}

/// Joins the strings with `sep` between neighbours.
pub fn join_strings(parts: &Vec<String>, sep: &str) -> (s: String)
    ensures
        s@ == seq_join(parts@.map_values(|p: String| p@), sep@),
{
    let ghost views = parts@.map_values(|p: String| p@);
    let mut s = String::new();
    let mut i: usize = 0;
    while i < parts.len()
        invariant
            i <= parts@.len(),
            views == parts@.map_values(|p: String| p@),
            s@ == seq_join(views.take(i as int), sep@),
        decreases parts@.len() - i,
    {
        assert(views.take(i + 1).drop_last() =~= views.take(i as int));
        if i > 0 {
            s.append(sep);
        }
        s.append(parts[i].as_str());
        i = i + 1;
    }
    assert(views.take(parts@.len() as int) =~= views);
    s
}

} // verus!

verus! {

/// Whether the text is a nonempty run of decimal digits.
pub open spec fn all_digits(s: Seq<char>) -> bool {
    s.len() > 0 && forall|i: int| 0 <= i < s.len() ==> '0' <= #[trigger] s[i] && s[i] <= '9'
}

/// The value of a run of decimal digits.
pub open spec fn spec_decimal_value(s: Seq<char>) -> int
    decreases s.len(),
{
    if s.len() == 0 {
        0
    } else {
        spec_decimal_value(s.drop_last()) * 10 + (s.last() as int - '0' as int)
    }
}

pub proof fn lemma_decimal_value_nonneg(s: Seq<char>)
    requires
        forall|i: int| 0 <= i < s.len() ==> '0' <= #[trigger] s[i] && s[i] <= '9',
    ensures
        spec_decimal_value(s) >= 0,
    decreases s.len(),
{
    if s.len() > 0 {
        lemma_decimal_value_nonneg(s.drop_last());
    }
}

pub proof fn lemma_decimal_value_grows(s: Seq<char>)
    requires
        s.len() > 0,
        forall|i: int| 0 <= i < s.len() ==> '0' <= #[trigger] s[i] && s[i] <= '9',
    ensures
        spec_decimal_value(s) >= spec_decimal_value(s.drop_last()),
{
    lemma_decimal_value_nonneg(s.drop_last());
}

/// The value of a run of digits is at least the value of any of its prefixes.
pub proof fn lemma_decimal_value_prefix(s: Seq<char>, k: int)
    requires
        0 <= k <= s.len(),
        forall|i: int| 0 <= i < s.len() ==> '0' <= #[trigger] s[i] && s[i] <= '9',
    ensures
        spec_decimal_value(s) >= spec_decimal_value(s.take(k)),
    decreases s.len(),
{
    if k == s.len() {
        assert(s.take(k) =~= s);
    } else {
        let t = s.drop_last();
        assert(forall|i: int| 0 <= i < t.len() ==> t[i] == s[i]);
        lemma_decimal_value_prefix(t, k);
        assert(t.take(k) =~= s.take(k));
        lemma_decimal_value_grows(s);
    }
}

/// Reads a nonempty run of decimal digits as an `i64`; `None` when the text
/// holds anything else or its value does not fit.
pub fn parse_decimal(s: &str) -> (r: Option<i64>)
    ensures
        r is Some <==> (all_digits(s@) && spec_decimal_value(s@) <= i64::MAX),
        r matches Some(v) ==> v as int == spec_decimal_value(s@),
{
    let cs = chars_of(s);
    if cs.len() == 0 {
        return None;
    }
    let mut v: i64 = 0;
    let mut i: usize = 0;
    while i < cs.len()
        invariant
            cs@ == s@,
            i <= cs@.len(),
            forall|k: int| 0 <= k < i ==> '0' <= #[trigger] cs@[k] && cs@[k] <= '9',
            v as int == spec_decimal_value(cs@.take(i as int)),
            v >= 0,
        decreases cs@.len() - i,
    {
        let c = cs[i];
        assert(cs@.take(i + 1).drop_last() =~= cs@.take(i as int));
        if !('0' <= c && c <= '9') {
            assert(!all_digits(s@));
            return None;
        }
        let d = (c as u32 - '0' as u32) as i64;
        if v > (i64::MAX - d) / 10 {
            proof {
                assert(spec_decimal_value(cs@.take(i + 1)) > i64::MAX);
                if all_digits(s@) {
                    lemma_decimal_value_prefix(cs@, i + 1);
                }
            }
            return None;
        }
        v = v * 10 + d;
        i = i + 1;
    }
    assert(cs@.take(cs@.len() as int) =~= cs@);
    Some(v)
}

} // verus!

verus! {

/// The decimal digit character for `d` (0 to 9).
pub open spec fn digit_char(d: int) -> char {
    if d == 0 { '0' } else if d == 1 { '1' } else if d == 2 { '2' } else if d == 3 { '3' }
    else if d == 4 { '4' } else if d == 5 { '5' } else if d == 6 { '6' } else if d == 7 { '7' }
    else if d == 8 { '8' } else { '9' }
}

/// The decimal text of a natural number, without leading zeros.
pub open spec fn nat_str(n: nat) -> Seq<char>
    decreases n,
{
    if n < 10 {
        seq![digit_char(n as int)]
    } else {
        nat_str(n / 10) + seq![digit_char((n % 10) as int)]
    }
}

/// The decimal text of an integer, with a leading '-' when negative.
pub open spec fn int_str(v: int) -> Seq<char> {
    if v < 0 { seq!['-'] + nat_str((-v) as nat) } else { nat_str(v as nat) }
}

fn digit_to_char(d: u64) -> (c: char)
    requires
        d < 10,
    ensures
        c == digit_char(d as int),
{
    if d == 0 { '0' } else if d == 1 { '1' } else if d == 2 { '2' } else if d == 3 { '3' }
    else if d == 4 { '4' } else if d == 5 { '5' } else if d == 6 { '6' } else if d == 7 { '7' }
    else if d == 8 { '8' } else { '9' }
}

/// The decimal text of a `u64`.
pub fn u64_to_string(n: u64) -> (s: String)
    ensures
        s@ == nat_str(n as nat),
    decreases n,
{
    if n < 10 {
        let mut s = String::new();
        push_char(&mut s, digit_to_char(n));
        assert(s@ =~= nat_str(n as nat));
        s
    } else {
        let mut s = u64_to_string(n / 10);
        push_char(&mut s, digit_to_char(n % 10));
        assert(s@ =~= nat_str(n as nat));
        s
    }
}

/// The decimal text of an `i64`.
pub fn i64_to_string(v: i64) -> (s: String)
    ensures
        s@ == int_str(v as int),
{
    if v < 0 {
        let magnitude: u64 = if v == i64::MIN {
            9223372036854775808u64
        } else {
            (-v) as u64
        };
        let digits = u64_to_string(magnitude);
        let mut s = String::from_str("-");
        s.append(digits.as_str());
        proof {
            reveal_strlit("-");
        }
        assert(s@ =~= int_str(v as int));
        s
    } else {
        u64_to_string(v as u64)
    }
}

/// The decimal text of a `usize`.
pub fn usize_to_string(n: usize) -> (s: String)
    ensures
        s@ == nat_str(n as nat),
{
    u64_to_string(n as u64)
}


/// `a` comes before `b` in dictionary order of their characters (a proper
/// prefix comes first).
pub open spec fn text_less(a: Seq<char>, b: Seq<char>) -> bool
    decreases a.len(),
{
    if a.len() == 0 {
        b.len() > 0
    } else if b.len() == 0 {
        false
    } else if (a[0] as u32) < (b[0] as u32) {
        true
    } else if (a[0] as u32) > (b[0] as u32) {
        false
    } else {
        text_less(a.drop_first(), b.drop_first())
    }
}

/// Dictionary order is transitive.
pub proof fn lemma_text_less_transitive(a: Seq<char>, b: Seq<char>, c: Seq<char>)
    requires
        text_less(a, b),
        text_less(b, c),
    ensures
        text_less(a, c),
    decreases a.len(),
{
    if a.len() > 0 && b.len() > 0 && c.len() > 0 && (a[0] as u32) == (b[0] as u32) && (b[0] as u32) == (c[0] as u32) {
        lemma_text_less_transitive(a.drop_first(), b.drop_first(), c.drop_first());
    }
}

/// Nothing comes before itself in dictionary order.
pub proof fn lemma_text_less_irreflexive(a: Seq<char>)
    ensures
        !text_less(a, a),
    decreases a.len(),
{
    if a.len() > 0 {
        lemma_text_less_irreflexive(a.drop_first());
    }
}

/// Whether `a` comes before `b` in dictionary order.
pub fn str_less(a: &str, b: &str) -> (r: bool)
    ensures
        r == text_less(a@, b@),
{
    let x = chars_of(a);
    let y = chars_of(b);
    let mut i: usize = 0;
    assert(x@.skip(0) =~= x@);
    assert(y@.skip(0) =~= y@);
    while i < x.len() && i < y.len()
        invariant
            i <= x@.len(),
            i <= y@.len(),
            x@ == a@,
            y@ == b@,
            text_less(a@, b@) == text_less(x@.skip(i as int), y@.skip(i as int)),
        decreases x@.len() - i,
    {
        assert(x@.skip(i as int).drop_first() =~= x@.skip(i + 1));
        assert(y@.skip(i as int).drop_first() =~= y@.skip(i + 1));
        assert(x@.skip(i as int)[0] == x@[i as int]);
        assert(y@.skip(i as int)[0] == y@[i as int]);
        let cx: u32 = x[i] as u32;
        let cy: u32 = y[i] as u32;
        if cx < cy {
            return true;
        }
        if cx > cy {
            return false;
        }
        i = i + 1;
    }
    i == x.len() && i < y.len()
}

/// The positions `0..keys.len()` ordered so that their keys come in
/// dictionary order; keys that are equal keep their order.
pub fn sort_indices_by_text(keys: &Vec<String>) -> (order: Vec<usize>)
    ensures
        order@.len() == keys@.len(),
        forall|i: int| 0 <= i < order@.len() ==> #[trigger] order@[i] < keys@.len(),
        forall|i: int, j: int| 0 <= i < j < order@.len() ==> #[trigger] order@[i] != #[trigger] order@[j],
        forall|i: int, j: int|
            0 <= i < j < order@.len() ==> !text_less(
                #[trigger] keys@[order@[j] as int]@,
                #[trigger] keys@[order@[i] as int]@,
            ),
        forall|i: int, j: int|
            0 <= i < j < order@.len() && keys@[order@[i] as int]@ == keys@[order@[j] as int]@ ==> #[trigger] order@[i]
                < #[trigger] order@[j],
{
    let mut order: Vec<usize> = Vec::new();
    let mut k: usize = 0;
    while k < keys.len()
        invariant
            k <= keys@.len(),
            order@.len() == k,
            forall|i: int| 0 <= i < order@.len() ==> #[trigger] order@[i] < k,
            forall|i: int, j: int| 0 <= i < j < order@.len() ==> #[trigger] order@[i] != #[trigger] order@[j],
            forall|i: int, j: int|
                0 <= i < j < order@.len() ==> !text_less(
                    #[trigger] keys@[order@[j] as int]@,
                    #[trigger] keys@[order@[i] as int]@,
                ),
            forall|i: int, j: int|
                0 <= i < j < order@.len() && keys@[order@[i] as int]@ == keys@[order@[j] as int]@ ==> #[trigger] order@[i]
                    < #[trigger] order@[j],
        decreases keys@.len() - k,
    {
        let mut p: usize = 0;
        while p < order.len() && !str_less(keys[k].as_str(), keys[order[p]].as_str())
            invariant
                k < keys@.len(),
                p <= order@.len(),
                order@.len() == k,
                forall|i: int| 0 <= i < order@.len() ==> #[trigger] order@[i] < k,
                forall|i: int| 0 <= i < p ==> !text_less(keys@[k as int]@, #[trigger] keys@[order@[i] as int]@),
            decreases order@.len() - p,
        {
            p = p + 1;
        }
        let ghost before = order@;
        order.insert(p, k);
        proof {
            assert(order@ == before.insert(p as int, k));
            assert forall|i: int, j: int| 0 <= i < j < order@.len() implies !text_less(
                #[trigger] keys@[order@[j] as int]@,
                #[trigger] keys@[order@[i] as int]@,
            ) by {
                if j < p {
                    assert(order@[i] == before[i] && order@[j] == before[j]);
                } else if j == p {
                    assert(order@[i] == before[i]);
                    assert(order@[j] == k);
                } else if i == p {
                    assert(order@[i] == k);
                    let x = keys@[before[j - 1] as int]@;
                    let xp = keys@[before[p as int] as int]@;
                    let nk = keys@[k as int]@;
                    assert(order@[j] == before[j - 1]);
                    assert(text_less(nk, xp));
                    if j - 1 > p {
                        assert(!text_less(x, xp));
                    }
                    if text_less(x, nk) {
                        lemma_text_less_transitive(x, nk, xp);
                        if j - 1 == p {
                            lemma_text_less_irreflexive(x);
                        }
                    }
                } else if i < p {
                    assert(order@[i] == before[i] && order@[j] == before[j - 1]);
                } else {
                    assert(order@[i] == before[i - 1] && order@[j] == before[j - 1]);
                }
            }
            assert forall|i: int, j: int| 0 <= i < j < order@.len() implies #[trigger] order@[i] != #[trigger] order@[j] by {
                if i < p && j < p {
                    assert(order@[i] == before[i] && order@[j] == before[j]);
                } else if i < p && j == p {
                    assert(order@[i] == before[i]);
                } else if i < p {
                    assert(order@[i] == before[i] && order@[j] == before[j - 1]);
                } else if i == p {
                    assert(order@[j] == before[j - 1]);
                } else {
                    assert(order@[i] == before[i - 1] && order@[j] == before[j - 1]);
                }
            }
            assert forall|i: int, j: int|
                0 <= i < j < order@.len() && keys@[order@[i] as int]@ == keys@[order@[j] as int]@ implies #[trigger] order@[i]
                    < #[trigger] order@[j] by {
                if i < p && j < p {
                    assert(order@[i] == before[i] && order@[j] == before[j]);
                } else if i < p && j == p {
                    assert(order@[i] == before[i]);
                    assert(order@[j] == k);
                } else if i < p {
                    assert(order@[i] == before[i] && order@[j] == before[j - 1]);
                } else if i == p {
                    assert(order@[i] == k);
                    assert(order@[j] == before[j - 1]);
                    let x = keys@[before[j - 1] as int]@;
                    let xp = keys@[before[p as int] as int]@;
                    let nk = keys@[k as int]@;
                    assert(text_less(nk, xp));
                    if j - 1 > p {
                        assert(!text_less(x, xp));
                    }
                    assert(x == nk);
                    assert(false);
                } else {
                    assert(order@[i] == before[i - 1] && order@[j] == before[j - 1]);
                }
            }
            assert forall|i: int| 0 <= i < order@.len() implies #[trigger] order@[i] < k + 1 by {
                if i < p {
                    assert(order@[i] == before[i]);
                } else if i > p {
                    assert(order@[i] == before[i - 1]);
                }
            }
        }
        k = k + 1;
    }
    order
}

/// Whether `s` starts with `p`.
pub fn has_prefix(s: &str, p: &str) -> (r: bool)
    ensures
        r == p@.is_prefix_of(s@),
{
    let n = p.unicode_len();
    let m = s.unicode_len();
    if n > m {
        return false;
    }
    let mut i: usize = 0;
    while i < n
        invariant
            n == p@.len(),
            m == s@.len(),
            n <= m,
            i <= n,
            forall|k: int| 0 <= k < i ==> p@[k] == s@[k],
        decreases n - i,
    {
        if p.get_char(i) != s.get_char(i) {
            return false;
        }
        i = i + 1;
    }
    true
}

} // verus!
