//! Character-level vocabulary shared by every module that reads text: Unicode whitespace,
//! UTF-8 widths and the byte offset of a character position.

use vstd::prelude::*;
use vstd::utf8::*;

verus! {

/// Unicode `White_Space`, the set that `char::is_whitespace` documents.
pub open spec fn is_ws(c: char) -> bool {
    let u = c as u32;
    ||| 0x9 <= u <= 0xd
    ||| u == 0x20
    ||| u == 0x85
    ||| u == 0xa0
    ||| u == 0x1680
    ||| 0x2000 <= u <= 0x200a
    ||| u == 0x2028
    ||| u == 0x2029
    ||| u == 0x202f
    ||| u == 0x205f
    ||| u == 0x3000
}

/// `char::is_whitespace`.
pub fn is_whitespace(c: char) -> (r: bool)
    ensures
        r == is_ws(c),
{
    let u = c as u32;
    (0x9 <= u && u <= 0xd) || u == 0x20 || u == 0x85 || u == 0xa0 || u == 0x1680 || (0x2000 <= u
        && u <= 0x200a) || u == 0x2028 || u == 0x2029 || u == 0x202f || u == 0x205f || u == 0x3000
}

/// Number of UTF-8 bytes of the first `k` characters of `s`.
pub open spec fn byte_pos(s: Seq<char>, k: int) -> nat {
    encode_utf8(s.take(k)).len()
}

/// Number of UTF-8 bytes one character takes.
pub open spec fn width(c: char) -> nat {
    encode_scalar(c as u32).len()
}

/// `char::len_utf8`.
pub fn char_width(c: char) -> (w: usize)
    ensures
        w == width(c),
        1 <= w <= 4,
{
    let u = c as u32;
    if u <= 0x7f {
        1
    } else if u <= 0x7ff {
        2
    } else if u <= 0xffff {
        3
    } else {
        4
    }
}

pub proof fn lemma_encode_concat(a: Seq<char>, b: Seq<char>)
    ensures
        encode_utf8(a + b) == encode_utf8(a) + encode_utf8(b),
    decreases a.len(),
{
    if a.len() == 0 {
        assert(a + b =~= b);
        assert(encode_utf8(a) =~= Seq::<u8>::empty());
        assert(encode_utf8(a) + encode_utf8(b) =~= encode_utf8(b));
    } else {
        assert((a + b)[0] == a[0]);
        assert((a + b).drop_first() =~= a.drop_first() + b);
        lemma_encode_concat(a.drop_first(), b);
        assert(encode_utf8(a + b) =~= encode_scalar(a[0] as u32) + encode_utf8(a.drop_first() + b));
        assert(encode_utf8(a) + encode_utf8(b) =~= encode_scalar(a[0] as u32) + (encode_utf8(
            a.drop_first(),
        ) + encode_utf8(b)));
    }
}

pub proof fn lemma_width_bounds(c: char)
    ensures
        1 <= width(c) <= 4,
{
}

/// One more character adds exactly its width.
pub proof fn lemma_byte_pos_step(s: Seq<char>, k: int)
    requires
        0 <= k < s.len(),
    ensures
        byte_pos(s, k + 1) == byte_pos(s, k) + width(s[k]),
{
    assert(s.take(k + 1) =~= s.take(k) + seq![s[k]]);
    lemma_encode_concat(s.take(k), seq![s[k]]);
    let one = seq![s[k]];
    assert(one.drop_first() =~= Seq::<char>::empty());
    assert(encode_utf8(one) =~= encode_scalar(s[k] as u32) + encode_utf8(Seq::<char>::empty()));
    assert(encode_utf8(Seq::<char>::empty()) =~= Seq::<u8>::empty());
}

/// Byte offsets grow strictly with character positions.
pub proof fn lemma_byte_pos_strict(s: Seq<char>, j: int, k: int)
    requires
        0 <= j < k <= s.len(),
    ensures
        byte_pos(s, j) < byte_pos(s, k),
    decreases k - j,
{
    lemma_byte_pos_step(s, k - 1);
    lemma_width_bounds(s[k - 1]);
    if j < k - 1 {
        lemma_byte_pos_strict(s, j, k - 1);
    }
}

pub proof fn lemma_byte_pos_mono(s: Seq<char>, j: int, k: int)
    requires
        0 <= j <= k <= s.len(),
    ensures
        byte_pos(s, j) <= byte_pos(s, k),
{
    if j < k {
        lemma_byte_pos_strict(s, j, k);
    }
}

pub proof fn lemma_byte_pos_all(s: Seq<char>)
    ensures
        byte_pos(s, s.len() as int) == encode_utf8(s).len(),
{
    assert(s.take(s.len() as int) =~= s);
}

/// The characters of a string slice, in order.
pub fn chars_of(text: &str) -> (v: Vec<char>)
    ensures
        v@ == text@,
{
    let n = text.unicode_len();
    let mut v: Vec<char> = Vec::new();
    let mut i: usize = 0;
    while i < n
        invariant
            n == text@.len(),
            i <= n,
            v@ == text@.take(i as int),
        decreases n - i,
    {
        let c = text.get_char(i);
        v.push(c);
        i = i + 1;
        assert(v@ =~= text@.take(i as int));
    }
    assert(text@.take(n as int) =~= text@);
    v
}

/// Byte offset of every character position `0..=len`, the way `char_indices` would report them.
pub fn byte_offsets(text: &str, chars: &Vec<char>) -> (v: Vec<usize>)
    requires
        chars@ == text@,
        encode_utf8(text@).len() <= usize::MAX,
    ensures
        v.len() == chars.len() + 1,
        forall|k: int| 0 <= k <= chars.len() ==> #[trigger] v[k] == byte_pos(chars@, k),
{
    let mut v: Vec<usize> = Vec::new();
    v.push(0);
    assert(chars@.take(0) =~= Seq::<char>::empty());
    let mut at: usize = 0;
    let mut i: usize = 0;
    while i < chars.len()
        invariant
            encode_utf8(chars@).len() <= usize::MAX,
            chars@ == text@,
            i <= chars.len(),
            v.len() == i + 1,
            at == byte_pos(chars@, i as int),
            forall|k: int| 0 <= k <= i ==> #[trigger] v[k] == byte_pos(chars@, k),
        decreases chars.len() - i,
    {
        proof {
            lemma_byte_pos_step(chars@, i as int);
            lemma_byte_pos_mono(chars@, i + 1, chars.len() as int);
            lemma_byte_pos_all(chars@);
        }
        let w = char_width(chars[i]);
        at = at + w;
        v.push(at);
        i = i + 1;
    }
    v
}

/// Whether two string slices hold the same characters.
pub fn str_eq(a: &str, b: &str) -> (r: bool)
    ensures
        r == (a@ == b@),
{
    let n = a.unicode_len();
    let m = b.unicode_len();
    if n != m {
        return false;
    }
    let mut i: usize = 0;
    while i < n
        invariant
            n == a@.len(),
            m == b@.len(),
            n == m,
            i <= n,
            forall|j: int| 0 <= j < i ==> a@[j] == b@[j],
        decreases n - i,
    {
        if a.get_char(i) != b.get_char(i) {
            return false;
        }
        i = i + 1;
    }
    assert(a@ =~= b@);
    true
}

/// The text of one decimal digit.
pub open spec fn digit_text(d: nat) -> Seq<char> {
    if d == 0 {
        "0"@
    } else if d == 1 {
        "1"@
    } else if d == 2 {
        "2"@
    } else if d == 3 {
        "3"@
    } else if d == 4 {
        "4"@
    } else if d == 5 {
        "5"@
    } else if d == 6 {
        "6"@
    } else if d == 7 {
        "7"@
    } else if d == 8 {
        "8"@
    } else {
        "9"@
    }
}

/// A natural number written in decimal, without leading zeros.
pub open spec fn decimal_text(n: nat) -> Seq<char>
    decreases n,
{
    if n < 10 {
        digit_text(n)
    } else {
        decimal_text(n / 10) + digit_text(n % 10)
    }
}

/// An integer written in decimal, with a `-` in front when negative.
pub open spec fn signed_text(n: int) -> Seq<char> {
    if n < 0 {
        "-"@ + decimal_text((-n) as nat)
    } else {
        decimal_text(n as nat)
    }
}

fn digit_str(d: u64) -> (r: &'static str)
    requires
        d < 10,
    ensures
        r@ == digit_text(d as nat),
{
    if d == 0 {
        "0"
    } else if d == 1 {
        "1"
    } else if d == 2 {
        "2"
    } else if d == 3 {
        "3"
    } else if d == 4 {
        "4"
    } else if d == 5 {
        "5"
    } else if d == 6 {
        "6"
    } else if d == 7 {
        "7"
    } else if d == 8 {
        "8"
    } else {
        "9"
    }
}

/// `u64`'s `Display`.
pub fn decimal(n: u64) -> (r: String)
    ensures
        r@ == decimal_text(n as nat),
    decreases n,
{
    if n < 10 {
        String::from_str(digit_str(n))
    } else {
        let head = decimal(n / 10);
        head.concat(digit_str(n % 10))
    }
}

/// One lower-case hexadecimal digit.
pub open spec fn hex_digit(d: nat) -> char {
    if d < 10 {
        ('0' as nat + d) as char
    } else {
        ('a' as nat + (d - 10)) as char
    }
}

/// The digit `d` (below sixteen) as a one-character string.
pub fn hex_char(d: u8) -> (r: &'static str)
    requires
        d < 16,
    ensures
        r@ == seq![hex_digit(d as nat)],
{
    let table = "0123456789abcdef";
    proof {
        reveal_strlit("0123456789abcdef");
        assert(table@.subrange(d as int, d + 1) =~= seq![hex_digit(d as nat)]);
    }
    table.substring_char(d as usize, (d + 1) as usize)
}

/// A natural number in lower-case hexadecimal, without leading zeros.
pub open spec fn hex_text(n: nat) -> Seq<char>
    decreases n,
{
    if n < 16 {
        seq![hex_digit(n)]
    } else {
        hex_text(n / 16) + seq![hex_digit(n % 16)]
    }
}

/// `u64`'s `LowerHex`, without the `0x` prefix.
pub fn lower_hex(n: u64) -> (r: String)
    ensures
        r@ == hex_text(n as nat),
    decreases n,
{
    if n < 16 {
        String::from_str(hex_char(n as u8))
    } else {
        let head = lower_hex(n / 16);
        head.concat(hex_char((n % 16) as u8))
    }
}

/// `i64`'s `Display`.
pub fn signed_decimal(n: i64) -> (r: String)
    ensures
        r@ == signed_text(n as int),
{
    if n < 0 {
        let magnitude: u64 = if n == i64::MIN {
            9223372036854775808u64
        } else {
            (-n) as u64
        };
        let digits = decimal(magnitude);
        String::from_str("-").concat(digits.as_str())
    } else {
        decimal(n as u64)
    }
}

/// Every character is Unicode whitespace: what `str::trim` leaves empty.
pub open spec fn blank(s: Seq<char>) -> bool {
    forall|i: int| 0 <= i < s.len() ==> is_ws(#[trigger] s[i])
}

/// `s.trim().is_empty()`.
pub fn is_blank(s: &str) -> (r: bool)
    ensures
        r == blank(s@),
{
    let n = s.unicode_len();
    let mut i: usize = 0;
    while i < n
        invariant
            n == s@.len(),
            i <= n,
            forall|k: int| 0 <= k < i ==> is_ws(#[trigger] s@[k]),
        decreases n - i,
    {
        if !is_whitespace(s.get_char(i)) {
            return false;
        }
        i = i + 1;
    }
    true
}

/// `s` without its leading whitespace.
pub open spec fn strip_front(s: Seq<char>) -> Seq<char>
    decreases s.len(),
{
    if s.len() > 0 && is_ws(s[0]) {
        strip_front(s.drop_first())
    } else {
        s
    }
}

/// `s` without its trailing whitespace.
pub open spec fn strip_back(s: Seq<char>) -> Seq<char>
    decreases s.len(),
{
    if s.len() > 0 && is_ws(s.last()) {
        strip_back(s.drop_last())
    } else {
        s
    }
}

/// `str::trim`: whitespace removed from both ends.
pub open spec fn trimmed(s: Seq<char>) -> Seq<char> {
    strip_back(strip_front(s))
}

proof fn lemma_strip_front_skip(s: Seq<char>, i: int)
    requires
        0 <= i <= s.len(),
        forall|k: int| 0 <= k < i ==> is_ws(#[trigger] s[k]),
    ensures
        strip_front(s) == strip_front(s.skip(i)),
    decreases i,
{
    if i > 0 {
        assert(s.drop_first().skip(i - 1) =~= s.skip(i));
        assert forall|k: int| 0 <= k < i - 1 implies is_ws(#[trigger] s.drop_first()[k]) by {
            assert(s.drop_first()[k] == s[k + 1]);
        }
        lemma_strip_front_skip(s.drop_first(), i - 1);
    } else {
        assert(s.skip(0) =~= s);
    }
}

proof fn lemma_strip_back_take(s: Seq<char>, j: int)
    requires
        0 <= j <= s.len(),
        forall|k: int| j <= k < s.len() ==> is_ws(#[trigger] s[k]),
    ensures
        strip_back(s) == strip_back(s.take(j)),
    decreases s.len() - j,
{
    if j < s.len() {
        assert(s.drop_last().take(j) =~= s.take(j));
        assert forall|k: int| j <= k < s.len() - 1 implies is_ws(#[trigger] s.drop_last()[k]) by {
            assert(s.drop_last()[k] == s[k]);
        }
        lemma_strip_back_take(s.drop_last(), j);
    } else {
        assert(s.take(j) =~= s);
    }
}

/// `str::trim`.
pub fn trim(s: &str) -> (r: &str)
    ensures
        r@ == trimmed(s@),
{
    let n = s.unicode_len();
    let mut a: usize = 0;
    while a < n && is_whitespace(s.get_char(a))
        invariant
            n == s@.len(),
            a <= n,
            forall|k: int| 0 <= k < a ==> is_ws(#[trigger] s@[k]),
        decreases n - a,
    {
        a = a + 1;
    }
    let mut b: usize = n;
    while b > a && is_whitespace(s.get_char(b - 1))
        invariant
            n == s@.len(),
            a <= b <= n,
            forall|k: int| b <= k < n ==> is_ws(#[trigger] s@[k]),
        decreases b,
    {
        b = b - 1;
    }
    proof {
        lemma_strip_front_skip(s@, a as int);
        let f = s@.skip(a as int);
        assert(a == n || !is_ws(f[0]));
        assert(strip_front(f) == f);
        assert forall|k: int| b - a <= k < f.len() implies is_ws(#[trigger] f[k]) by {
            assert(f[k] == s@[k + a]);
        }
        lemma_strip_back_take(f, b - a);
        let g = f.take(b - a);
        assert(g =~= s@.subrange(a as int, b as int));
        assert(b == a || !is_ws(g.last()));
        assert(strip_back(g) == g);
    }
    s.substring_char(a, b)
}

/// ASCII upper case folded to lower case; everything else kept.
pub open spec fn lower_char(c: char) -> char {
    if 'A' <= c && c <= 'Z' {
        ((c as u32) + 32) as char
    } else {
        c
    }
}

/// `to_ascii_lowercase`.
pub open spec fn lower(s: Seq<char>) -> Seq<char> {
    s.map_values(|c: char| lower_char(c))
}

pub fn ascii_lower_char(c: char) -> (r: char)
    ensures
        r == lower_char(c),
{
    if 'A' <= c && c <= 'Z' {
        let b = (c as u8) + 32;
        proof {
            assert(b == (c as u32) + 32);
        }
        b as char
    } else {
        c
    }
}

/// `sub` occurs in `s` at some position.
pub open spec fn has_infix(s: Seq<char>, sub: Seq<char>) -> bool {
    exists|i: int| 0 <= i <= s.len() - sub.len() && #[trigger] s.subrange(i, i + sub.len()) == sub
}

/// Whether the lower-cased `s` holds `sub` at `at`.
fn lower_matches_at(s: &str, sub: &str, at: usize) -> (r: bool)
    requires
        at + sub@.len() <= s@.len(),
        s@.len() <= usize::MAX,
    ensures
        r == (lower(s@).subrange(at as int, at + sub@.len()) == sub@),
{
    let m = sub.unicode_len();
    let mut k: usize = 0;
    while k < m
        invariant
            m == sub@.len(),
            at + m <= s@.len(),
            s@.len() <= usize::MAX,
            k <= m,
            forall|j: int| 0 <= j < k ==> lower_char(s@[at + j]) == sub@[j],
        decreases m - k,
    {
        if ascii_lower_char(s.get_char(at + k)) != sub.get_char(k) {
            proof {
                assert(lower(s@).subrange(at as int, at + m)[k as int] != sub@[k as int]);
            }
            return false;
        }
        k = k + 1;
    }
    proof {
        assert(lower(s@).subrange(at as int, at + m) =~= sub@);
    }
    true
}

/// `to_ascii_lowercase(s) == sub`.
pub fn equals_lower(s: &str, sub: &str) -> (r: bool)
    ensures
        r == (lower(s@) == sub@),
{
    let n = s.unicode_len();
    let m = sub.unicode_len();
    if n != m {
        proof {
            assert(lower(s@).len() != sub@.len());
        }
        return false;
    }
    let r = lower_matches_at(s, sub, 0);
    proof {
        assert(lower(s@).subrange(0, m as int) =~= lower(s@));
    }
    r
}

/// `to_ascii_lowercase(s).contains(sub)`.
pub fn contains_lower(s: &str, sub: &str) -> (r: bool)
    ensures
        r == has_infix(lower(s@), sub@),
{
    let n = s.unicode_len();
    let m = sub.unicode_len();
    if m > n {
        return false;
    }
    let mut i: usize = 0;
    while i <= n - m
        invariant_except_break
            n == s@.len(),
            m == sub@.len(),
            m <= n,
            i <= n - m,
            forall|j: int| 0 <= j < i ==> #[trigger] lower(s@).subrange(j, j + m) != sub@,
        ensures
            forall|j: int| 0 <= j <= n - m ==> #[trigger] lower(s@).subrange(j, j + m) != sub@,
        decreases n - m - i,
    {
        if lower_matches_at(s, sub, i) {
            return true;
        }
        if i == n - m {
            break;
        }
        i = i + 1;
    }
    false
}

/// `s` ends with `sub`.
pub open spec fn has_suffix(s: Seq<char>, sub: Seq<char>) -> bool {
    sub.len() <= s.len() && s.subrange(s.len() - sub.len(), s.len() as int) == sub
}

/// `to_ascii_lowercase(s).ends_with(sub)`.
pub fn ends_with_lower(s: &str, sub: &str) -> (r: bool)
    ensures
        r == has_suffix(lower(s@), sub@),
{
    let n = s.unicode_len();
    let m = sub.unicode_len();
    if m > n {
        return false;
    }
    lower_matches_at(s, sub, n - m)
}

/// Strict lexicographic order on character sequences: `String`'s order, since UTF-8 keeps
/// code point order byte by byte.
pub open spec fn text_lt(a: Seq<char>, b: Seq<char>) -> bool
    decreases a.len(),
{
    if a.len() == 0 {
        b.len() > 0
    } else if b.len() == 0 {
        false
    } else if a[0] != b[0] {
        (a[0] as u32) < (b[0] as u32)
    } else {
        text_lt(a.drop_first(), b.drop_first())
    }
}

pub proof fn lemma_text_lt_irreflexive(a: Seq<char>)
    ensures
        !text_lt(a, a),
    decreases a.len(),
{
    if a.len() > 0 {
        lemma_text_lt_irreflexive(a.drop_first());
    }
}

pub proof fn lemma_text_lt_total(a: Seq<char>, b: Seq<char>)
    ensures
        a == b || text_lt(a, b) || text_lt(b, a),
    decreases a.len(),
{
    if a.len() > 0 && b.len() > 0 && a[0] == b[0] {
        lemma_text_lt_total(a.drop_first(), b.drop_first());
        if a.drop_first() == b.drop_first() {
            assert(a.drop_first().len() == b.drop_first().len());
            assert(a.len() == b.len());
            assert(a =~= b) by {
                assert forall|k: int| 0 <= k < a.len() implies a[k] == b[k] by {
                    if k > 0 {
                        assert(a[k] == a.drop_first()[k - 1]);
                        assert(b[k] == b.drop_first()[k - 1]);
                    }
                }
            }
        }
    } else if a.len() == 0 && b.len() == 0 {
        assert(a =~= b);
    } else if a.len() > 0 && b.len() > 0 {
        lemma_code_injective(a[0], b[0]);
    }
}

/// Different characters have different code points.
pub proof fn lemma_code_injective(x: char, y: char)
    requires
        x != y,
    ensures
        (x as u32) != (y as u32),
{
}

pub proof fn lemma_text_lt_transitive(a: Seq<char>, b: Seq<char>, c: Seq<char>)
    requires
        text_lt(a, b),
        text_lt(b, c),
    ensures
        text_lt(a, c),
    decreases a.len(),
{
    if a.len() > 0 && b.len() > 0 && c.len() > 0 && a[0] == b[0] && b[0] == c[0] {
        lemma_text_lt_transitive(a.drop_first(), b.drop_first(), c.drop_first());
    }
}

/// `a < b` on two strings.
pub fn text_less(a: &str, b: &str) -> (r: bool)
    ensures
        r == text_lt(a@, b@),
{
    let n = a.unicode_len();
    let m = b.unicode_len();
    let mut i: usize = 0;
    proof {
        assert(a@.skip(0) =~= a@);
        assert(b@.skip(0) =~= b@);
        assert(a@.take(0) =~= b@.take(0));
    }
    while i < n && i < m
        invariant
            n == a@.len(),
            m == b@.len(),
            i <= n,
            i <= m,
            a@.take(i as int) == b@.take(i as int),
            text_lt(a@, b@) == text_lt(a@.skip(i as int), b@.skip(i as int)),
        decreases n - i,
    {
        let x = a.get_char(i);
        let y = b.get_char(i);
        proof {
            assert(a@.skip(i as int)[0] == x);
            assert(b@.skip(i as int)[0] == y);
            assert(a@.skip(i as int).drop_first() =~= a@.skip(i + 1));
            assert(b@.skip(i as int).drop_first() =~= b@.skip(i + 1));
        }
        if x != y {
            return (x as u32) < (y as u32);
        }
        proof {
            assert(a@.take(i + 1) =~= a@.take(i as int).push(x));
            assert(b@.take(i + 1) =~= b@.take(i as int).push(y));
        }
        i = i + 1;
    }
    proof {
        assert(a@.skip(i as int).len() == n - i);
        assert(b@.skip(i as int).len() == m - i);
    }
    i == n && i < m
}

} // verus!
