//! Character-level text operations, each stated over the `Seq<char>` view of
//! the strings it reads and writes.

use vstd::prelude::*;
use vstd::utf8::encode_utf8;
use vstd::utf8::encode_scalar;

verus! {

/// The chars of a string, in order.
pub fn chars_of(s: &str) -> (v: Vec<char>)
    ensures
        v@ == s@,
{
    let mut v: Vec<char> = Vec::new();
    for c in it: s.chars()
        invariant
            it.seq() == s@,
            v@ == it.seq().take(it.index()),
    {
        v.push(c);
    }
    v
}


/// Calls `String::push`, which appends one char at the end of the string.
#[verifier::external_body]
pub(crate) fn push_char(s: &mut String, c: char)
    ensures
        final(s)@ == old(s)@.push(c),
{
    s.push(c)
}

/// A string holding the given chars.
pub fn string_of(v: &Vec<char>) -> (s: String)
    ensures
        s@ == v@,
{
    let mut s = String::new();
    let mut i: usize = 0;
    while i < v.len()
        invariant
            i <= v.len(),
            s@ == v@.take(i as int),
        decreases v.len() - i,
    {
        push_char(&mut s, v[i]);
        i = i + 1;
        assert(v@.take(i as int) =~= v@.take(i - 1).push(v@[i - 1]));
    }
    assert(v@.take(v.len() as int) =~= v@);
    s
}

/// Whether two strings hold the same chars.
pub fn str_eq(a: &str, b: &str) -> (r: bool)
    ensures
        r == (a@ == b@),
{
    let av = chars_of(a);
    let bv = chars_of(b);
    if av.len() != bv.len() {
        return false;
    }
    let mut i: usize = 0;
    while i < av.len()
        invariant
            av@ == a@,
            bv@ == b@,
            av.len() == bv.len(),
            i <= av.len(),
            forall|j: int| 0 <= j < i ==> av@[j] == bv@[j],
        decreases av.len() - i,
    {
        if av[i] != bv[i] {
            return false;
        }
        i = i + 1;
    }
    assert(a@ =~= b@);
    true
}

/// The decimal digit for a value below ten.
pub open spec fn digit_char(d: nat) -> char {
    if d == 0 { '0' }
    else if d == 1 { '1' }
    else if d == 2 { '2' }
    else if d == 3 { '3' }
    else if d == 4 { '4' }
    else if d == 5 { '5' }
    else if d == 6 { '6' }
    else if d == 7 { '7' }
    else if d == 8 { '8' }
    else { '9' }
}

/// The decimal notation of a natural number, without leading zeros.
pub open spec fn decimal_nat(n: nat) -> Seq<char>
    decreases n,
{
    if n < 10 {
        seq![digit_char(n)]
    } else {
        decimal_nat(n / 10).push(digit_char(n % 10))
    }
}

/// The decimal notation of an integer, with a leading `-` when it is negative.
pub open spec fn decimal(n: int) -> Seq<char> {
    if n < 0 {
        seq!['-'] + decimal_nat((-n) as nat)
    } else {
        decimal_nat(n as nat)
    }
}

fn digit_of(d: u64) -> (c: char)
    requires
        d < 10,
    ensures
        c == digit_char(d as nat),
{
    if d == 0 { '0' }
    else if d == 1 { '1' }
    else if d == 2 { '2' }
    else if d == 3 { '3' }
    else if d == 4 { '4' }
    else if d == 5 { '5' }
    else if d == 6 { '6' }
    else if d == 7 { '7' }
    else if d == 8 { '8' }
    else { '9' }
}

fn decimal_u64(n: u64) -> (s: String)
    ensures
        s@ == decimal_nat(n as nat),
    decreases n,
{
    if n < 10 {
        let mut s = String::new();
        push_char(&mut s, digit_of(n));
        assert(s@ =~= decimal_nat(n as nat));
        s
    } else {
        let mut s = decimal_u64(n / 10);
        push_char(&mut s, digit_of(n % 10));
        s
    }
}

/// The decimal notation of a signed integer, as `Display` writes it.
pub fn decimal_string(n: i64) -> (s: String)
    ensures
        s@ == decimal(n as int),
{
    if n < 0 {
        let m: u64 = if n == i64::MIN {
            9223372036854775808u64
        } else {
            (-n) as u64
        };
        let mut s = String::new();
        push_char(&mut s, '-');
        let d = decimal_u64(m);
        s.append(d.as_str());
        s
    } else {
        decimal_u64(n as u64)
    }
}

/// The decimal notation of an index.
pub fn decimal_usize(n: usize) -> (s: String)
    ensures
        s@ == decimal(n as int),
{
    decimal_u64(n as u64)
}


/// What `char::is_alphanumeric` returns for a char: whether it has the
/// Unicode `Alphabetic` or `Numeric` property.
pub uninterp spec fn unicode_alphanumeric(c: char) -> bool;

/// An ASCII letter or digit.
pub open spec fn ascii_letter_or_digit(c: char) -> bool {
    ||| 0x30 <= (c as u32) <= 0x39
    ||| 0x41 <= (c as u32) <= 0x5a
    ||| 0x61 <= (c as u32) <= 0x7a
}

/// Calls `char::is_alphanumeric`. Its result is named `unicode_alphanumeric`;
/// for an ASCII char, std documents it as true exactly for the letters and
/// the digits.
#[verifier::external_body]
fn is_alphanumeric(c: char) -> (b: bool)
    ensures
        b == unicode_alphanumeric(c),
        (c as u32) < 0x80 ==> (b <==> ascii_letter_or_digit(c)),
{
    c.is_alphanumeric()
}

/// A char for which `char::is_alphanumeric` holds; an ASCII one is a letter
/// or a digit.
pub open spec fn alphanumeric_char(c: char) -> bool {
    &&& unicode_alphanumeric(c)
    &&& (c as u32) < 0x80 ==> ascii_letter_or_digit(c)
}

/// Every char of the text is alphanumeric.
pub open spec fn all_alphanumeric(s: Seq<char>) -> bool {
    forall|i: int| 0 <= i < s.len() ==> alphanumeric_char(#[trigger] s[i])
}

/// Whether every char of the string is alphanumeric.
pub fn is_alphanumeric_str(s: &str) -> (r: bool)
    ensures
        r == all_alphanumeric(s@),
{
    let v = chars_of(s);
    let mut i: usize = 0;
    while i < v.len()
        invariant
            v@ == s@,
            i <= v.len(),
            forall|j: int| 0 <= j < i ==> alphanumeric_char(#[trigger] v@[j]),
        decreases v.len() - i,
    {
        if !is_alphanumeric(v[i]) {
            return false;
        }
        i = i + 1;
    }
    true
}

/// The number of bytes of the UTF-8 encoding of a char.
pub open spec fn char_width(c: char) -> nat {
    encode_scalar(c as u32).len()
}

/// The number of bytes of the UTF-8 encoding of a text, which `str::len` returns.
pub open spec fn byte_len(s: Seq<char>) -> nat {
    encode_utf8(s).len()
}

/// The char whose encoding starts at byte offset `i` of the text, if a char
/// starts there.
pub open spec fn char_at_byte(s: Seq<char>, i: int) -> Option<char>
    decreases s.len(),
{
    if s.len() == 0 || i < 0 {
        None
    } else if i == 0 {
        Some(s[0])
    } else if i < char_width(s[0]) {
        None
    } else {
        char_at_byte(s.drop_first(), i - char_width(s[0]))
    }
}

proof fn lemma_byte_len_cons(s: Seq<char>)
    requires
        s.len() > 0,
    ensures
        byte_len(s) == char_width(s[0]) + byte_len(s.drop_first()),
{
}

fn width_of(c: char) -> (w: usize)
    ensures
        w == char_width(c),
        1 <= w <= 4,
{
    proof {
        vstd::utf8::char_is_scalar(c);
    }
    let u = c as u32;
    if u <= 0x7F {
        1
    } else if u <= 0x7FF {
        2
    } else if u <= 0xFFFF {
        3
    } else {
        4
    }
}

proof fn lemma_char_at_byte_shift(s: Seq<char>, k: int, i: int)
    requires
        0 <= k <= s.len(),
        i >= byte_len(s.take(k)),
    ensures
        char_at_byte(s, i) == char_at_byte(s.skip(k), i - byte_len(s.take(k))),
    decreases k,
{
    if k > 0 {
        lemma_byte_len_cons(s.take(k));
        assert(s.take(k).drop_first() =~= s.drop_first().take(k - 1));
        assert(s.take(k)[0] == s[0]);
        assert(byte_len(s.take(k)) >= char_width(s[0]));
        if i == 0 {
            assert(byte_len(s.take(k)) > 0) by {
                vstd::utf8::char_is_scalar(s[0]);
            }
        }
        vstd::utf8::char_is_scalar(s[0]);
        lemma_char_at_byte_shift(s.drop_first(), k - 1, i - char_width(s[0]));
        assert(s.drop_first().skip(k - 1) =~= s.skip(k));
    } else {
        assert(s.skip(0) =~= s);
        assert(s.take(0) =~= Seq::<char>::empty());
    }
}

/// The char of `s` that starts at byte offset `i`, as the old `str::char_at`
/// found it; `None` where no char starts at that offset.
pub fn char_at_byte_offset(s: &str, i: usize) -> (r: Option<char>)
    ensures
        r == char_at_byte(s@, i as int),
{
    let v = chars_of(s);
    let mut k: usize = 0;
    let mut off: usize = 0;
    while k < v.len()
        invariant
            v@ == s@,
            k <= v.len(),
            off == byte_len(v@.take(k as int)),
            off <= i,
        decreases v.len() - k,
    {
        proof {
            lemma_char_at_byte_shift(v@, k as int, i as int);
            assert(v@.skip(k as int)[0] == v@[k as int]);
            assert(v@.skip(k as int).drop_first() =~= v@.skip(k + 1));
        }
        if off == i {
            return Some(v[k]);
        }
        let w = width_of(v[k]);
        if i - off < w {
            return None;
        }
        proof {
            lemma_byte_len_take_step(v@, k as int);
        }
        off = off + w;
        k = k + 1;
    }
    proof {
        lemma_char_at_byte_shift(v@, k as int, i as int);
        assert(v@.skip(k as int).len() == 0);
    }
    None
}

proof fn lemma_byte_len_take_step(s: Seq<char>, k: int)
    requires
        0 <= k < s.len(),
    ensures
        byte_len(s.take(k + 1)) == byte_len(s.take(k)) + char_width(s[k]),
    decreases k,
{
    if k == 0 {
        assert(s.take(1).drop_first() =~= Seq::<char>::empty());
        assert(s.take(0) =~= Seq::<char>::empty());
        lemma_byte_len_cons(s.take(1));
    } else {
        lemma_byte_len_cons(s.take(k + 1));
        lemma_byte_len_cons(s.take(k));
        assert(s.take(k + 1).drop_first() =~= s.drop_first().take(k));
        assert(s.take(k).drop_first() =~= s.drop_first().take(k - 1));
        lemma_byte_len_take_step(s.drop_first(), k - 1);
    }
}


/// The chars with the Unicode `White_Space` property, which
/// `char::is_whitespace` accepts.
pub open spec fn is_white_space(c: char) -> bool {
    let u = c as u32;
    ||| 0x09 <= u <= 0x0D
    ||| u == 0x20
    ||| u == 0x85
    ||| u == 0xA0
    ||| u == 0x1680
    ||| 0x2000 <= u <= 0x200A
    ||| u == 0x2028
    ||| u == 0x2029
    ||| u == 0x202F
    ||| u == 0x205F
    ||| u == 0x3000
}

/// Whether a char has the Unicode `White_Space` property.
pub fn is_white_space_char(c: char) -> (r: bool)
    ensures
        r == is_white_space(c),
{
    let u = c as u32;
    (0x09 <= u && u <= 0x0D) || u == 0x20 || u == 0x85 || u == 0xA0 || u == 0x1680
        || (0x2000 <= u && u <= 0x200A) || u == 0x2028 || u == 0x2029 || u == 0x202F
        || u == 0x205F || u == 0x3000
}

/// The text without its leading white space.
pub open spec fn trim_start(s: Seq<char>) -> Seq<char>
    decreases s.len(),
{
    if s.len() > 0 && is_white_space(s[0]) {
        trim_start(s.drop_first())
    } else {
        s
    }
}

/// The text without its trailing white space.
pub open spec fn trim_end(s: Seq<char>) -> Seq<char>
    decreases s.len(),
{
    if s.len() > 0 && is_white_space(s.last()) {
        trim_end(s.drop_last())
    } else {
        s
    }
}

/// The text without its leading and trailing white space, as `str::trim`
/// returns it.
pub open spec fn trim(s: Seq<char>) -> Seq<char> {
    trim_end(trim_start(s))
}

proof fn lemma_trim_start_skip(s: Seq<char>, k: int)
    requires
        0 <= k <= s.len(),
        forall|j: int| 0 <= j < k ==> is_white_space(#[trigger] s[j]),
    ensures
        trim_start(s) == trim_start(s.skip(k)),
    decreases k,
{
    if k > 0 {
        assert(is_white_space(s[0]));
        assert(s.drop_first().skip(k - 1) =~= s.skip(k));
        lemma_trim_start_skip(s.drop_first(), k - 1);
    } else {
        assert(s.skip(0) =~= s);
    }
}

proof fn lemma_trim_end_take(s: Seq<char>, k: int)
    requires
        0 <= k <= s.len(),
        forall|j: int| k <= j < s.len() ==> is_white_space(#[trigger] s[j]),
    ensures
        trim_end(s) == trim_end(s.take(k)),
    decreases s.len() - k,
{
    if k < s.len() {
        assert(is_white_space(s.last()));
        assert(s.drop_last().take(k) =~= s.take(k));
        lemma_trim_end_take(s.drop_last(), k);
    } else {
        assert(s.take(k) =~= s);
    }
}

/// The string without its leading and trailing white space.
pub fn trim_str(s: &str) -> (r: String)
    ensures
        r@ == trim(s@),
{
    let v = chars_of(s);
    let n = v.len();
    let mut a: usize = 0;
    while a < n && is_white_space_char(v[a])
        invariant
            v@ == s@,
            n == v.len(),
            a <= n,
            forall|j: int| 0 <= j < a ==> is_white_space(#[trigger] v@[j]),
        decreases n - a,
    {
        a = a + 1;
    }
    proof {
        lemma_trim_start_skip(v@, a as int);
    }
    let mut b: usize = n;
    while b > a && is_white_space_char(v[b - 1])
        invariant
            v@ == s@,
            n == v.len(),
            a <= b <= n,
            forall|j: int| b <= j < n ==> is_white_space(#[trigger] v@[j]),
        decreases b,
    {
        b = b - 1;
    }
    let ghost u = v@.skip(a as int);
    proof {
        assert(a == n || !is_white_space(v@[a as int]));
        assert(u.len() == 0 || !is_white_space(u[0]));
        assert(trim_start(u) == u);
        assert forall|j: int| (b - a) <= j < u.len() implies is_white_space(#[trigger] u[j]) by {
            assert(u[j] == v@[j + a]);
        }
        lemma_trim_end_take(u, (b - a) as int);
        let t = u.take((b - a) as int);
        assert(t.len() == 0 || !is_white_space(t.last())) by {
            if t.len() > 0 {
                assert(t.last() == v@[b - 1]);
            }
        }
        assert(trim_end(t) == t);
    }
    let mut out: Vec<char> = Vec::new();
    let mut i: usize = a;
    while i < b
        invariant
            a <= i <= b <= n,
            n == v.len(),
            out@ == v@.subrange(a as int, i as int),
        decreases b - i,
    {
        out.push(v[i]);
        i = i + 1;
        assert(out@ =~= v@.subrange(a as int, i as int));
    }
    assert(out@ =~= u.take((b - a) as int));
    string_of(&out)
}

/// The pieces of a text between the occurrences of `sep`, as `str::split`
/// yields them: empty pieces included, and one piece more than there are
/// separators.
pub open spec fn split(s: Seq<char>, sep: char) -> Seq<Seq<char>>
    decreases s.len(),
{
    if s.len() == 0 {
        seq![Seq::<char>::empty()]
    } else {
        let prev = split(s.drop_last(), sep);
        if s.last() == sep {
            prev.push(Seq::<char>::empty())
        } else {
            prev.update(prev.len() - 1, prev.last().push(s.last()))
        }
    }
}

/// Splitting gives at least one part, the empty text included.
pub proof fn lemma_split_nonempty(s: Seq<char>, sep: char)
    ensures
        split(s, sep).len() > 0,
    decreases s.len(),
{
    if s.len() > 0 {
        lemma_split_nonempty(s.drop_last(), sep);
    }
}

/// The pieces of `s` between the spaces.
pub fn split_spaces(s: &str) -> (parts: Vec<String>)
    ensures
        parts@.map_values(|p: String| p@) == split(s@, ' '),
{
    let v = chars_of(s);
    let n = v.len();
    let mut parts: Vec<String> = Vec::new();
    let mut cur: Vec<char> = Vec::new();
    let mut i: usize = 0;
    assert(v@.take(0) =~= Seq::<char>::empty());
    while i < n
        invariant
            v@ == s@,
            n == v.len(),
            i <= n,
            parts@.map_values(|p: String| p@).push(cur@) == split(v@.take(i as int), ' '),
        decreases n - i,
    {
        let ghost before = parts@.map_values(|p: String| p@).push(cur@);
        proof {
            lemma_split_nonempty(v@.take(i as int), ' ');
            assert(v@.take(i + 1).drop_last() =~= v@.take(i as int));
            assert(v@.take(i + 1).last() == v@[i as int]);
        }
        if v[i] == ' ' {
            let piece = string_of(&cur);
            parts.push(piece);
            cur = Vec::new();
            assert(parts@.map_values(|p: String| p@).push(cur@) =~= before.push(Seq::<char>::empty()));
        } else {
            cur.push(v[i]);
            assert(parts@.map_values(|p: String| p@).push(cur@) =~= before.update(
                before.len() - 1,
                before.last().push(v@[i as int]),
            ));
        }
        i = i + 1;
    }
    let piece = string_of(&cur);
    parts.push(piece);
    assert(v@.take(n as int) =~= v@);
    assert(parts@.map_values(|p: String| p@) =~= split(s@, ' '));
    parts
}

} // verus!
