//! Character-level helpers shared by the parsers and formatters of the library.
use vstd::prelude::*;
use vstd::utf8::{encode_scalar, encode_utf8};

verus! {

/// Whether `c` has the Unicode `White_Space` property, as `char::is_whitespace`
/// answers: the controls tab to carriage return, space, next line, no-break space,
/// ogham space mark, the spaces from en quad to hair space, line and paragraph
/// separator, narrow no-break space, medium mathematical space and ideographic space.
pub open spec fn char_is_whitespace(c: char) -> bool {
    let u = c as u32;
    ||| 0x09 <= u <= 0x0D
    ||| u == 0x20
    ||| u == 0x85
    ||| u == 0xA0
    ||| u == 0x1680
    ||| 0x2000 <= u <= 0x200A
    ||| u == 0x2028
    ||| u == 0x2029
    ||| u == 0x202F
    ||| u == 0x205F
    ||| u == 0x3000
}

/// What `char::is_alphanumeric` answers for `c` (Unicode `Alphabetic` or `Numeric`).
pub uninterp spec fn char_is_alphanumeric(c: char) -> bool;

/// What `str::to_lowercase` returns for a string with the characters `s`.
pub uninterp spec fn lowercase_of(s: Seq<char>) -> Seq<char>;

/// What `str::to_uppercase` returns for a string with the characters `s`.
pub uninterp spec fn uppercase_of(s: Seq<char>) -> Seq<char>;

/// Whether every character of `s` is ASCII.
pub open spec fn is_ascii_text(s: Seq<char>) -> bool {
    forall|i: int| 0 <= i < s.len() ==> (#[trigger] s[i] as u32) < 128
}

/// `c` with an ASCII capital letter turned into its small letter.
pub open spec fn ascii_lower_char(c: char) -> char {
    if 65 <= (c as u32) <= 90 {
        ((c as u32) + 32) as char
    } else {
        c
    }
}

/// `c` with an ASCII small letter turned into its capital letter.
pub open spec fn ascii_upper_char(c: char) -> char {
    if 97 <= (c as u32) <= 122 {
        ((c as u32) - 32) as char
    } else {
        c
    }
}

/// `s` with its ASCII capital letters made small.
pub open spec fn ascii_lower(s: Seq<char>) -> Seq<char> {
    s.map_values(|c: char| ascii_lower_char(c))
}

/// `s` with its ASCII small letters made capital.
pub open spec fn ascii_upper(s: Seq<char>) -> Seq<char> {
    s.map_values(|c: char| ascii_upper_char(c))
}

/// Whether every character of `s` is an ASCII capital letter.
pub open spec fn ascii_capitals(s: Seq<char>) -> bool
    decreases s.len(),
{
    s.len() == 0 || (65 <= (s[0] as u32) <= 90 && ascii_capitals(s.drop_first()))
}

/// A word of ASCII capitals is ASCII, and so is its small-letter form; making
/// either capital gives the word back.
pub proof fn lemma_capitals_case(s: Seq<char>)
    requires
        ascii_capitals(s),
    ensures
        is_ascii_text(s),
        is_ascii_text(ascii_lower(s)),
        ascii_upper(s) == s,
        ascii_upper(ascii_lower(s)) == s,
    decreases s.len(),
{
    if s.len() > 0 {
        let t = s.drop_first();
        lemma_capitals_case(t);
        let c = s[0];
        let l = ((c as u32) + 32) as char;
        assert(ascii_lower_char(c) == l);
        assert((l as u32) == (c as u32) + 32);
        vstd::utf8::char_u32_cast(c, c as u32);
        assert(ascii_upper_char(l) == c);
        assert(ascii_upper_char(c) == c);
        assert forall|i: int| 0 <= i < s.len() implies (#[trigger] s[i] as u32) < 128 by {
            if i > 0 {
                assert(s[i] == t[i - 1]);
            }
        }
        assert forall|i: int| 0 <= i < ascii_lower(s).len() implies (#[trigger] ascii_lower(s)[i] as u32) < 128 by {
            if i > 0 {
                assert(ascii_lower(s)[i] == ascii_lower(t)[i - 1]);
            }
        }
        assert(ascii_upper(s) =~= s) by {
            assert forall|i: int| 0 <= i < s.len() implies #[trigger] ascii_upper(s)[i] == s[i] by {
                if i > 0 {
                    assert(ascii_upper(s)[i] == ascii_upper(t)[i - 1]);
                    assert(s[i] == t[i - 1]);
                }
            }
        }
        assert(ascii_upper(ascii_lower(s)) =~= s) by {
            assert forall|i: int| 0 <= i < s.len() implies #[trigger] ascii_upper(ascii_lower(s))[i] == s[i] by {
                if i > 0 {
                    assert(ascii_upper(ascii_lower(s))[i] == ascii_upper(ascii_lower(t))[i - 1]);
                    assert(s[i] == t[i - 1]);
                }
            }
        }
    } else {
        assert(ascii_upper(s) =~= s);
        assert(ascii_upper(ascii_lower(s)) =~= s);
    }
}

/// Whether `c` is white space (see `char_is_whitespace`).
pub fn is_whitespace(c: char) -> (b: bool)
    ensures
        b == char_is_whitespace(c),
{
    let u = c as u32;
    (0x09 <= u && u <= 0x0D) || u == 0x20 || u == 0x85 || u == 0xA0 || u == 0x1680 || (0x2000 <= u && u
        <= 0x200A) || u == 0x2028 || u == 0x2029 || u == 0x202F || u == 0x205F || u == 0x3000
}

/// Trusted: calls `char::is_alphanumeric`; the answer is named. On an ASCII character
/// it holds exactly for the letters and digits, the ASCII characters that are
/// Unicode `Alphabetic` or `Numeric`.
#[verifier::external_body]
pub(crate) fn is_alphanumeric(c: char) -> (b: bool)
    ensures
        b == char_is_alphanumeric(c),
        (c as u32) < 128 ==> (b <==> (48 <= (c as u32) <= 57 || 65 <= (c as u32) <= 90 || 97 <= (c as u32) <= 122)),
{
    c.is_alphanumeric()
}

/// Trusted: calls `str::to_lowercase`; the result is named. On ASCII text it is the
/// text with `A`-`Z` made small and the rest kept: the Unicode lower-case mapping of
/// an ASCII character is its ASCII one, and std converts ASCII text byte by byte
/// with `u8::to_ascii_lowercase`.
#[verifier::external_body]
pub(crate) fn to_lowercase(s: &str) -> (r: String)
    ensures
        r@ == lowercase_of(s@),
        is_ascii_text(s@) ==> r@ == ascii_lower(s@),
{
    s.to_lowercase()
}

/// Trusted: calls `str::to_uppercase`; the result is named. On ASCII text it is the
/// text with `a`-`z` made capital and the rest kept: the Unicode upper-case mapping
/// of an ASCII character is its ASCII one, and std converts ASCII text byte by byte
/// with `u8::to_ascii_uppercase`.
#[verifier::external_body]
pub(crate) fn to_uppercase(s: &str) -> (r: String)
    ensures
        r@ == uppercase_of(s@),
        is_ascii_text(s@) ==> r@ == ascii_upper(s@),
{
    s.to_uppercase()
}

/// Trusted: calls `String::push`, which appends one character.
#[verifier::external_body]
pub(crate) fn push_char(s: &mut String, c: char)
    ensures
        final(s)@ == old(s)@.push(c),
{
    s.push(c)
}

/// Trusted: calls `String::push_str`, which appends a string slice.
#[verifier::external_body]
pub(crate) fn push_str(s: &mut String, t: &str)
    ensures
        final(s)@ == old(s)@ + t@,
{
    s.push_str(t)
}

/// The characters of a string slice, in order.
pub fn chars_of(s: &str) -> (v: Vec<char>)
    ensures
        v@ == s@,
{
    let mut v: Vec<char> = Vec::new();
    for c in it: s.chars()
        invariant
            v@ == it.seq().take(it.index() as int),
    {
        v.push(c);
    }
    v
}

/// A string holding exactly the given characters.
pub fn string_from_chars(v: &[char]) -> (s: String)
    ensures
        s@ == v@,
{
    let mut s = String::new();
    let mut i: usize = 0;
    while i < v.len()
        invariant
            i <= v.len(),
            s@ == v@.take(i as int),
        decreases v.len() - i,
    {
        push_char(&mut s, v[i]);
        i = i + 1;
        assert(v@.take(i as int) == v@.take((i - 1) as int).push(v@[i - 1]));
    }
    assert(v@.take(v@.len() as int) == v@);
    s
}

/// The ASCII digit for `d` (meant for `d < 10`).
pub open spec fn digit_char(d: nat) -> char {
    ((d + 48) as u8) as char
}

/// The decimal representation of `n`, without sign or leading zeros.
pub open spec fn decimal(n: nat) -> Seq<char>
    decreases n,
{
    if n < 10 {
        seq![digit_char(n)]
    } else {
        decimal(n / 10).push(digit_char(n % 10))
    }
}

/// The decimal representation is never empty.
pub proof fn lemma_decimal_nonempty(n: nat)
    ensures
        decimal(n).len() >= 1,
        n >= 10 ==> decimal(n).len() >= 2,
    decreases n,
{
    if n >= 10 {
        lemma_decimal_nonempty(n / 10);
    }
}

/// Distinct numbers have distinct decimal representations.
pub proof fn lemma_decimal_injective(a: nat, b: nat)
    requires
        decimal(a) == decimal(b),
    ensures
        a == b,
    decreases a,
{
    lemma_decimal_nonempty(a);
    lemma_decimal_nonempty(b);
    if a < 10 && b < 10 {
        assert(decimal(a)[0] == digit_char(a));
        assert(decimal(b)[0] == digit_char(b));
    } else if a >= 10 && b >= 10 {
        let da = decimal(a);
        let db = decimal(b);
        assert(da.last() == digit_char(a % 10));
        assert(db.last() == digit_char(b % 10));
        assert(da.drop_last() == decimal(a / 10));
        assert(db.drop_last() == decimal(b / 10));
        lemma_decimal_injective(a / 10, b / 10);
    }
}

/// Appends the decimal representation of `n` to `s`.
pub fn push_decimal(s: &mut String, n: u128)
    ensures
        final(s)@ == old(s)@ + decimal(n as nat),
    decreases n,
{
    if n >= 10 {
        push_decimal(s, n / 10);
    }
    let d: u8 = (n % 10) as u8;
    let c: char = (48u8 + d) as char;
    push_char(s, c);
    assert(c == digit_char((n % 10) as nat));
}

/// The decimal representation of `n` as a new string.
pub fn decimal_string(n: u128) -> (s: String)
    ensures
        s@ == decimal(n as nat),
{
    let mut s = String::new();
    push_decimal(&mut s, n);
    s
}


/// Whether `n` occurs in `h` as a run of consecutive characters.
pub open spec fn contains_sub(h: Seq<char>, n: Seq<char>) -> bool {
    exists|i: int| 0 <= i && i + n.len() <= h.len() && #[trigger] h.subrange(i, i + n.len()) == n
}

/// Whether `n` occurs in `h` at position `i`.
fn occurs_at(h: &Vec<char>, n: &Vec<char>, i: usize) -> (b: bool)
    requires
        i + n@.len() <= h@.len(),
    ensures
        b == (h@.subrange(i as int, i + n@.len()) == n@),
{
    let mut j: usize = 0;
    while j < n.len()
        invariant
            j <= n@.len(),
            i + n@.len() <= h@.len(),
            h@.len() == h.len(),
            forall|k: int| 0 <= k < j ==> h@[i + k] == n@[k],
        decreases n.len() - j,
    {
        if h[i + j] != n[j] {
            assert(h@.subrange(i as int, i + n@.len())[j as int] != n@[j as int]);
            return false;
        }
        j = j + 1;
    }
    assert(h@.subrange(i as int, i + n@.len()) =~= n@);
    true
}

/// Whether the string `n` occurs in the string `h` (what `str::contains` answers for a
/// string pattern).
pub fn str_contains(h: &str, n: &str) -> (b: bool)
    ensures
        b == contains_sub(h@, n@),
{
    let hc = chars_of(h);
    let nc = chars_of(n);
    if nc.len() > hc.len() {
        return false;
    }
    let last = hc.len() - nc.len();
    let mut i: usize = 0;
    while i <= last
        invariant
            last + nc@.len() == hc@.len(),
            hc@ == h@,
            nc@ == n@,
            forall|k: int| 0 <= k < i ==> #[trigger] h@.subrange(k, k + n@.len()) != n@,
        decreases last + 1 - i,
    {
        if occurs_at(&hc, &nc, i) {
            return true;
        }
        if i == last {
            return false;
        }
        i = i + 1;
    }
    false
}


/// The number of bytes of the UTF-8 encoding of `s`.
pub open spec fn utf8_len(s: Seq<char>) -> nat {
    encode_utf8(s).len()
}

/// Encoding a concatenation encodes each part in turn.
pub proof fn lemma_encode_concat(a: Seq<char>, b: Seq<char>)
    ensures
        encode_utf8(a + b) == encode_utf8(a) + encode_utf8(b),
    decreases a.len(),
{
    if a.len() == 0 {
        assert(a + b =~= b);
        assert(encode_utf8(a) =~= Seq::<u8>::empty());
        assert(encode_utf8(a) + encode_utf8(b) =~= encode_utf8(b));
    } else {
        assert((a + b).drop_first() =~= a.drop_first() + b);
        assert((a + b)[0] == a[0]);
        lemma_encode_concat(a.drop_first(), b);
        assert(encode_utf8(a + b) =~= encode_scalar(a[0] as u32) + encode_utf8(a.drop_first() + b));
        assert(encode_utf8(a) =~= encode_scalar(a[0] as u32) + encode_utf8(a.drop_first()));
    }
}

/// Two character sequences with the same encoding are the same.
pub proof fn lemma_encode_injective(a: Seq<char>, b: Seq<char>)
    requires
        encode_utf8(a) == encode_utf8(b),
    ensures
        a == b,
{
    vstd::utf8::encode_utf8_decode_utf8(a);
    vstd::utf8::encode_utf8_decode_utf8(b);
}

/// Whether `k` is the number of leading whitespace characters of `s`.
pub open spec fn is_leading_ws(s: Seq<char>, k: int) -> bool {
    &&& 0 <= k <= s.len()
    &&& forall|j: int| 0 <= j < k ==> char_is_whitespace(#[trigger] s[j])
    &&& (k == s.len() || !char_is_whitespace(s[k]))
}

/// The number of leading whitespace characters of `s`.
pub open spec fn leading_ws(s: Seq<char>) -> int {
    choose|k: int| is_leading_ws(s, k)
}

/// `s` without its leading whitespace (what `str::trim_start` gives).
pub open spec fn trim_ws_start(s: Seq<char>) -> Seq<char> {
    s.skip(leading_ws(s))
}

/// Whether `k` is the position of the first whitespace character of `s`.
pub open spec fn is_first_ws(s: Seq<char>, k: int) -> bool {
    &&& 0 <= k < s.len()
    &&& char_is_whitespace(s[k])
    &&& forall|j: int| 0 <= j < k ==> !char_is_whitespace(#[trigger] s[j])
}

/// `s` split around its first whitespace character, which is dropped (what
/// `str::split_once(char::is_whitespace)` gives); `None` if `s` has no whitespace.
pub open spec fn split_at_ws(s: Seq<char>) -> Option<(Seq<char>, Seq<char>)> {
    if exists|k: int| is_first_ws(s, k) {
        let k = choose|k: int| is_first_ws(s, k);
        Some((s.take(k), s.skip(k + 1)))
    } else {
        None
    }
}

/// Whether `s` consists of whitespace only (what `s.trim().is_empty()` answers).
pub open spec fn all_ws(s: Seq<char>) -> bool {
    forall|j: int| 0 <= j < s.len() ==> char_is_whitespace(#[trigger] s[j])
}

/// The position of the first character at or after `from` that is not whitespace,
/// or the length of `v` if there is none.
pub fn skip_whitespace(v: &Vec<char>, from: usize) -> (k: usize)
    requires
        from <= v@.len(),
    ensures
        from <= k <= v@.len(),
        is_leading_ws(v@.skip(from as int), k - from),
        trim_ws_start(v@.skip(from as int)) == v@.skip(k as int),
{
    let mut k = from;
    while k < v.len()
        invariant
            from <= k <= v@.len(),
            forall|j: int| from <= j < k ==> char_is_whitespace(#[trigger] v@[j]),
        ensures
            from <= k <= v@.len(),
            forall|j: int| from <= j < k ==> char_is_whitespace(#[trigger] v@[j]),
            k == v@.len() || !char_is_whitespace(v@[k as int]),
        decreases v.len() - k,
    {
        if !is_whitespace(v[k]) {
            break;
        }
        k = k + 1;
    }
    let ghost s = v@.skip(from as int);
    proof {
        assert forall|j: int| 0 <= j < k - from implies char_is_whitespace(#[trigger] s[j]) by {
            assert(s[j] == v@[from + j]);
        }
        if k < v@.len() {
            assert(s[k - from] == v@[k as int]);
        }
        assert(is_leading_ws(s, k - from));
        lemma_leading_ws_unique(s, k - from);
        assert(s.skip(k - from) =~= v@.skip(k as int));
    }
    k
}

/// The leading whitespace count is unique.
pub proof fn lemma_leading_ws_unique(s: Seq<char>, k: int)
    requires
        is_leading_ws(s, k),
    ensures
        leading_ws(s) == k,
{
    let c = leading_ws(s);
    assert(is_leading_ws(s, c));
    if c < k {
        assert(char_is_whitespace(s[c]));
    } else if c > k {
        assert(char_is_whitespace(s[k]));
    }
}

/// The first whitespace position is unique.
pub proof fn lemma_first_ws_unique(s: Seq<char>, k: int)
    requires
        is_first_ws(s, k),
    ensures
        split_at_ws(s) == Some((s.take(k), s.skip(k + 1))),
{
    let c = choose|c: int| is_first_ws(s, c);
    assert(is_first_ws(s, c));
    if c < k {
        assert(!char_is_whitespace(s[c]));
    } else if c > k {
        assert(!char_is_whitespace(s[k]));
    }
}

/// The position of the first whitespace character at or after `from`, if any.
pub fn find_whitespace(v: &Vec<char>, from: usize) -> (r: Option<usize>)
    requires
        from <= v@.len(),
    ensures
        match r {
            Some(k) => from <= k < v@.len() && is_first_ws(v@.skip(from as int), k - from)
                && split_at_ws(v@.skip(from as int)) == Some((v@.subrange(from as int, k as int), v@.skip(k + 1))),
            None => split_at_ws(v@.skip(from as int)) is None,
        },
{
    let ghost s = v@.skip(from as int);
    let mut k = from;
    while k < v.len()
        invariant
            from <= k <= v@.len(),
            s == v@.skip(from as int),
            forall|j: int| from <= j < k ==> !char_is_whitespace(#[trigger] v@[j]),
        decreases v.len() - k,
    {
        if is_whitespace(v[k]) {
            proof {
                assert forall|j: int| 0 <= j < k - from implies !char_is_whitespace(#[trigger] s[j]) by {
                    assert(s[j] == v@[from + j]);
                }
                assert(s[k - from] == v@[k as int]);
                assert(is_first_ws(s, k - from));
                lemma_first_ws_unique(s, k - from);
                assert(s.take(k - from) =~= v@.subrange(from as int, k as int));
                assert(s.skip(k - from + 1) =~= v@.skip(k + 1));
            }
            return Some(k);
        }
        k = k + 1;
    }
    proof {
        if exists|c: int| is_first_ws(s, c) {
            let c = choose|c: int| is_first_ws(s, c);
            assert(s[c] == v@[from + c]);
        }
    }
    None
}

/// Whether the string consists of whitespace only.
pub fn is_blank(s: &str) -> (b: bool)
    ensures
        b == all_ws(s@),
{
    let v = chars_of(s);
    let mut i: usize = 0;
    while i < v.len()
        invariant
            i <= v@.len(),
            v@ == s@,
            forall|j: int| 0 <= j < i ==> char_is_whitespace(#[trigger] v@[j]),
        decreases v.len() - i,
    {
        if !is_whitespace(v[i]) {
            return false;
        }
        i = i + 1;
    }
    true
}

/// A string holding the characters of `v` from `a` (inclusive) to `b` (exclusive).
pub fn string_of_range(v: &Vec<char>, a: usize, b: usize) -> (s: String)
    requires
        a <= b <= v@.len(),
    ensures
        s@ == v@.subrange(a as int, b as int),
{
    let mut s = String::new();
    let mut i = a;
    while i < b
        invariant
            a <= i <= b <= v@.len(),
            s@ == v@.subrange(a as int, i as int),
        decreases b - i,
    {
        push_char(&mut s, v[i]);
        i = i + 1;
        assert(v@.subrange(a as int, i as int) == v@.subrange(a as int, i - 1).push(v@[i - 1]));
    }
    s
}


/// The pieces of `s` between occurrences of `c` (what `str::split` gives for a
/// character pattern): always at least one piece.
pub open spec fn split_char(s: Seq<char>, c: char) -> Seq<Seq<char>>
    decreases s.len(),
{
    if s.len() == 0 {
        seq![Seq::empty()]
    } else {
        let r = split_char(s.drop_last(), c);
        if s.last() == c {
            r.push(Seq::empty())
        } else {
            r.update(r.len() - 1, r.last().push(s.last()))
        }
    }
}

/// Splitting always gives at least one piece.
pub proof fn lemma_split_char_nonempty(s: Seq<char>, c: char)
    ensures
        split_char(s, c).len() >= 1,
    decreases s.len(),
{
    if s.len() > 0 {
        lemma_split_char_nonempty(s.drop_last(), c);
    }
}

/// The pieces of `s` between occurrences of `c`, in order.
pub fn split_on(s: &str, c: char) -> (v: Vec<String>)
    ensures
        v@.map_values(|p: String| p@) == split_char(s@, c),
{
    let chars = chars_of(s);
    let mut v: Vec<String> = Vec::new();
    v.push(String::new());
    let mut i: usize = 0;
    proof {
        assert(chars@.take(0) =~= Seq::<char>::empty());
        assert(v@.map_values(|p: String| p@) =~= seq![Seq::<char>::empty()]);
    }
    while i < chars.len()
        invariant
            i <= chars@.len(),
            chars@ == s@,
            v@.len() >= 1,
            v@.map_values(|p: String| p@) == split_char(chars@.take(i as int), c),
        decreases chars.len() - i,
    {
        let ghost before = v@.map_values(|p: String| p@);
        proof {
            assert(chars@.take(i + 1).drop_last() =~= chars@.take(i as int));
            assert(chars@.take(i + 1).last() == chars@[i as int]);
        }
        if chars[i] == c {
            v.push(String::new());
            assert(v@.map_values(|p: String| p@) =~= before.push(Seq::empty()));
        } else {
            let last = v.len() - 1;
            let mut piece = String::new();
            std::mem::swap(&mut piece, &mut v[last]);
            push_char(&mut piece, chars[i]);
            v.set(last, piece);
            assert(v@.map_values(|p: String| p@) =~= before.update(before.len() - 1, before.last().push(chars@[i as int])));
        }
        i = i + 1;
    }
    assert(chars@.take(chars@.len() as int) =~= chars@);
    v
}

/// Whether `s` begins with `p`.
pub open spec fn starts_with(s: Seq<char>, p: Seq<char>) -> bool {
    p.len() <= s.len() && s.take(p.len() as int) == p
}

/// Whether `s` ends with `p`.
pub open spec fn ends_with(s: Seq<char>, p: Seq<char>) -> bool {
    p.len() <= s.len() && s.skip(s.len() - p.len()) == p
}

/// Whether the string `s` begins with `p`.
pub fn str_starts_with(s: &str, p: &str) -> (b: bool)
    ensures
        b == starts_with(s@, p@),
{
    let sc = chars_of(s);
    let pc = chars_of(p);
    if pc.len() > sc.len() {
        return false;
    }
    let mut i: usize = 0;
    while i < pc.len()
        invariant
            i <= pc@.len() <= sc@.len(),
            sc@ == s@,
            pc@ == p@,
            forall|j: int| 0 <= j < i ==> sc@[j] == pc@[j],
        decreases pc.len() - i,
    {
        if sc[i] != pc[i] {
            assert(s@.take(p@.len() as int)[i as int] != p@[i as int]);
            return false;
        }
        i = i + 1;
    }
    assert(s@.take(p@.len() as int) =~= p@);
    true
}

/// Whether the string `s` ends with `p`.
pub fn str_ends_with(s: &str, p: &str) -> (b: bool)
    ensures
        b == ends_with(s@, p@),
{
    let sc = chars_of(s);
    let pc = chars_of(p);
    if pc.len() > sc.len() {
        return false;
    }
    let off = sc.len() - pc.len();
    let mut i: usize = 0;
    while i < pc.len()
        invariant
            i <= pc@.len() <= sc@.len(),
            off + pc@.len() == sc@.len(),
            sc@.len() == sc.len(),
            sc@ == s@,
            pc@ == p@,
            forall|j: int| 0 <= j < i ==> sc@[off + j] == pc@[j],
        decreases pc.len() - i,
    {
        if sc[off + i] != pc[i] {
            assert(s@.skip(s@.len() - p@.len())[i as int] != p@[i as int]);
            return false;
        }
        i = i + 1;
    }
    assert(s@.skip(s@.len() - p@.len()) =~= p@);
    true
}


/// Whether `k` is the number of trailing whitespace characters of `s`.
pub open spec fn is_trailing_ws(s: Seq<char>, k: int) -> bool {
    &&& 0 <= k <= s.len()
    &&& forall|j: int| s.len() - k <= j < s.len() ==> char_is_whitespace(#[trigger] s[j])
    &&& (k == s.len() || !char_is_whitespace(s[s.len() - k - 1]))
}

/// The number of trailing whitespace characters of `s`.
pub open spec fn trailing_ws(s: Seq<char>) -> int {
    choose|k: int| is_trailing_ws(s, k)
}

/// `s` without whitespace at either end (what `str::trim` gives).
pub open spec fn trim_ws(s: Seq<char>) -> Seq<char> {
    let t = trim_ws_start(s);
    t.take(t.len() - trailing_ws(t))
}

/// The trailing whitespace count is unique.
pub proof fn lemma_trailing_ws_unique(s: Seq<char>, k: int)
    requires
        is_trailing_ws(s, k),
    ensures
        trailing_ws(s) == k,
{
    let c = trailing_ws(s);
    assert(is_trailing_ws(s, c));
    if c < k {
        assert(char_is_whitespace(s[s.len() - c - 1]));
    } else if c > k {
        assert(char_is_whitespace(s[s.len() - k - 1]));
    }
}

/// The string without whitespace at either end.
pub fn str_trim(s: &str) -> (r: String)
    ensures
        r@ == trim_ws(s@),
{
    let v = chars_of(s);
    let a = skip_whitespace(&v, 0);
    assert(v@.skip(0) =~= v@);
    let ghost t = v@.skip(a as int);
    let mut e = v.len();
    while e > a && is_whitespace(v[e - 1])
        invariant
            a <= e <= v@.len(),
            t == v@.skip(a as int),
            forall|j: int| e <= j < v@.len() ==> char_is_whitespace(#[trigger] v@[j]),
        decreases e,
    {
        e = e - 1;
    }
    proof {
        let k = v@.len() - e;
        assert forall|j: int| t.len() - k <= j < t.len() implies char_is_whitespace(#[trigger] t[j]) by {
            assert(t[j] == v@[a + j]);
        }
        if k < t.len() {
            assert(t[t.len() - k - 1] == v@[e - 1]);
        }
        assert(is_trailing_ws(t, k));
        lemma_trailing_ws_unique(t, k);
        assert(t.take(t.len() - k) =~= v@.subrange(a as int, e as int));
    }
    string_of_range(&v, a, e)
}

/// `p` without one trailing carriage return, if it has one.
pub open spec fn strip_cr(p: Seq<char>) -> Seq<char> {
    if p.len() > 0 && p.last() == '\r' {
        p.drop_last()
    } else {
        p
    }
}

/// The lines of `s` (what `str::lines` gives): split at `\n`, a `\r` right before a
/// `\n` dropped, and no empty line after a final `\n`.
pub open spec fn lines_of(s: Seq<char>) -> Seq<Seq<char>> {
    let ps = split_char(s, '\n');
    let body = ps.drop_last().map_values(|p: Seq<char>| strip_cr(p));
    if ps.last().len() == 0 {
        body
    } else {
        body.push(ps.last())
    }
}

/// Lines joined by `\n` (what `[&str]::join("\n")` gives).
pub open spec fn join_lines(ls: Seq<Seq<char>>) -> Seq<char>
    decreases ls.len(),
{
    if ls.len() == 0 {
        Seq::empty()
    } else if ls.len() == 1 {
        ls[0]
    } else {
        join_lines(ls.drop_last()) + seq!['\n'] + ls.last()
    }
}

/// The lines of a string.
pub fn lines(s: &str) -> (v: Vec<String>)
    ensures
        v@.map_values(|p: String| p@) == lines_of(s@),
{
    let pieces = split_on(s, '\n');
    let ghost ps = pieces@.map_values(|p: String| p@);
    proof {
        lemma_split_char_nonempty(s@, '\n');
    }
    let n = pieces.len();
    let mut out: Vec<String> = Vec::new();
    let mut i: usize = 0;
    while i + 1 < n
        invariant
            n == pieces@.len(),
            n >= 1,
            i + 1 <= n,
            ps == pieces@.map_values(|p: String| p@),
            out@.map_values(|p: String| p@) == ps.take(i as int).map_values(|p: Seq<char>| strip_cr(p)),
        decreases n - i,
    {
        let pc = chars_of(pieces[i].as_str());
        let line = if pc.len() > 0 && pc[pc.len() - 1] == '\r' {
            string_of_range(&pc, 0, pc.len() - 1)
        } else {
            string_of_range(&pc, 0, pc.len())
        };
        let ghost before = out@.map_values(|p: String| p@);
        out.push(line);
        proof {
            assert(pc@.subrange(0, pc@.len() as int) =~= pc@);
            assert(pc@.subrange(0, pc@.len() - 1) =~= pc@.drop_last());
            assert(ps.take(i + 1) =~= ps.take(i as int).push(ps[i as int]));
            assert(out@.map_values(|p: String| p@) =~= before.push(strip_cr(ps[i as int])));
            assert(ps.take(i + 1).map_values(|p: Seq<char>| strip_cr(p)) =~= ps.take(i as int).map_values(|p: Seq<char>| strip_cr(p)).push(strip_cr(ps[i as int])));
        }
        i = i + 1;
    }
    assert(ps.take(i as int) =~= ps.drop_last());
    if !pieces[n - 1].as_str().is_empty() {
        let ghost before = out@.map_values(|p: String| p@);
        out.push(pieces[n - 1].clone());
        assert(out@.map_values(|p: String| p@) =~= before.push(ps.last()));
    }
    out
}

/// The lines `ls[a..b]` joined by `\n`.
pub fn join_range(ls: &Vec<String>, a: usize, b: usize) -> (s: String)
    requires
        a <= b <= ls@.len(),
    ensures
        s@ == join_lines(ls@.map_values(|p: String| p@).subrange(a as int, b as int)),
{
    let ghost lv = ls@.map_values(|p: String| p@);
    let mut s = String::new();
    let mut i = a;
    assert(lv.subrange(a as int, a as int) =~= Seq::<Seq<char>>::empty());
    while i < b
        invariant
            a <= i <= b <= ls@.len(),
            lv == ls@.map_values(|p: String| p@),
            s@ == join_lines(lv.subrange(a as int, i as int)),
        decreases b - i,
    {
        if i > a {
            push_char(&mut s, '\n');
        }
        push_str(&mut s, ls[i].as_str());
        proof {
            assert(lv.subrange(a as int, i + 1).drop_last() =~= lv.subrange(a as int, i as int));
            assert(lv.subrange(a as int, i + 1).last() == lv[i as int]);
            if i == a {
                assert(lv.subrange(a as int, i + 1)[0] == lv[i as int]);
            }
        }
        i = i + 1;
        assert(s@ =~= join_lines(lv.subrange(a as int, i as int)));
    }
    s
}

} // verus!
