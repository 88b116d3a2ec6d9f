//! Verified character and string helpers shared by the mediation
//! components: trimming, ASCII case mapping, substring search,
//! lexicographic comparison and decimal formatting.

use vstd::prelude::*;

verus! {

/// Relies on `String::push`: appends exactly the one character.
#[verifier::external_body]
pub fn push_char(s: &mut String, c: char)
    ensures
        final(s)@ == old(s)@.push(c),
{
    s.push(c);
}

/// Decides whether two string slices hold the same characters.
pub fn str_eq(a: &str, b: &str) -> (r: bool)
    ensures
        r == (a@ == b@),
{
    let n = a.unicode_len();
    if n != b.unicode_len() {
        assert(a@ != b@);
        return false;
    }
    let mut i: usize = 0;
    while i < n
        invariant
            n == a@.len() && n == b@.len(),
            0 <= i <= n,
            forall|k: int| 0 <= k < i ==> a@[k] == b@[k],
        decreases n - i,
    {
        if a.get_char(i) != b.get_char(i) {
            return false;
        }
        i = i + 1;
    }
    proof {
        assert(a@ =~= b@);
    }
    true
}

/// Decides whether `p` is a prefix of `h`.
pub fn starts_with_str(h: &str, p: &str) -> (r: bool)
    ensures
        r == p@.is_prefix_of(h@),
{
    let m = p.unicode_len();
    if m > h.unicode_len() {
        return false;
    }
    let mut i: usize = 0;
    while i < m
        invariant
            m == p@.len(),
            m <= h@.len(),
            0 <= i <= m,
            forall|k: int| 0 <= k < i ==> h@[k] == p@[k],
        decreases m - i,
    {
        if h.get_char(i) != p.get_char(i) {
            assert(!p@.is_prefix_of(h@));
            return false;
        }
        i = i + 1;
    }
    proof {
        assert(h@.subrange(0, m as int) =~= p@);
    }
    true
}

/// A whitespace character: the Unicode `White_Space` set, as
/// `char::is_whitespace` decides it.
pub open spec fn is_ws_char(c: char) -> bool {
    ||| c as u32 >= 0x9 && c as u32 <= 0xd
    ||| c == ' '
    ||| c as u32 == 0x85
    ||| c as u32 == 0xa0
    ||| c as u32 == 0x1680
    ||| c as u32 >= 0x2000 && c as u32 <= 0x200a
    ||| c as u32 == 0x2028
    ||| c as u32 == 0x2029
    ||| c as u32 == 0x202f
    ||| c as u32 == 0x205f
    ||| c as u32 == 0x3000
}

/// The number of leading whitespace characters of `s`.
pub open spec fn ws_prefix_len(s: Seq<char>) -> int
    decreases s.len(),
{
    if s.len() == 0 {
        0
    } else if is_ws_char(s[0]) {
        1 + ws_prefix_len(s.drop_first())
    } else {
        0
    }
}

/// One past the last non-whitespace character of `s`; 0 when `s` is
/// all whitespace.
pub open spec fn ws_suffix_start(s: Seq<char>) -> int
    decreases s.len(),
{
    if s.len() == 0 {
        0
    } else if is_ws_char(s.last()) {
        ws_suffix_start(s.drop_last())
    } else {
        s.len() as int
    }
}

/// `s` with leading and trailing whitespace removed.
pub open spec fn trim_spec(s: Seq<char>) -> Seq<char> {
    if ws_suffix_start(s) <= ws_prefix_len(s) {
        Seq::empty()
    } else {
        s.subrange(ws_prefix_len(s), ws_suffix_start(s))
    }
}

proof fn lemma_ws_prefix(s: Seq<char>)
    ensures
        0 <= ws_prefix_len(s) <= s.len(),
        forall|k: int| 0 <= k < ws_prefix_len(s) ==> is_ws_char(#[trigger] s[k]),
        ws_prefix_len(s) < s.len() ==> !is_ws_char(s[ws_prefix_len(s)]),
    decreases s.len(),
{
    if s.len() > 0 && is_ws_char(s[0]) {
        lemma_ws_prefix(s.drop_first());
        assert forall|k: int| 0 <= k < ws_prefix_len(s) implies is_ws_char(#[trigger] s[k]) by {
            if k > 0 {
                assert(s.drop_first()[k - 1] == s[k]);
            }
        }
    }
}

proof fn lemma_ws_suffix(s: Seq<char>)
    ensures
        0 <= ws_suffix_start(s) <= s.len(),
        forall|k: int| ws_suffix_start(s) <= k < s.len() ==> is_ws_char(#[trigger] s[k]),
        ws_suffix_start(s) > 0 ==> !is_ws_char(s[ws_suffix_start(s) - 1]),
    decreases s.len(),
{
    if s.len() > 0 && is_ws_char(s.last()) {
        lemma_ws_suffix(s.drop_last());
        assert forall|k: int| ws_suffix_start(s) <= k < s.len() implies is_ws_char(
            #[trigger] s[k],
        ) by {
            if k < s.len() - 1 {
                assert(s.drop_last()[k] == s[k]);
            }
        }
    }
}

/// Decides whether `c` is whitespace.
pub fn is_ws(c: char) -> (r: bool)
    ensures
        r == is_ws_char(c),
{
    let u = c as u32;
    (u >= 0x9 && u <= 0xd) || c == ' ' || u == 0x85 || u == 0xa0 || u == 0x1680 || (u >= 0x2000
        && u <= 0x200a) || u == 0x2028 || u == 0x2029 || u == 0x202f || u == 0x205f || u == 0x3000
}

/// Returns `s` with leading and trailing whitespace removed.
pub fn trim_str<'a>(s: &'a str) -> (r: &'a str)
    ensures
        r@ == trim_spec(s@),
{
    let n = s.unicode_len();
    proof {
        lemma_ws_prefix(s@);
        lemma_ws_suffix(s@);
    }
    let mut a: usize = 0;
    while a < n && is_ws(s.get_char(a))
        invariant
            n == s@.len(),
            0 <= a <= n,
            forall|k: int| 0 <= k < a ==> is_ws_char(#[trigger] s@[k]),
        decreases n - a,
    {
        a = a + 1;
    }
    proof {
        assert(a as int == ws_prefix_len(s@)) by {
            lemma_ws_prefix(s@);
            let f = ws_prefix_len(s@);
            if f < a as int {
                assert(is_ws_char(s@[f]));
            }
            if (a as int) < f {
                assert(is_ws_char(s@[a as int]));
            }
        }
    }
    if a == n {
        let r = s.substring_char(0, 0);
        proof {
            assert(r@ =~= trim_spec(s@));
        }
        return r;
    }
    let mut b: usize = n;
    while b > a && is_ws(s.get_char(b - 1))
        invariant
            n == s@.len(),
            a <= b <= n,
            forall|k: int| b <= k < n ==> is_ws_char(#[trigger] s@[k]),
            !is_ws_char(s@[a as int]),
        decreases b,
    {
        b = b - 1;
    }
    proof {
        assert(b as int == ws_suffix_start(s@)) by {
            lemma_ws_suffix(s@);
            let g = ws_suffix_start(s@);
            if g < b as int {
                assert(!is_ws_char(s@[b as int - 1]));
                assert(g <= b as int - 1 < s@.len());
            }
            if (b as int) < g {
                assert(is_ws_char(s@[g - 1]));
            }
        }
    }
    let r = s.substring_char(a, b);
    proof {
        assert(r@ =~= trim_spec(s@));
    }
    r
}

/// An ASCII lower-case letter.
pub open spec fn is_lower_char(c: char) -> bool {
    'a' as u32 <= c as u32 && c as u32 <= 'z' as u32
}

/// An ASCII upper-case letter.
pub open spec fn is_upper_char(c: char) -> bool {
    'A' as u32 <= c as u32 && c as u32 <= 'Z' as u32
}

/// `c` with an ASCII lower-case letter mapped to upper case.
pub open spec fn upper_char(c: char) -> char {
    if is_lower_char(c) {
        (c as u32 - 32) as char
    } else {
        c
    }
}

/// `c` with an ASCII upper-case letter mapped to lower case.
pub open spec fn lower_char(c: char) -> char {
    if is_upper_char(c) {
        (c as u32 + 32) as char
    } else {
        c
    }
}

/// `s` mapped character-wise to upper case.
pub open spec fn upper_chars(s: Seq<char>) -> Seq<char> {
    s.map_values(|c: char| upper_char(c))
}

/// `s` mapped character-wise to lower case.
pub open spec fn lower_chars(s: Seq<char>) -> Seq<char> {
    s.map_values(|c: char| lower_char(c))
}

/// Maps one character to ASCII upper case.
pub fn char_upper(c: char) -> (r: char)
    ensures
        r == upper_char(c),
{
    let u = c as u32;
    if 97 <= u && u <= 122 {
        ((u - 32) as u8) as char
    } else {
        c
    }
}

/// Maps one character to ASCII lower case.
pub fn char_lower(c: char) -> (r: char)
    ensures
        r == lower_char(c),
{
    let u = c as u32;
    if 65 <= u && u <= 90 {
        ((u + 32) as u8) as char
    } else {
        c
    }
}

/// Returns `s` mapped character-wise to ASCII upper case.
pub fn ascii_upper(s: &str) -> (r: String)
    ensures
        r@ == upper_chars(s@),
{
    let n = s.unicode_len();
    let mut out = String::new();
    let mut i: usize = 0;
    while i < n
        invariant
            n == s@.len(),
            0 <= i <= n,
            out@ == upper_chars(s@.take(i as int)),
        decreases n - i,
    {
        let c = char_upper(s.get_char(i));
        push_char(&mut out, c);
        proof {
            assert(out@ =~= upper_chars(s@.take(i + 1)));
        }
        i = i + 1;
    }
    proof {
        assert(s@.take(n as int) =~= s@);
    }
    out
}

/// Returns `s` mapped character-wise to ASCII lower case.
pub fn ascii_lower(s: &str) -> (r: String)
    ensures
        r@ == lower_chars(s@),
{
    let n = s.unicode_len();
    let mut out = String::new();
    let mut i: usize = 0;
    while i < n
        invariant
            n == s@.len(),
            0 <= i <= n,
            out@ == lower_chars(s@.take(i as int)),
        decreases n - i,
    {
        let c = char_lower(s.get_char(i));
        push_char(&mut out, c);
        proof {
            assert(out@ =~= lower_chars(s@.take(i + 1)));
        }
        i = i + 1;
    }
    proof {
        assert(s@.take(n as int) =~= s@);
    }
    out
}

/// `needle` occurs as a contiguous run somewhere in `hay`.
pub open spec fn contains_seq(hay: Seq<char>, needle: Seq<char>) -> bool {
    exists|i: int|
        0 <= i && i + needle.len() <= hay.len() && #[trigger] hay.subrange(i, i + needle.len())
            == needle
}

/// Decides whether `needle` occurs as a substring of `hay`.
pub fn contains_str(hay: &str, needle: &str) -> (r: bool)
    ensures
        r == contains_seq(hay@, needle@),
{
    let n = hay.unicode_len();
    let m = needle.unicode_len();
    if m > n {
        return false;
    }
    if m == 0 {
        proof {
            assert(hay@.subrange(0, 0 + needle@.len() as int) =~= needle@);
        }
        return true;
    }
    let mut i: usize = 0;
    while i <= n - m
        invariant
            n == hay@.len(),
            m == needle@.len(),
            1 <= m <= n,
            0 <= i <= n - m + 1,
            forall|ii: int| 0 <= ii < i ==> #[trigger] hay@.subrange(ii, ii + m as int) != needle@,
        decreases n - i,
    {
        let mut j: usize = 0;
        let mut hit = true;
        while j < m
            invariant
                n == hay@.len(),
                m == needle@.len(),
                0 <= i <= n - m,
                0 <= j <= m,
                hit ==> forall|k: int| 0 <= k < j ==> hay@[i + k] == needle@[k],
                !hit ==> hay@.subrange(i as int, i + m as int) != needle@,
            decreases m - j,
        {
            if hay.get_char(i + j) != needle.get_char(j) {
                proof {
                    assert(hay@.subrange(i as int, i + m as int)[j as int] != needle@[j as int]);
                }
                hit = false;
                j = m;
            } else {
                j = j + 1;
            }
        }
        if hit {
            proof {
                assert(hay@.subrange(i as int, i + m as int) =~= needle@);
            }
            return true;
        }
        i = i + 1;
    }
    proof {
        assert forall|ii: int|
            !(0 <= ii && ii + needle@.len() <= hay@.len() && #[trigger] hay@.subrange(
                ii,
                ii + needle@.len(),
            ) == needle@) by {
            if 0 <= ii && ii + needle@.len() <= hay@.len() {
                assert(ii < i);
            }
        }
    }
    false
}

/// Lexicographic order on character sequences, by Unicode scalar value.
pub open spec fn lex_leq(a: Seq<char>, b: Seq<char>) -> bool
    decreases a.len(),
{
    if a.len() == 0 {
        true
    } else if b.len() == 0 {
        false
    } else if (a[0] as u32) < (b[0] as u32) {
        true
    } else if (a[0] as u32) > (b[0] as u32) {
        false
    } else {
        lex_leq(a.drop_first(), b.drop_first())
    }
}

/// Law: the lexicographic order is total.
pub proof fn lemma_lex_total(a: Seq<char>, b: Seq<char>)
    ensures
        lex_leq(a, b) || lex_leq(b, a),
    decreases a.len(),
{
    if a.len() > 0 && b.len() > 0 && a[0] as u32 == b[0] as u32 {
        lemma_lex_total(a.drop_first(), b.drop_first());
    }
}

/// Law: the lexicographic order is transitive.
pub proof fn lemma_lex_trans(a: Seq<char>, b: Seq<char>, c: Seq<char>)
    requires
        lex_leq(a, b),
        lex_leq(b, c),
    ensures
        lex_leq(a, c),
    decreases a.len(),
{
    if a.len() > 0 && b.len() > 0 && c.len() > 0 {
        if a[0] as u32 == b[0] as u32 && b[0] as u32 == c[0] as u32 {
            lemma_lex_trans(a.drop_first(), b.drop_first(), c.drop_first());
        }
    }
}

proof fn lemma_lex_skip(a: Seq<char>, b: Seq<char>, i: int)
    requires
        0 <= i <= a.len(),
        i <= b.len(),
        forall|k: int| 0 <= k < i ==> a[k] == b[k],
    ensures
        lex_leq(a, b) == lex_leq(a.skip(i), b.skip(i)),
    decreases i,
{
    if i == 0 {
        assert(a.skip(0) =~= a);
        assert(b.skip(0) =~= b);
    } else {
        assert(a[0] == b[0]);
        assert(a.drop_first() =~= a.skip(1));
        assert(b.drop_first() =~= b.skip(1));
        assert(a.drop_first().skip(i - 1) =~= a.skip(i));
        assert(b.drop_first().skip(i - 1) =~= b.skip(i));
        assert(forall|k: int| 0 <= k < i - 1 ==> a.drop_first()[k] == b.drop_first()[k]);
        lemma_lex_skip(a.drop_first(), b.drop_first(), i - 1);
    }
}

/// Decides whether `a` comes no later than `b` in lexicographic order.
pub fn str_leq(a: &str, b: &str) -> (r: bool)
    ensures
        r == lex_leq(a@, b@),
{
    let n = a.unicode_len();
    let m = b.unicode_len();
    let min: usize = if n < m {
        n
    } else {
        m
    };
    let mut i: usize = 0;
    while i < min
        invariant
            n == a@.len(),
            m == b@.len(),
            min == if n < m {
                n
            } else {
                m
            },
            0 <= i <= min,
            forall|k: int| 0 <= k < i ==> a@[k] == b@[k],
        decreases min - i,
    {
        let ca = a.get_char(i);
        let cb = b.get_char(i);
        if (ca as u32) < (cb as u32) {
            proof {
                lemma_lex_skip(a@, b@, i as int);
                assert(a@.skip(i as int)[0] == ca);
                assert(b@.skip(i as int)[0] == cb);
            }
            return true;
        }
        if (ca as u32) > (cb as u32) {
            proof {
                lemma_lex_skip(a@, b@, i as int);
                assert(a@.skip(i as int)[0] == ca);
                assert(b@.skip(i as int)[0] == cb);
            }
            return false;
        }
        proof {
            vstd::utf8::char_u32_cast(ca, ca as u32);
            vstd::utf8::char_u32_cast(cb, cb as u32);
            assert(ca == cb);
        }
        i = i + 1;
    }
    proof {
        lemma_lex_skip(a@, b@, min as int);
        if n <= m {
            assert(a@.skip(min as int).len() == 0);
        } else {
            assert(a@.skip(min as int).len() > 0);
            assert(b@.skip(min as int).len() == 0);
        }
    }
    n <= m
}

/// The index of the first occurrence of `c` in `s`; `s.len()` when
/// `c` does not occur.
pub open spec fn first_index_of(s: Seq<char>, c: char) -> int
    decreases s.len(),
{
    if s.len() == 0 {
        0
    } else if s[0] == c {
        0
    } else {
        1 + first_index_of(s.drop_first(), c)
    }
}

pub proof fn lemma_first_index_of(s: Seq<char>, c: char)
    ensures
        0 <= first_index_of(s, c) <= s.len(),
        forall|k: int| 0 <= k < first_index_of(s, c) ==> s[k] != c,
        first_index_of(s, c) < s.len() ==> s[first_index_of(s, c)] == c,
    decreases s.len(),
{
    if s.len() > 0 && s[0] != c {
        lemma_first_index_of(s.drop_first(), c);
        assert forall|k: int| 0 <= k < first_index_of(s, c) implies s[k] != c by {
            if k > 0 {
                assert(s.drop_first()[k - 1] == s[k]);
            }
        }
    }
}

/// The index of the first occurrence of `c` in `s`, or `s`'s length
/// when `c` does not occur.
pub fn find_char(s: &str, c: char) -> (r: usize)
    ensures
        r as int == first_index_of(s@, c),
{
    let n = s.unicode_len();
    let mut i: usize = 0;
    while i < n && s.get_char(i) != c
        invariant
            n == s@.len(),
            0 <= i <= n,
            forall|k: int| 0 <= k < i ==> s@[k] != c,
        decreases n - i,
    {
        i = i + 1;
    }
    proof {
        lemma_first_index_of(s@, c);
        let f = first_index_of(s@, c);
        if f < i as int {
            assert(s@[f] != c);
        }
        if (i as int) < f {
            assert(s@[i as int] != c);
        }
    }
    i
}

/// The index of the first whitespace character of `s`; `s.len()` when
/// there is none.
pub open spec fn first_ws_index(s: Seq<char>) -> int
    decreases s.len(),
{
    if s.len() == 0 {
        0
    } else if is_ws_char(s[0]) {
        0
    } else {
        1 + first_ws_index(s.drop_first())
    }
}

pub proof fn lemma_first_ws_index(s: Seq<char>)
    ensures
        0 <= first_ws_index(s) <= s.len(),
        forall|k: int| 0 <= k < first_ws_index(s) ==> !is_ws_char(#[trigger] s[k]),
        first_ws_index(s) < s.len() ==> is_ws_char(s[first_ws_index(s)]),
    decreases s.len(),
{
    if s.len() > 0 && !is_ws_char(s[0]) {
        lemma_first_ws_index(s.drop_first());
        assert forall|k: int| 0 <= k < first_ws_index(s) implies !is_ws_char(#[trigger] s[k]) by {
            if k > 0 {
                assert(s.drop_first()[k - 1] == s[k]);
            }
        }
    }
}

/// The index of the first whitespace character of `s`, or `s`'s
/// length when there is none.
pub fn find_ws(s: &str) -> (r: usize)
    ensures
        r as int == first_ws_index(s@),
{
    let n = s.unicode_len();
    let mut i: usize = 0;
    while i < n && !is_ws(s.get_char(i))
        invariant
            n == s@.len(),
            0 <= i <= n,
            forall|k: int| 0 <= k < i ==> !is_ws_char(#[trigger] s@[k]),
        decreases n - i,
    {
        i = i + 1;
    }
    proof {
        lemma_first_ws_index(s@);
        let f = first_ws_index(s@);
        if f < i as int {
            assert(!is_ws_char(s@[f]));
        }
        if (i as int) < f {
            assert(!is_ws_char(s@[i as int]));
        }
    }
    i
}

/// The decimal digit character for `d`, which must lie in 0 .. 9.
pub open spec fn dec_digit(d: int) -> char {
    (48 + d) as char
}

/// The decimal representation of `n`, most significant digit first,
/// without leading zeros.
pub open spec fn dec_str(n: nat) -> Seq<char>
    decreases n,
{
    if n < 10 {
        seq![dec_digit(n as int)]
    } else {
        dec_str(n / 10).push(dec_digit((n % 10) as int))
    }
}

/// Formats `n` in decimal.
pub fn u64_to_dec(n: u64) -> (r: String)
    ensures
        r@ == dec_str(n as nat),
{
    let mut digits: Vec<char> = Vec::new();
    let mut m: u64 = n;
    proof {
        assert(dec_str(n as nat) =~= dec_str(n as nat) + digits@.reverse());
    }
    loop
        invariant_except_break
            dec_str(n as nat) == dec_str(m as nat) + digits@.reverse(),
        ensures
            m == 0,
            dec_str(n as nat) == digits@.reverse(),
        decreases m,
    {
        let ghost odig = digits@;
        let d: u8 = (m % 10) as u8;
        let c: char = (48 + d) as char;
        digits.push(c);
        proof {
            assert(c == dec_digit((m % 10) as int));
            assert(digits@.reverse() =~= seq![c] + odig.reverse());
        }
        if m < 10 {
            proof {
                assert(dec_str(m as nat) =~= seq![c]);
                assert(dec_str(n as nat) =~= digits@.reverse()) by {
                    assert(dec_str(n as nat) == dec_str(m as nat) + odig.reverse());
                    assert(dec_str(m as nat) + odig.reverse() =~= seq![c] + odig.reverse());
                }
            }
            m = 0;
            break ;
        }
        proof {
            assert(dec_str(m as nat) == dec_str((m / 10) as nat).push(dec_digit((m % 10) as int)));
            assert(dec_str(n as nat) =~= dec_str((m / 10) as nat) + digits@.reverse()) by {
                assert(dec_str(n as nat) == dec_str(m as nat) + odig.reverse());
                assert(dec_str((m / 10) as nat).push(c) + odig.reverse() =~= dec_str((m / 10) as nat)
                    + (seq![c] + odig.reverse()));
            }
        }
        m = m / 10;
    }
    let mut out = String::new();
    let k = digits.len();
    let mut j: usize = 0;
    while j < k
        invariant
            k == digits@.len(),
            0 <= j <= k,
            out@ == digits@.reverse().take(j as int),
        decreases k - j,
    {
        let c = digits[k - 1 - j];
        push_char(&mut out, c);
        proof {
            assert(digits@.reverse()[j as int] == digits@[k - 1 - j as int]);
            assert(out@ =~= digits@.reverse().take(j + 1));
        }
        j = j + 1;
    }
    proof {
        assert(digits@.reverse().take(k as int) =~= digits@.reverse());
    }
    out
}

} // verus!
