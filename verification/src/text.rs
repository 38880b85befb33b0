//! Text helpers over `char` sequences: searching, splitting, trimming and
//! decimal numerals.

use vstd::prelude::*;

verus! {

/// `c` is a Unicode `White_Space` code point, the set that `char::is_whitespace`
/// and `str::trim` use.
pub open spec fn is_unicode_whitespace(c: char) -> bool {
    let u = c as u32;
    ||| 0x09 <= u <= 0x0d
    ||| u == 0x20
    ||| u == 0x85
    ||| u == 0xa0
    ||| u == 0x1680
    ||| 0x2000 <= u <= 0x200a
    ||| u == 0x2028
    ||| u == 0x2029
    ||| u == 0x202f
    ||| u == 0x205f
    ||| u == 0x3000
}

/// Decides `is_unicode_whitespace`.
pub fn is_whitespace_char(c: char) -> (r: bool)
    ensures
        r == is_unicode_whitespace(c),
{
    let u = c as u32;
    (0x09 <= u && u <= 0x0d) || u == 0x20 || u == 0x85 || u == 0xa0 || u == 0x1680 || (0x2000
        <= u && u <= 0x200a) || u == 0x2028 || u == 0x2029 || u == 0x202f || u == 0x205f || u
        == 0x3000
}

/// `String::push`: appends one character.
#[verifier::external_body]
pub fn push_char(s: &mut String, c: char)
    ensures
        final(s)@ == old(s)@.push(c),
{
    s.push(c)
}

/// Whether two texts hold the same characters, compared through their UTF-8
/// bytes.
pub fn str_eq(a: &str, b: &str) -> (r: bool)
    ensures
        r == (a@ == b@),
{
    let x = a.as_bytes();
    let y = b.as_bytes();
    assert(x@ == vstd::utf8::encode_utf8(a@));
    assert(y@ == vstd::utf8::encode_utf8(b@));
    proof {
        vstd::utf8::encode_utf8_decode_utf8(a@);
        vstd::utf8::encode_utf8_decode_utf8(b@);
    }
    if x.len() != y.len() {
        return false;
    }
    let mut i: usize = 0;
    while i < x.len()
        invariant
            x@ == vstd::utf8::encode_utf8(a@),
            y@ == vstd::utf8::encode_utf8(b@),
            x@.len() == y@.len(),
            i <= x@.len(),
            forall|j: int| 0 <= j < i ==> x@[j] == y@[j],
        decreases x@.len() - i,
    {
        if x[i] != y[i] {
            assert(x@ != y@);
            assert(a@ != b@);
            return false;
        }
        i += 1;
    }
    assert(x@ == y@);
    true
}

/// The characters `c` such that `c == target`.
pub open spec fn is_char(target: char) -> spec_fn(char) -> bool {
    |c: char| c == target
}

/// The characters other than `target`.
pub open spec fn other_than(target: char) -> spec_fn(char) -> bool {
    |c: char| c != target
}

/// The characters that are not white space.
pub open spec fn not_whitespace() -> spec_fn(char) -> bool {
    |c: char| !is_unicode_whitespace(c)
}

/// The index of the first character of `s` that satisfies `p`, or the length
/// of `s` when none does.
pub open spec fn first_match(s: Seq<char>, p: spec_fn(char) -> bool) -> int
    decreases s.len(),
{
    if s.len() == 0 {
        0
    } else if p(s[0]) {
        0
    } else {
        1 + first_match(s.drop_first(), p)
    }
}

/// The index just after the last character of `s` that satisfies `p`, or 0
/// when none does.
pub open spec fn end_of_last_match(s: Seq<char>, p: spec_fn(char) -> bool) -> int
    decreases s.len(),
{
    if s.len() == 0 {
        0
    } else if p(s.last()) {
        s.len() as int
    } else {
        end_of_last_match(s.drop_last(), p)
    }
}

/// `first_match` is the one index before which nothing satisfies `p` and at
/// which, unless it is the end, something does.
pub proof fn lemma_first_match(s: Seq<char>, p: spec_fn(char) -> bool)
    ensures
        0 <= first_match(s, p) <= s.len(),
        forall|j: int| 0 <= j < first_match(s, p) ==> !p(#[trigger] s[j]),
        first_match(s, p) < s.len() ==> p(s[first_match(s, p)]),
    decreases s.len(),
{
    if s.len() > 0 && !p(s[0]) {
        lemma_first_match(s.drop_first(), p);
        assert forall|j: int| 0 <= j < first_match(s, p) implies !p(#[trigger] s[j]) by {
            if j > 0 {
                assert(s[j] == s.drop_first()[j - 1]);
            }
        }
    }
}

/// `end_of_last_match` is the one index after which nothing satisfies `p` and
/// just before which, unless it is 0, something does.
pub proof fn lemma_end_of_last_match(s: Seq<char>, p: spec_fn(char) -> bool)
    ensures
        0 <= end_of_last_match(s, p) <= s.len(),
        forall|j: int| end_of_last_match(s, p) <= j < s.len() ==> !p(#[trigger] s[j]),
        end_of_last_match(s, p) > 0 ==> p(s[end_of_last_match(s, p) - 1]),
    decreases s.len(),
{
    if s.len() > 0 && !p(s.last()) {
        lemma_end_of_last_match(s.drop_last(), p);
        assert forall|j: int| end_of_last_match(s, p) <= j < s.len() implies !p(#[trigger] s[j]) by {
            if j < s.len() - 1 {
                assert(s[j] == s.drop_last()[j]);
            }
        }
    }
}

/// The part of `s` before its first `sep`, and the part after it when there is
/// one: what `str::split_once` gives, with the whole text when `sep` is absent.
pub open spec fn split_once(s: Seq<char>, sep: char) -> (Seq<char>, Option<Seq<char>>) {
    let i = first_match(s, is_char(sep));
    if i < s.len() {
        (s.take(i), Some(s.skip(i + 1)))
    } else {
        (s, None)
    }
}

/// `s` without white space at either end (`str::trim`).
pub open spec fn trim(s: Seq<char>) -> Seq<char> {
    let a = first_match(s, not_whitespace());
    let e = end_of_last_match(s, not_whitespace());
    if a < e {
        s.subrange(a, e)
    } else {
        Seq::empty()
    }
}

/// `trim` removes white space only, and all of it at both ends: what it gives
/// is a contiguous part of `s`, everything outside that part is white space,
/// and the part neither starts nor ends with white space.
pub proof fn lemma_trim(s: Seq<char>)
    ensures
        exists|a: int, e: int|
            {
                &&& 0 <= a <= e <= s.len()
                &&& #[trigger] s.subrange(a, e) == trim(s)
                &&& forall|j: int| 0 <= j < a ==> is_unicode_whitespace(#[trigger] s[j])
                &&& forall|j: int| e <= j < s.len() ==> is_unicode_whitespace(#[trigger] s[j])
            },
        trim(s).len() > 0 ==> !is_unicode_whitespace(trim(s)[0]) && !is_unicode_whitespace(
            trim(s).last(),
        ),
{
    let p = not_whitespace();
    lemma_first_match(s, p);
    lemma_end_of_last_match(s, p);
    let a = first_match(s, p);
    let e = end_of_last_match(s, p);
    if a < e {
        assert(forall|j: int| 0 <= j < a ==> !p(#[trigger] s[j]));
        assert(s.subrange(a, e) == trim(s));
    } else {
        assert forall|j: int| 0 <= j < s.len() implies is_unicode_whitespace(#[trigger] s[j]) by {
            if j >= e {
                assert(!p(s[j]));
            } else {
                assert(j < a);
                assert(!p(s[j]));
            }
        }
        assert(s.subrange(0, 0) == trim(s));
    }
}

/// `s` without the copies of `c` at its end (`str::trim_end_matches` with a char).
pub open spec fn trim_end_char(s: Seq<char>, c: char) -> Seq<char> {
    s.take(end_of_last_match(s, other_than(c)))
}

/// The characters of `s`, one per element.
pub fn chars_of(s: &str) -> (r: Vec<char>)
    ensures
        r@ == s@,
{
    broadcast use vstd::string::group_string_axioms;

    let mut out: Vec<char> = Vec::new();
    for c in it: s.chars()
        invariant
            it.seq() == s@,
            out@ == s@.take(it.index()),
    {
        assert(s@.take(it.index() + 1) == s@.take(it.index()).push(c));
        out.push(c);
    }
    assert(s@.take(s@.len() as int) == s@);
    out
}

/// The text made of `cs[from..to]`.
pub fn string_of(cs: &Vec<char>, from: usize, to: usize) -> (r: String)
    requires
        from <= to <= cs@.len(),
    ensures
        r@ == cs@.subrange(from as int, to as int),
{
    let mut out = String::new();
    let mut i = from;
    while i < to
        invariant
            from <= i <= to <= cs@.len(),
            out@ == cs@.subrange(from as int, i as int),
        decreases to - i,
    {
        assert(cs@.subrange(from as int, i + 1) == cs@.subrange(from as int, i as int).push(cs@[i as int]));
        push_char(&mut out, cs[i]);
        i += 1;
    }
    out
}

/// The index of the first `c` in `cs`, or its length.
pub fn find_char(cs: &Vec<char>, c: char) -> (r: usize)
    ensures
        r == first_match(cs@, is_char(c)),
{
    proof {
        lemma_first_match(cs@, is_char(c));
    }
    let mut i: usize = 0;
    while i < cs.len() && cs[i] != c
        invariant
            i <= cs@.len(),
            forall|j: int| 0 <= j < i ==> cs@[j] != c,
            0 <= first_match(cs@, is_char(c)) <= cs@.len(),
            forall|j: int| 0 <= j < first_match(cs@, is_char(c)) ==> !is_char(c)(#[trigger] cs@[j]),
            first_match(cs@, is_char(c)) < cs@.len() ==> is_char(c)(cs@[first_match(cs@, is_char(c))]),
        decreases cs@.len() - i,
    {
        i += 1;
    }
    let ghost f = first_match(cs@, is_char(c));
    assert(!(i < f)) by {
        if i < f {
            assert(!is_char(c)(cs@[i as int]));
        }
    }
    assert(!(f < i)) by {
        if f < i {
            assert(cs@[f] != c);
        }
    }
    i
}

/// `str::split_once`: the text before the first `sep` and, when there is one,
/// the text after it.
pub fn split_once_char(s: &str, sep: char) -> (r: (String, Option<String>))
    ensures
        r.0@ == split_once(s@, sep).0,
        match r.1 {
            Some(rest) => split_once(s@, sep).1 == Some(rest@),
            None => split_once(s@, sep).1 is None,
        },
{
    let cs = chars_of(s);
    let i = find_char(&cs, sep);
    if i < cs.len() {
        (string_of(&cs, 0, i), Some(string_of(&cs, i + 1, cs.len())))
    } else {
        assert(cs@.subrange(0, cs@.len() as int) == s@);
        (string_of(&cs, 0, cs.len()), None)
    }
}

/// `str::trim`: `s` without white space at either end.
pub fn trim_whitespace(s: &str) -> (r: String)
    ensures
        r@ == trim(s@),
{
    let cs = chars_of(s);
    let ghost p = not_whitespace();
    proof {
        lemma_first_match(cs@, p);
        lemma_end_of_last_match(cs@, p);
    }
    let mut a: usize = 0;
    while a < cs.len() && is_whitespace_char(cs[a])
        invariant
            a <= cs@.len(),
            p == not_whitespace(),
            forall|j: int| 0 <= j < a ==> !p(#[trigger] cs@[j]),
        decreases cs@.len() - a,
    {
        a += 1;
    }
    let ghost fa = first_match(cs@, p);
    assert(a == fa) by {
        if a < fa {
            assert(!p(cs@[a as int]));
        }
        if fa < a {
            assert(!p(cs@[fa]));
        }
    }
    let mut e: usize = cs.len();
    while e > a && is_whitespace_char(cs[e - 1])
        invariant
            a <= e <= cs@.len(),
            p == not_whitespace(),
            a == first_match(cs@, p),
            forall|j: int| e <= j < cs@.len() ==> !p(#[trigger] cs@[j]),
        decreases e,
    {
        e -= 1;
    }
    let ghost fe = end_of_last_match(cs@, p);
    if a < e {
        assert(e as int == fe) by {
            if e < fe {
                assert(!p(cs@[fe - 1]));
            }
            if fe < e {
                assert(p(cs@[e - 1]));
            }
        }
        string_of(&cs, a, e)
    } else {
        assert(!(a < fe)) by {
            if a < fe {
                if a == cs@.len() {
                } else {
                    assert(p(cs@[a as int]));
                }
            }
        }
        String::new()
    }
}

/// `str::trim_end_matches(c)`: `s` without the copies of `c` at its end.
pub fn trim_end_matches_char(s: &str, c: char) -> (r: String)
    ensures
        r@ == trim_end_char(s@, c),
{
    let cs = chars_of(s);
    let ghost p = other_than(c);
    proof {
        lemma_end_of_last_match(cs@, p);
    }
    let mut e: usize = cs.len();
    while e > 0 && cs[e - 1] == c
        invariant
            e <= cs@.len(),
            p == other_than(c),
            forall|j: int| e <= j < cs@.len() ==> !p(#[trigger] cs@[j]),
        decreases e,
    {
        e -= 1;
    }
    let ghost fe = end_of_last_match(cs@, p);
    assert(e as int == fe) by {
        if e < fe {
            assert(!p(cs@[fe - 1]));
        }
        if fe < e {
            assert(p(cs@[e - 1]));
        }
    }
    string_of(&cs, 0, e)
}

/// The decimal digit for `d < 10`.
pub open spec fn digit(d: nat) -> char {
    ((48 + d) as u32) as char
}

/// The decimal numeral of `n`, without leading zeros.
pub open spec fn decimal(n: nat) -> Seq<char>
    decreases n,
{
    if n < 10 {
        seq![digit(n)]
    } else {
        decimal(n / 10).push(digit(n % 10))
    }
}

/// The decimal numeral of a signed `n`, with `-` before negative values.
pub open spec fn signed_decimal(n: int) -> Seq<char> {
    if n < 0 {
        seq!['-'] + decimal((-n) as nat)
    } else {
        decimal(n as nat)
    }
}

/// The character of digit `d`.
fn digit_char(d: u64) -> (c: char)
    requires
        d < 10,
    ensures
        c == digit(d as nat),
{
    let b: u8 = 48u8 + d as u8;
    b as char
}

/// Appends the decimal numeral of `n` to `out`.
pub fn push_decimal(out: &mut String, n: u64)
    ensures
        final(out)@ == old(out)@ + decimal(n as nat),
    decreases n,
{
    if n >= 10 {
        push_decimal(out, n / 10);
    }
    push_char(out, digit_char(n % 10));
    assert(n < 10 ==> n % 10 == n);
}

/// The decimal numeral of `n` (`u64::to_string`).
pub fn decimal_text(n: u64) -> (r: String)
    ensures
        r@ == decimal(n as nat),
{
    let mut out = String::new();
    push_decimal(&mut out, n);
    out
}

/// The decimal numeral of `n` (`i64::to_string`).
pub fn signed_decimal_text(n: i64) -> (r: String)
    ensures
        r@ == signed_decimal(n as int),
{
    let mut out = String::new();
    if n < 0 {
        push_char(&mut out, '-');
        let magnitude: u64 = (-(n as i128)) as u64;
        push_decimal(&mut out, magnitude);
    } else {
        push_decimal(&mut out, n as u64);
    }
    out
}

} // verus!
