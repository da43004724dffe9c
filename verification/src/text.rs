//! Character classes and conversions between strings and character vectors.
//!
//! The tokenizers and the line breaker work on `Vec<char>`, whose elements can
//! be indexed in constant time; strings are converted at the boundary.

use vstd::prelude::*;

verus! {

/// `String::push` appends the given character to the end of the string and
/// changes nothing else.
pub assume_specification[ String::push ](s: &mut String, c: char)
    ensures
        final(s)@ == old(s)@.push(c),
;

pub open spec fn spec_is_ascii_digit(c: char) -> bool {
    '0' <= c <= '9'
}

pub open spec fn spec_is_ascii_uppercase(c: char) -> bool {
    'A' <= c <= 'Z'
}

pub open spec fn spec_is_ascii_lowercase(c: char) -> bool {
    'a' <= c <= 'z'
}

pub open spec fn spec_is_ascii_alphabetic(c: char) -> bool {
    spec_is_ascii_uppercase(c) || spec_is_ascii_lowercase(c)
}

/// The lower-case form of an ASCII capital; every other character is itself.
pub open spec fn spec_to_ascii_lowercase(c: char) -> char {
    if spec_is_ascii_uppercase(c) {
        ((c as u8) + 32) as char
    } else {
        c
    }
}

/// Characters with the Unicode `White_Space` property.
pub open spec fn spec_is_whitespace(c: char) -> bool {
    let n = c as u32;
    (0x09 <= n <= 0x0d) || n == 0x20 || n == 0x85 || n == 0xa0 || n == 0x1680 || (0x2000 <= n
        <= 0x200a) || n == 0x2028 || n == 0x2029 || n == 0x202f || n == 0x205f || n == 0x3000
}

#[verifier::when_used_as_spec(spec_is_ascii_digit)]
pub fn is_ascii_digit(c: char) -> (r: bool)
    ensures
        r == spec_is_ascii_digit(c),
{
    '0' <= c && c <= '9'
}

#[verifier::when_used_as_spec(spec_is_ascii_uppercase)]
pub fn is_ascii_uppercase(c: char) -> (r: bool)
    ensures
        r == spec_is_ascii_uppercase(c),
{
    'A' <= c && c <= 'Z'
}

#[verifier::when_used_as_spec(spec_is_ascii_alphabetic)]
pub fn is_ascii_alphabetic(c: char) -> (r: bool)
    ensures
        r == spec_is_ascii_alphabetic(c),
{
    ('A' <= c && c <= 'Z') || ('a' <= c && c <= 'z')
}

#[verifier::when_used_as_spec(spec_to_ascii_lowercase)]
pub fn to_ascii_lowercase(c: char) -> (r: char)
    ensures
        r == spec_to_ascii_lowercase(c),
{
    if 'A' <= c && c <= 'Z' {
        let b: u8 = c as u8;
        (b + 32) as char
    } else {
        c
    }
}

#[verifier::when_used_as_spec(spec_is_whitespace)]
pub fn is_whitespace(c: char) -> (r: bool)
    ensures
        r == spec_is_whitespace(c),
{
    let n: u32 = c as u32;
    (0x09 <= n && n <= 0x0d) || n == 0x20 || n == 0x85 || n == 0xa0 || n == 0x1680 || (0x2000 <= n
        && n <= 0x200a) || n == 0x2028 || n == 0x2029 || n == 0x202f || n == 0x205f || n
        == 0x3000
}

/// The characters of a string, in order.
pub fn chars_of(s: &str) -> (v: Vec<char>)
    ensures
        v@ == s@,
{
    let mut v: Vec<char> = Vec::new();
    for c in it: s.chars()
        invariant
            v@ == it.seq().take(it.index() as int),
            it.seq() == s@,
    {
        v.push(c);
    }
    v
}

/// The string whose characters are `v[from..to]`.
pub fn string_of_range(v: &Vec<char>, from: usize, to: usize) -> (s: String)
    requires
        from <= to <= v.len(),
    ensures
        s@ == v@.subrange(from as int, to as int),
{
    let mut s = String::new();
    let mut i: usize = from;
    while i < to
        invariant
            from <= i <= to <= v.len(),
            s@ == v@.subrange(from as int, i as int),
        decreases to - i,
    {
        s.push(v[i]);
        i += 1;
    }
    s
}

/// The string whose characters are those of `v`.
pub fn string_of(v: &Vec<char>) -> (s: String)
    ensures
        s@ == v@,
{
    let s = string_of_range(v, 0, v.len());
    assert(v@.subrange(0, v.len() as int) =~= v@);
    s
}

/// Whether `s` spells exactly the text `lit`.
pub fn str_is(s: &String, lit: &str) -> (r: bool)
    ensures
        r == (s@ == lit@),
{
    let other = String::from_str(lit);
    *s == other
}

/// The first index at or after `from` at which `s` holds `c`, or the length
/// of `s` if it holds `c` nowhere from there on.
pub open spec fn find_char(s: Seq<char>, c: char, from: int) -> int
    decreases s.len() - from,
{
    if 0 <= from < s.len() && s[from] != c {
        find_char(s, c, from + 1)
    } else {
        from
    }
}

/// The index that `find_char` gives lies from `from` to the length; no
/// character before it is `c`, and the character at it is, if there is one.
pub proof fn lemma_find_char(s: Seq<char>, c: char, from: int)
    requires
        0 <= from <= s.len(),
    ensures
        from <= find_char(s, c, from) <= s.len(),
        forall|i: int| from <= i < find_char(s, c, from) ==> s[i] != c,
        find_char(s, c, from) < s.len() ==> s[find_char(s, c, from)] == c,
    decreases s.len() - from,
{
    if from < s.len() && s[from] != c {
        lemma_find_char(s, c, from + 1);
    }
}

/// Finds the first `c` in `v` at or after `from`.
pub fn index_of(v: &Vec<char>, c: char, from: usize) -> (r: usize)
    requires
        from <= v.len(),
    ensures
        r == find_char(v@, c, from as int),
        from <= r <= v.len(),
{
    let mut i: usize = from;
    while i < v.len() && v[i] != c
        invariant
            from <= i <= v.len(),
            find_char(v@, c, from as int) == find_char(v@, c, i as int),
        decreases v.len() - i,
    {
        i += 1;
    }
    i
}

/// Whether `s` holds the text `p` at the index `i`.
pub open spec fn holds_at(s: Seq<char>, p: Seq<char>, i: int) -> bool {
    0 <= i && i + p.len() <= s.len() && s.subrange(i, i + p.len()) == p
}

/// Whether `v` holds `p` at the index `i`.
pub fn matches_at(v: &Vec<char>, p: &Vec<char>, i: usize) -> (r: bool)
    ensures
        r == holds_at(v@, p@, i as int),
{
    if i > v.len() || p.len() > v.len() - i {
        return false;
    }
    let mut k: usize = 0;
    while k < p.len()
        invariant
            k <= p.len(),
            i + p.len() <= v.len(),
            forall|j: int| 0 <= j < k ==> v[i + j] == p[j],
        decreases p.len() - k,
    {
        if v[i + k] != p[k] {
            assert(v@.subrange(i as int, i + p.len())[k as int] != p@[k as int]);
            return false;
        }
        k += 1;
    }
    assert(v@.subrange(i as int, i + p.len()) =~= p@);
    true
}

/// The sets of characters that the scanner reads in runs.
#[derive(Clone, Copy, Debug, PartialEq, Eq, Structural)]
pub enum CharClass {
    /// Letters, digits, `-` and `_`.
    Ident,
    /// The decimal digits.
    Digit,
    /// Space and newline, which separate tokens.
    Blank,
    /// Everything but the given quote character.
    Unquoted(char),
    /// Letters, digits, `_` and `$`.
    Name,
}

pub open spec fn is_ident_char(c: char) -> bool {
    spec_is_ascii_alphabetic(c) || spec_is_ascii_digit(c) || c == '-' || c == '_'
}

pub open spec fn in_class(class: CharClass, c: char) -> bool {
    match class {
        CharClass::Ident => is_ident_char(c),
        CharClass::Digit => spec_is_ascii_digit(c),
        CharClass::Blank => c == ' ' || c == '\n',
        CharClass::Unquoted(q) => c != q,
        CharClass::Name => is_name_char(c),
    }
}

pub open spec fn is_name_char(c: char) -> bool {
    spec_is_ascii_alphabetic(c) || spec_is_ascii_digit(c) || c == '_' || c == '$'
}

/// Where the run of `class` characters that starts at `from` ends: the first
/// index at or after `from` that holds a character outside the class, or the
/// length of `s` if there is none.
pub open spec fn run_end(s: Seq<char>, from: int, class: CharClass) -> int
    decreases s.len() - from,
{
    if 0 <= from < s.len() && in_class(class, s[from]) {
        run_end(s, from + 1, class)
    } else {
        from
    }
}

/// A run ends at or after its start, inside the text; every character in it
/// belongs to the class, and the character after it, if any, does not.
pub proof fn lemma_run_end(s: Seq<char>, from: int, class: CharClass)
    requires
        0 <= from <= s.len(),
    ensures
        from <= run_end(s, from, class) <= s.len(),
        forall|i: int| from <= i < run_end(s, from, class) ==> in_class(class, #[trigger] s[i]),
        run_end(s, from, class) < s.len() ==> !in_class(class, s[run_end(s, from, class)]),
    decreases s.len() - from,
{
    if from < s.len() && in_class(class, s[from]) {
        lemma_run_end(s, from + 1, class);
    }
}

#[verifier::when_used_as_spec(is_ident_char)]
pub fn ident_char(c: char) -> (r: bool)
    ensures
        r == is_ident_char(c),
{
    is_ascii_alphabetic(c) || is_ascii_digit(c) || c == '-' || c == '_'
}

fn member(class: CharClass, c: char) -> (r: bool)
    ensures
        r == in_class(class, c),
{
    match class {
        CharClass::Ident => ident_char(c),
        CharClass::Digit => is_ascii_digit(c),
        CharClass::Blank => c == ' ' || c == '\n',
        CharClass::Unquoted(q) => c != q,
        CharClass::Name => name_char(c),
    }
}

#[verifier::when_used_as_spec(is_name_char)]
pub fn name_char(c: char) -> (r: bool)
    ensures
        r == is_name_char(c),
{
    is_ascii_alphabetic(c) || is_ascii_digit(c) || c == '_' || c == '$'
}

/// Finds where the run of `class` characters that starts at `from` ends.
pub fn scan_run(input: &Vec<char>, from: usize, class: CharClass) -> (end: usize)
    requires
        from <= input.len(),
    ensures
        end == run_end(input@, from as int, class),
        from <= end <= input.len(),
{
    let mut i: usize = from;
    while i < input.len() && member(class, input[i])
        invariant
            from <= i <= input.len(),
            run_end(input@, from as int, class) == run_end(input@, i as int, class),
        decreases input.len() - i,
    {
        i += 1;
    }
    i
}

/// The first index at or after `i` that holds no whitespace, or the length.
pub open spec fn skip_whitespace(s: Seq<char>, i: int) -> int
    decreases s.len() - i,
{
    if 0 <= i < s.len() && spec_is_whitespace(s[i]) {
        skip_whitespace(s, i + 1)
    } else {
        i
    }
}

/// The least index from `a` up to `j` behind which `s` holds, up to `j`, only
/// whitespace.
pub open spec fn back_whitespace(s: Seq<char>, a: int, j: int) -> int
    decreases j - a,
{
    if a < j <= s.len() && spec_is_whitespace(s[j - 1]) {
        back_whitespace(s, a, j - 1)
    } else {
        j
    }
}

/// The text without the whitespace at its start and at its end.
pub open spec fn trim(s: Seq<char>) -> Seq<char> {
    let a = skip_whitespace(s, 0);
    let b = back_whitespace(s, a, s.len() as int);
    s.subrange(a, b)
}

pub proof fn lemma_skip_whitespace(s: Seq<char>, i: int)
    requires
        0 <= i <= s.len(),
    ensures
        i <= skip_whitespace(s, i) <= s.len(),
        i < s.len() && spec_is_whitespace(s[i]) ==> i < skip_whitespace(s, i),
    decreases s.len() - i,
{
    if i < s.len() && spec_is_whitespace(s[i]) {
        lemma_skip_whitespace(s, i + 1);
    }
}

pub proof fn lemma_back_whitespace(s: Seq<char>, a: int, j: int)
    requires
        0 <= a <= j <= s.len(),
    ensures
        a <= back_whitespace(s, a, j) <= j,
    decreases j - a,
{
    if a < j && spec_is_whitespace(s[j - 1]) {
        lemma_back_whitespace(s, a, j - 1);
    }
}

/// The part of `chars` from `from` on, trimmed.
pub fn trimmed_tail(chars: &Vec<char>, from: usize) -> (r: Vec<char>)
    requires
        from <= chars.len(),
    ensures
        r@ == trim(chars@.subrange(from as int, chars.len() as int)),
{
    let ghost tail = chars@.subrange(from as int, chars.len() as int);
    let mut a: usize = from;
    while a < chars.len() && is_whitespace(chars[a])
        invariant
            from <= a <= chars.len(),
            tail == chars@.subrange(from as int, chars.len() as int),
            skip_whitespace(tail, 0) == skip_whitespace(tail, a - from),
        decreases chars.len() - a,
    {
        a += 1;
    }
    let mut b: usize = chars.len();
    while b > a && is_whitespace(chars[b - 1])
        invariant
            from <= a <= b <= chars.len(),
            tail == chars@.subrange(from as int, chars.len() as int),
            back_whitespace(tail, a - from, tail.len() as int) == back_whitespace(
                tail,
                a - from,
                b - from,
            ),
        decreases b - a,
    {
        b -= 1;
    }
    let mut r: Vec<char> = Vec::new();
    let mut i: usize = a;
    while i < b
        invariant
            a <= i <= b <= chars.len(),
            r@ == chars@.subrange(a as int, i as int),
        decreases b - i,
    {
        r.push(chars[i]);
        i += 1;
    }
    assert(r@ =~= tail.subrange(a - from, b - from));
    r
}

/// The number that a run of decimal digits denotes.
pub open spec fn number_value(digits: Seq<char>) -> nat
    decreases digits.len(),
{
    if digits.len() == 0 {
        0
    } else {
        number_value(digits.drop_last()) * 10 + (digits.last() as nat - '0' as nat) as nat
    }
}

/// The value of the digits from `from` to `to`, if it fits 64 bits.
pub fn parse_decimal(input: &Vec<char>, from: usize, to: usize) -> (r: Option<u64>)
    requires
        from <= to <= input.len(),
        forall|i: int| from <= i < to ==> spec_is_ascii_digit(#[trigger] input[i]),
    ensures
        match r {
            Some(v) => v == number_value(input@.subrange(from as int, to as int)),
            None => number_value(input@.subrange(from as int, to as int)) > u64::MAX,
        },
{
    let mut num: u64 = 0;
    let mut i: usize = from;
    let ghost s = input@;
    assert(s.subrange(from as int, from as int) =~= Seq::<char>::empty());
    while i < to
        invariant
            from <= i <= to <= input.len(),
            s == input@,
            forall|k: int| from <= k < to ==> spec_is_ascii_digit(#[trigger] s[k]),
            num == number_value(s.subrange(from as int, i as int)),
        decreases to - i,
    {
        let c = input[i];
        let digit: u64 = (c as u32 - '0' as u32) as u64;
        proof {
            assert(spec_is_ascii_digit(s[i as int]));
            assert(s.subrange(from as int, i + 1).drop_last() =~= s.subrange(
                from as int,
                i as int,
            ));
            assert(s.subrange(from as int, i + 1).last() == c);
        }
        let next = match num.checked_mul(10) {
            Some(tens) => tens.checked_add(digit),
            None => None,
        };
        match next {
            Some(n) => {
                num = n;
            },
            None => {
                proof {
                    lemma_number_grows(s, from as int, i + 1, to as int);
                }
                return None;
            },
        }
        i += 1;
    }
    Some(num)
}


/// A run of digits denotes at least as much as each of its starts.
pub proof fn lemma_number_grows(s: Seq<char>, from: int, mid: int, to: int)
    requires
        0 <= from <= mid <= to <= s.len(),
    ensures
        number_value(s.subrange(from, mid)) <= number_value(s.subrange(from, to)),
    decreases to - mid,
{
    if mid < to {
        lemma_number_grows(s, from, mid, to - 1);
        assert(s.subrange(from, to).drop_last() =~= s.subrange(from, to - 1));
    }
}

/// The characters of `v` from `from` up to `to`.
pub fn copy_range(v: &Vec<char>, from: usize, to: usize) -> (r: Vec<char>)
    requires
        from <= to <= v.len(),
    ensures
        r@ == v@.subrange(from as int, to as int),
{
    let mut r: Vec<char> = Vec::new();
    let mut i: usize = from;
    while i < to
        invariant
            from <= i <= to <= v.len(),
            r@ == v@.subrange(from as int, i as int),
        decreases to - i,
    {
        r.push(v[i]);
        i += 1;
    }
    r
}

/// The characters of `v` from `from` up to `to`, trimmed.
pub fn trimmed(v: &Vec<char>, from: usize, to: usize) -> (r: Vec<char>)
    requires
        from <= to <= v.len(),
    ensures
        r@ == trim(v@.subrange(from as int, to as int)),
{
    let part = copy_range(v, from, to);
    assert(part@.subrange(0, part.len() as int) =~= part@);
    trimmed_tail(&part, 0)
}

} // verus!
