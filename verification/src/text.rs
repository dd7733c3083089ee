//! Small, verified building blocks for producing text.
//!
//! Every string the compiler renders (diagnostics, reports, IR dumps) is put
//! together from these helpers, so the contracts elsewhere can speak of the
//! result as a plain `Seq<char>`.
use vstd::prelude::*;

verus! {

/// The character of a decimal digit `d` (`0 <= d < 10`).
pub open spec fn digit_char(d: nat) -> char {
    ((48 + d) as u8) as char
}

/// The decimal representation of `n`, most significant digit first.
pub open spec fn decimal(n: nat) -> Seq<char>
    decreases n,
{
    if n < 10 {
        seq![digit_char(n)]
    } else {
        decimal(n / 10).push(digit_char(n % 10))
    }
}

/// `n` copies of the character `c`.
pub open spec fn repeat_char(c: char, n: nat) -> Seq<char> {
    Seq::new(n, |_i: int| c)
}

/// The characters obtained by reading each byte as a character of its own
/// (the Latin-1 reading used by the lexer for token text).
pub open spec fn bytes_as_chars(bytes: Seq<u8>) -> Seq<char> {
    bytes.map_values(|b: u8| b as char)
}

/// `std::string::String::push`: appends one character.
#[verifier::external_body]
pub fn push_char(s: &mut String, c: char)
    ensures
        final(s)@ == old(s)@.push(c),
{
    s.push(c)
}

/// `<str as PartialEq>::eq`: two string slices are equal when they hold the
/// same characters.
#[verifier::external_body]
pub fn str_eq(a: &str, b: &str) -> (result: bool)
    ensures
        result == (a@ == b@),
{
    a == b
}

/// Appends a string slice.
pub fn push_str(s: &mut String, t: &str)
    ensures
        final(s)@ == old(s)@ + t@,
{
    s.append(t);
}

/// Appends the decimal representation of `n`.
pub fn push_decimal(s: &mut String, n: usize)
    ensures
        final(s)@ == old(s)@ + decimal(n as nat),
    decreases n,
{
    if n >= 10 {
        push_decimal(s, n / 10);
    }
    let d: u8 = (n % 10) as u8;
    push_char(s, (48u8 + d) as char);
    proof {
        if n >= 10 {
            assert(decimal(n as nat) == decimal((n / 10) as nat).push(digit_char((n % 10) as nat)));
        }
    }
}

/// Appends the decimal representation of `n`.
pub fn push_decimal_u64(s: &mut String, n: u64)
    ensures
        final(s)@ == old(s)@ + decimal(n as nat),
    decreases n,
{
    if n >= 10 {
        push_decimal_u64(s, n / 10);
    }
    let d: u8 = (n % 10) as u8;
    push_char(s, (48u8 + d) as char);
    proof {
        if n >= 10 {
            assert(decimal(n as nat) == decimal((n / 10) as nat).push(digit_char((n % 10) as nat)));
        }
    }
}

/// Appends `count` copies of `c`.
pub fn push_repeat(s: &mut String, c: char, count: usize)
    ensures
        final(s)@ == old(s)@ + repeat_char(c, count as nat),
{
    let ghost start = s@;
    let mut i: usize = 0;
    while i < count
        invariant
            i <= count,
            s@ == start + repeat_char(c, i as nat),
        decreases count - i,
    {
        push_char(s, c);
        i = i + 1;
        assert(s@ =~= start + repeat_char(c, i as nat));
    }
}

/// Appends the bytes `bytes[start..end]`, each read as one character.
pub fn push_bytes_as_chars(s: &mut String, bytes: &[u8], start: usize, end: usize)
    requires
        start <= end <= bytes@.len(),
    ensures
        final(s)@ == old(s)@ + bytes_as_chars(bytes@.subrange(start as int, end as int)),
{
    let ghost base = s@;
    let mut i = start;
    while i < end
        invariant
            start <= i <= end <= bytes@.len(),
            s@ == base + bytes_as_chars(bytes@.subrange(start as int, i as int)),
        decreases end - i,
    {
        push_char(s, bytes[i] as char);
        i = i + 1;
        assert(bytes_as_chars(bytes@.subrange(start as int, i as int)) =~= bytes_as_chars(
            bytes@.subrange(start as int, (i - 1) as int),
        ).push(bytes@[i - 1] as char));
        assert(s@ =~= base + bytes_as_chars(bytes@.subrange(start as int, i as int)));
    }
}

/// A new string made of the bytes `bytes[start..end]`, each read as one
/// character.
pub fn string_from_bytes(bytes: &[u8], start: usize, end: usize) -> (result: String)
    requires
        start <= end <= bytes@.len(),
    ensures
        result@ == bytes_as_chars(bytes@.subrange(start as int, end as int)),
{
    let mut s = String::new();
    push_bytes_as_chars(&mut s, bytes, start, end);
    assert(s@ =~= bytes_as_chars(bytes@.subrange(start as int, end as int)));
    s
}

/// A copy of a string slice as an owned string.
pub fn to_owned_string(t: &str) -> (result: String)
    ensures
        result@ == t@,
{
    let mut s = String::new();
    push_str(&mut s, t);
    assert(s@ =~= t@);
    s
}

/// Whether `needle` occurs in `hay` as a contiguous piece.
pub open spec fn contains_seq(hay: Seq<char>, needle: Seq<char>) -> bool {
    exists|i: int| 0 <= i <= hay.len() - needle.len() && #[trigger] hay.subrange(i, i + needle.len()) == needle
}


/// The characters of a string slice, one by one.
pub fn chars_of(s: &str) -> (result: Vec<char>)
    ensures
        result@ == s@,
{
    let n = s.unicode_len();
    let mut result: Vec<char> = Vec::new();
    let mut i: usize = 0;
    while i < n
        invariant
            n == s@.len(),
            i <= n,
            result@ == s@.subrange(0, i as int),
        decreases n - i,
    {
        result.push(s.get_char(i));
        i = i + 1;
        assert(result@ =~= s@.subrange(0, i as int));
    }
    assert(s@.subrange(0, n as int) =~= s@);
    result
}

/// A new string made of `cs[start..end]`.
pub fn string_from_chars(cs: &Vec<char>, start: usize, end: usize) -> (result: String)
    requires
        start <= end <= cs@.len(),
    ensures
        result@ == cs@.subrange(start as int, end as int),
{
    let mut out = String::new();
    let mut i = start;
    while i < end
        invariant
            start <= i <= end <= cs@.len(),
            out@ == cs@.subrange(start as int, i as int),
        decreases end - i,
    {
        push_char(&mut out, cs[i]);
        i = i + 1;
        assert(out@ =~= cs@.subrange(start as int, i as int));
    }
    out
}

/// Whether `needle` occurs in `hay` at position `at`.
pub open spec fn occurs_at(hay: Seq<char>, needle: Seq<char>, at: int) -> bool {
    0 <= at && at + needle.len() <= hay.len() && hay.subrange(at, at + needle.len()) == needle
}

fn matches_at(hay: &Vec<char>, needle: &Vec<char>, at: usize) -> (result: bool)
    requires
        at + needle@.len() <= hay@.len(),
    ensures
        result == occurs_at(hay@, needle@, at as int),
{
    let hl = hay.len();
    let mut k: usize = 0;
    while k < needle.len()
        invariant
            hl == hay@.len(),
            at + needle@.len() <= hay@.len(),
            k <= needle@.len(),
            forall|j: int| 0 <= j < k ==> hay@[at + j] == needle@[j],
        decreases needle.len() - k,
    {
        assert(at + k < hay@.len());
        if hay[at + k] != needle[k] {
            assert(hay@.subrange(at as int, at + needle@.len())[k as int] != needle@[k as int]);
            return false;
        }
        k = k + 1;
    }
    assert(hay@.subrange(at as int, at + needle@.len()) =~= needle@);
    true
}

/// Whether `needle` occurs in `hay`.
pub fn chars_contain(hay: &Vec<char>, needle: &Vec<char>) -> (result: bool)
    ensures
        result == contains_seq(hay@, needle@),
{
    if needle.len() > hay.len() {
        return false;
    }
    let last = hay.len() - needle.len();
    let mut at: usize = 0;
    while at < last
        invariant
            last == hay@.len() - needle@.len(),
            needle@.len() <= hay@.len(),
            at <= last,
            forall|j: int| 0 <= j < at ==> !occurs_at(hay@, needle@, j),
        decreases last - at,
    {
        if matches_at(hay, needle, at) {
            assert(hay@.subrange(at as int, at + needle@.len()) == needle@);
            return true;
        }
        at = at + 1;
    }
    if matches_at(hay, needle, last) {
        assert(hay@.subrange(last as int, last + needle@.len()) == needle@);
        return true;
    }
    assert forall|i: int| 0 <= i <= hay@.len() - needle@.len() implies #[trigger] hay@.subrange(i, i + needle@.len()) != needle@ by {
        assert(!occurs_at(hay@, needle@, i));
    }
    false
}

/// Whether `needle` occurs in `hay`.
pub fn str_contains(hay: &str, needle: &str) -> (result: bool)
    ensures
        result == contains_seq(hay@, needle@),
{
    let h = chars_of(hay);
    let n = chars_of(needle);
    chars_contain(&h, &n)
}

/// How many times `c` occurs in `s`.
pub open spec fn count_char(s: Seq<char>, c: char) -> nat
    decreases s.len(),
{
    if s.len() == 0 {
        0
    } else {
        count_char(s.drop_last(), c) + if s.last() == c { 1nat } else { 0nat }
    }
}

/// How many times `c` occurs in `s`.
pub fn count_chars(s: &Vec<char>, c: char) -> (result: usize)
    ensures
        result == count_char(s@, c),
{
    let mut n: usize = 0;
    let mut i: usize = 0;
    while i < s.len()
        invariant
            i <= s@.len(),
            n == count_char(s@.subrange(0, i as int), c),
            n <= i,
        decreases s.len() - i,
    {
        assert(s@.subrange(0, i + 1).drop_last() =~= s@.subrange(0, i as int));
        if s[i] == c {
            n = n + 1;
        }
        i = i + 1;
    }
    assert(s@.subrange(0, s@.len() as int) =~= s@);
    n
}

/// The end of the line that starts at `i`: the position of the next line
/// feed at or after `i`, or the end of `s`.
pub open spec fn line_end(s: Seq<char>, i: int) -> int
    decreases s.len() - i,
{
    if i >= s.len() {
        s.len() as int
    } else if s[i] == '\n' {
        i
    } else {
        line_end(s, i + 1)
    }
}

/// A line without the carriage return that ended it, if any.
pub open spec fn strip_cr(line: Seq<char>) -> Seq<char> {
    if line.len() > 0 && line.last() == '\r' {
        line.drop_last()
    } else {
        line
    }
}

/// The lines of `s` from position `i` on, as `str::lines` gives them: split
/// at each line feed, a carriage return right before a line feed dropped,
/// and no empty line after a final line feed.
pub open spec fn lines_from(s: Seq<char>, i: int) -> Seq<Seq<char>>
    decreases s.len() - i,
{
    if i >= s.len() || i < 0 {
        seq![]
    } else {
        let j = line_end(s, i);
        proof {
            lemma_line_end_bounds(s, i);
        }
        if j < s.len() {
            seq![strip_cr(s.subrange(i, j))] + lines_from(s, j + 1)
        } else {
            seq![s.subrange(i, j)]
        }
    }
}

pub proof fn lemma_line_end_bounds(s: Seq<char>, i: int)
    requires
        0 <= i <= s.len(),
    ensures
        i <= line_end(s, i) <= s.len(),
    decreases s.len() - i,
{
    if i < s.len() && s[i] != '\n' {
        lemma_line_end_bounds(s, i + 1);
    }
}

pub open spec fn lines_of(s: Seq<char>) -> Seq<Seq<char>> {
    lines_from(s, 0)
}

proof fn lemma_line_end(s: Seq<char>, i: int, j: int)
    requires
        0 <= i <= j <= s.len(),
        forall|k: int| i <= k < j ==> s[k] != '\n',
        j == s.len() || s[j] == '\n',
    ensures
        line_end(s, i) == j,
    decreases j - i,
{
    if i < j {
        lemma_line_end(s, i + 1, j);
    }
}

/// The lines of a string slice, as `str::lines` gives them.
pub fn split_lines(s: &str) -> (result: Vec<String>)
    ensures
        result@.map_values(|l: String| l@) == lines_of(s@),
{
    let cs = chars_of(s);
    let ghost v = s@;
    let mut result: Vec<String> = Vec::new();
    let mut start: usize = 0;
    let mut i: usize = 0;
    while i < cs.len()
        invariant
            cs@ == v,
            start <= i <= v.len(),
            forall|k: int| start <= k < i ==> v[k] != '\n',
            result@.map_values(|l: String| l@) + lines_from(v, start as int) == lines_of(v),
        decreases cs.len() - i,
    {
        if cs[i] == '\n' {
            let mut end = i;
            if end > start && cs[end - 1] == '\r' {
                end = end - 1;
            }
            let line = string_from_chars(&cs, start, end);
            proof {
                lemma_line_end(v, start as int, i as int);
                assert(line@ == strip_cr(v.subrange(start as int, i as int))) by {
                    if i > start && v[i - 1] == '\r' {
                        assert(v.subrange(start as int, i as int).drop_last() =~= v.subrange(start as int, end as int));
                    } else {
                        assert(end == i);
                    }
                }
                assert(lines_from(v, start as int) == seq![line@] + lines_from(v, i + 1));
            }
            let ghost before = result@;
            result.push(line);
            proof {
                assert(result@.map_values(|l: String| l@) =~= before.map_values(|l: String| l@).push(line@));
                assert(result@.map_values(|l: String| l@) + lines_from(v, i + 1) =~= before.map_values(|l: String| l@)
                    + (seq![line@] + lines_from(v, i + 1)));
            }
            start = i + 1;
        }
        i = i + 1;
    }
    if start < cs.len() {
        let line = string_from_chars(&cs, start, cs.len());
        proof {
            lemma_line_end(v, start as int, v.len() as int);
            assert(lines_from(v, start as int) == seq![line@]);
        }
        let ghost before = result@;
        result.push(line);
        proof {
            assert(result@.map_values(|l: String| l@) =~= before.map_values(|l: String| l@).push(line@));
            assert(before.map_values(|l: String| l@) + seq![line@] =~= result@.map_values(|l: String| l@));
        }
    } else {
        proof {
            assert(lines_from(v, start as int) =~= Seq::<Seq<char>>::empty());
            assert(result@.map_values(|l: String| l@) + Seq::<Seq<char>>::empty() =~= result@.map_values(|l: String| l@));
        }
    }
    result
}

/// The pieces of `parts` with `sep` between each two.
pub open spec fn join_with(parts: Seq<Seq<char>>, sep: Seq<char>) -> Seq<char>
    decreases parts.len(),
{
    if parts.len() == 0 {
        seq![]
    } else if parts.len() == 1 {
        parts[0]
    } else {
        join_with(parts.drop_last(), sep) + sep + parts.last()
    }
}

/// The strings of `parts` with `sep` between each two.
pub fn join_strings(parts: &Vec<String>, sep: &str) -> (result: String)
    ensures
        result@ == join_with(parts@.map_values(|l: String| l@), sep@),
{
    let ghost ps = parts@.map_values(|l: String| l@);
    let mut out = String::new();
    let mut i: usize = 0;
    while i < parts.len()
        invariant
            ps == parts@.map_values(|l: String| l@),
            i <= parts@.len(),
            out@ == join_with(ps.subrange(0, i as int), sep@),
        decreases parts.len() - i,
    {
        if i > 0 {
            push_str(&mut out, sep);
        }
        push_str(&mut out, parts[i].as_str());
        proof {
            let nxt = ps.subrange(0, i + 1);
            assert(nxt.drop_last() =~= ps.subrange(0, i as int));
            assert(nxt.last() == parts@[i as int]@);
            if i == 0 {
                assert(ps.subrange(0, 0) =~= Seq::<Seq<char>>::empty());
                assert(out@ =~= parts@[0]@);
            }
        }
        i = i + 1;
    }
    assert(ps.subrange(0, ps.len() as int) =~= ps);
    out
}

/// `str::len`: the number of bytes of the UTF-8 encoding. A `str` never
/// spans more than `isize::MAX` bytes (no Rust value is larger), which the
/// contract states as well.
#[verifier::external_body]
pub fn str_byte_len(s: &str) -> (n: usize)
    ensures
        n == vstd::utf8::encode_utf8(s@).len(),
        n <= isize::MAX,
{
    s.len()
}

/// Whether `c` is white space in the sense of Unicode's `White_Space`
/// property: tab to carriage return, space, next line, no-break space,
/// ogham space mark, the spaces from en quad to hair space, line and
/// paragraph separator, narrow no-break space, medium mathematical space
/// and ideographic space.
pub open spec fn unicode_white_space(c: char) -> bool {
    let n = c as u32;
    ||| 0x09 <= n <= 0x0D
    ||| n == 0x20
    ||| n == 0x85
    ||| n == 0xA0
    ||| n == 0x1680
    ||| 0x2000 <= n <= 0x200A
    ||| n == 0x2028
    ||| n == 0x2029
    ||| n == 0x202F
    ||| n == 0x205F
    ||| n == 0x3000
}

/// Whether `c` has Unicode's `White_Space` property, as
/// `char::is_whitespace` answers.
pub fn char_is_whitespace(c: char) -> (result: bool)
    ensures
        result == unicode_white_space(c),
{
    let n = c as u32;
    (0x09 <= n && n <= 0x0D) || n == 0x20 || n == 0x85 || n == 0xA0 || n == 0x1680 || (0x2000 <= n && n
        <= 0x200A) || n == 0x2028 || n == 0x2029 || n == 0x202F || n == 0x205F || n == 0x3000
}

} // verus!
