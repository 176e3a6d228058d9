//! Text handling shared by the header, storage and platform modules: ASCII
//! case folding, trimming, line and field splitting, and decimal numerals.

use vstd::prelude::*;
use vstd::string::*;
use vstd::utf8::*;

verus! {

/// `String::push`: the string grows by the one character, at its end.
pub assume_specification[ String::push ](s: &mut String, c: char)
    ensures
        final(s)@ == old(s)@.push(c),
;

/// What `String::from_utf8_lossy` makes of a byte string.
pub uninterp spec fn lossy_text(bytes: Seq<u8>) -> Seq<char>;

/// `String::from_utf8_lossy`: UTF-8 is decoded. Bytes that are no UTF-8 are
/// replaced; of how they are, nothing is claimed but that equal bytes give
/// equal text.
#[verifier::external_body]
pub(crate) fn lossy(bytes: &[u8]) -> (r: String)
    ensures
        r@ == lossy_text(bytes@),
        valid_utf8(bytes@) ==> r@ == decode_utf8(bytes@),
{
    String::from_utf8_lossy(bytes).into_owned()
}

/// The ASCII lower-case form of one character; any other character is itself.
pub open spec fn lower_char(c: char) -> char {
    if 'A' <= c && c <= 'Z' {
        ((c as u8) + 32) as u8 as char
    } else {
        c
    }
}

/// Text with its ASCII capitals folded to lower case.
pub open spec fn lower(s: Seq<char>) -> Seq<char> {
    s.map_values(|c: char| lower_char(c))
}

/// The Unicode `White_Space` property.
pub open spec fn is_space(c: char) -> bool {
    ||| '\u{9}' <= c && c <= '\u{d}'
    ||| c == ' '
    ||| c == '\u{85}'
    ||| c == '\u{a0}'
    ||| c == '\u{1680}'
    ||| '\u{2000}' <= c && c <= '\u{200a}'
    ||| c == '\u{2028}'
    ||| c == '\u{2029}'
    ||| c == '\u{202f}'
    ||| c == '\u{205f}'
    ||| c == '\u{3000}'
}

/// Text without its leading white space.
pub open spec fn trimmed_start(s: Seq<char>) -> Seq<char>
    decreases s.len(),
{
    if s.len() > 0 && is_space(s[0]) {
        trimmed_start(s.skip(1))
    } else {
        s
    }
}

/// Text without its trailing white space.
pub open spec fn trimmed_end(s: Seq<char>) -> Seq<char>
    decreases s.len(),
{
    if s.len() > 0 && is_space(s.last()) {
        trimmed_end(s.drop_last())
    } else {
        s
    }
}

/// Text without the white space around it.
pub open spec fn trimmed(s: Seq<char>) -> Seq<char> {
    trimmed_end(trimmed_start(s))
}

/// The views of a list of strings.
pub open spec fn texts(v: Seq<String>) -> Seq<Seq<char>> {
    v.map_values(|s: String| s@)
}

/// How many characters stand before the first `c`; all of them when there is
/// none.
pub open spec fn before_char(s: Seq<char>, c: char) -> nat
    decreases s.len(),
{
    if s.len() == 0 || s[0] == c {
        0
    } else {
        1 + before_char(s.skip(1), c)
    }
}

/// The pieces of `s` between the occurrences of `c`: one more than there are
/// occurrences, empty pieces kept.
pub open spec fn pieces(s: Seq<char>, c: char) -> Seq<Seq<char>>
    decreases s.len(),
{
    let k = before_char(s, c) as int;
    if k >= s.len() {
        seq![s]
    } else {
        seq![s.take(k)] + pieces(s.skip(k + 1), c)
    }
}

/// A line without the carriage return that its line ending began with.
pub open spec fn without_cr(s: Seq<char>) -> Seq<char> {
    if s.len() > 0 && s.last() == '\r' {
        s.drop_last()
    } else {
        s
    }
}

/// The lines of a text. A line ends at `\n` or `\r\n`; the ending of the last
/// line is optional, and so an ending at the very end starts no new line.
pub open spec fn lines_of(s: Seq<char>) -> Seq<Seq<char>>
    decreases s.len(),
{
    let k = before_char(s, '\n') as int;
    if s.len() == 0 {
        Seq::empty()
    } else if k >= s.len() {
        seq![s]
    } else {
        seq![without_cr(s.take(k))] + lines_of(s.skip(k + 1))
    }
}

/// Whether `sep` stands in `s` at position `i`.
pub open spec fn occurs_at(s: Seq<char>, sep: Seq<char>, i: int) -> bool {
    0 <= i && i + sep.len() <= s.len() && s.subrange(i, i + sep.len()) == sep
}

/// Whether `part` stands somewhere in `s`.
pub open spec fn contains_text(s: Seq<char>, part: Seq<char>) -> bool {
    exists|i: int| occurs_at(s, part, i)
}

/// Where `sep` first stands in `s`.
pub open spec fn is_first_at(s: Seq<char>, sep: Seq<char>, i: int) -> bool {
    occurs_at(s, sep, i) && forall|j: int| 0 <= j < i ==> !occurs_at(s, sep, j)
}

/// The text before and after the first `sep`.
pub open spec fn cut(s: Seq<char>, sep: Seq<char>) -> Option<(Seq<char>, Seq<char>)> {
    if contains_text(s, sep) {
        let i = choose|i: int| is_first_at(s, sep, i);
        Some((s.take(i), s.skip(i + sep.len())))
    } else {
        None
    }
}

/// Whether `s` begins with `start`.
pub open spec fn begins(s: Seq<char>, start: Seq<char>) -> bool {
    start.len() <= s.len() && s.take(start.len() as int) == start
}

/// Whether `s` ends with `end`.
pub open spec fn ends(s: Seq<char>, end: Seq<char>) -> bool {
    end.len() <= s.len() && s.skip(s.len() - end.len()) == end
}

/// One decimal digit.
pub open spec fn digit_char(d: nat) -> char {
    (48 + d) as u8 as char
}

/// The decimal numeral of `n`, without leading zeros.
pub open spec fn decimal_of(n: nat) -> Seq<char>
    decreases n,
{
    if n < 10 {
        seq![digit_char(n)]
    } else {
        decimal_of(n / 10).push(digit_char(n % 10))
    }
}

/// Whether every character is a decimal digit.
pub open spec fn all_digits(s: Seq<char>) -> bool {
    forall|i: int| 0 <= i < s.len() ==> '0' <= #[trigger] s[i] && s[i] <= '9'
}

/// The number that a string of digits denotes.
pub open spec fn digits_value(s: Seq<char>) -> nat
    decreases s.len(),
{
    if s.len() == 0 {
        0
    } else {
        digits_value(s.drop_last()) * 10 + ((s.last() as u32) - 48) as nat
    }
}

/// The number that a numeral denotes: digits, with one optional `+` before
/// them; nothing else is a numeral.
pub open spec fn numeral_value(s: Seq<char>) -> Option<nat> {
    let digits = if s.len() > 0 && s[0] == '+' { s.skip(1) } else { s };
    if digits.len() > 0 && all_digits(digits) {
        Some(digits_value(digits))
    } else {
        None
    }
}

/// The characters of a string.
pub fn chars_of(s: &str) -> (r: Vec<char>)
    ensures
        r@ == s@,
{
    let mut out: Vec<char> = Vec::new();
    for c in it: s.chars()
        invariant
            out@ == s@.take(it.index()),
            it.seq() == s@,
    {
        out.push(c);
    }
    out
}

/// The string of the characters from `from` up to `to`.
pub fn string_between(v: &Vec<char>, from: usize, to: usize) -> (r: String)
    requires
        from <= to <= v@.len(),
    ensures
        r@ == v@.subrange(from as int, to as int),
{
    let mut out = String::new();
    let mut i: usize = from;
    while i < to
        invariant
            from <= i <= to <= v@.len(),
            out@ == v@.subrange(from as int, i as int),
        decreases to - i,
    {
        out.push(v[i]);
        i += 1;
        assert(out@ == v@.subrange(from as int, i as int));
    }
    out
}

/// Whether two strings hold the same text.
pub fn same_text(a: &str, b: &str) -> (r: bool)
    ensures
        r == (a@ == b@),
{
    a.to_owned() == b.to_owned()
}

/// A copy of an optional string.
pub fn clone_text(s: &Option<String>) -> (r: Option<String>)
    ensures
        r == *s,
{
    match s {
        Some(t) => Some(t.clone()),
        None => None,
    }
}

/// ASCII lower case (`str::to_ascii_lowercase`).
pub fn to_lower(s: &str) -> (r: String)
    ensures
        r@ == lower(s@),
{
    let v = chars_of(s);
    let mut out = String::new();
    let mut i: usize = 0;
    while i < v.len()
        invariant
            i <= v@.len(),
            v@ == s@,
            out@ == lower(s@).take(i as int),
        decreases v@.len() - i,
    {
        let c = v[i];
        let l = if 'A' <= c && c <= 'Z' {
            ((c as u8) + 32) as char
        } else {
            c
        };
        out.push(l);
        i += 1;
        assert(out@ == lower(s@).take(i as int));
    }
    assert(lower(s@).take(i as int) == lower(s@));
    out
}

/// Whether a character is white space (`char::is_whitespace`).
pub fn space(c: char) -> (r: bool)
    ensures
        r == is_space(c),
{
    ('\u{9}' <= c && c <= '\u{d}') || c == ' ' || c == '\u{85}' || c == '\u{a0}' || c == '\u{1680}'
        || ('\u{2000}' <= c && c <= '\u{200a}') || c == '\u{2028}' || c == '\u{2029}' || c
        == '\u{202f}' || c == '\u{205f}' || c == '\u{3000}'
}

/// The text without the white space around it (`str::trim`).
pub fn trim(s: &str) -> (r: String)
    ensures
        r@ == trimmed(s@),
{
    let v = chars_of(s);
    let mut from: usize = 0;
    proof {
        assert(s@.skip(0) == s@);
    }
    while from < v.len() && space(v[from])
        invariant
            from <= v@.len(),
            v@ == s@,
            trimmed_start(s@) == trimmed_start(s@.skip(from as int)),
        decreases v@.len() - from,
    {
        proof {
            assert(s@.skip(from as int).skip(1) == s@.skip(from + 1));
        }
        from += 1;
    }
    let mut to: usize = v.len();
    proof {
        assert(s@.skip(from as int) == s@.subrange(from as int, to as int));
    }
    while to > from && space(v[to - 1])
        invariant
            from <= to <= v@.len(),
            v@ == s@,
            trimmed(s@) == trimmed_end(s@.subrange(from as int, to as int)),
        decreases to,
    {
        proof {
            assert(s@.subrange(from as int, to as int).drop_last() == s@.subrange(
                from as int,
                to - 1,
            ));
        }
        to -= 1;
    }
    string_between(&v, from, to)
}

/// How many characters stand in `v` from `from` on before the next `c`.
fn run_before(v: &Vec<char>, from: usize, c: char) -> (k: usize)
    requires
        from <= v@.len(),
    ensures
        k == before_char(v@.skip(from as int), c),
        from + k <= v@.len(),
{
    let n: usize = v.len();
    let mut k: usize = 0;
    proof {
        assert(v@.skip(from as int).skip(0) == v@.skip(from as int));
    }
    while from + k < n && v[from + k] != c
        invariant
            n == v@.len(),
            from + k <= n,
            before_char(v@.skip(from as int), c) == k + before_char(v@.skip(from + k), c),
        decreases v@.len() - from - k,
    {
        proof {
            assert(v@.skip(from + k).skip(1) == v@.skip(from + k + 1));
        }
        k += 1;
    }
    k
}

/// The pieces between the occurrences of `c` (`str::split` on a character).
pub fn split(s: &str, c: char) -> (r: Vec<String>)
    ensures
        texts(r@) == pieces(s@, c),
{
    let v = chars_of(s);
    let mut out: Vec<String> = Vec::new();
    let n: usize = v.len();
    let mut from: usize = 0;
    proof {
        assert(s@.skip(0) == s@);
        assert(texts(out@) + pieces(s@, c) =~= pieces(s@, c));
    }
    loop
        invariant
            n == v@.len(),
            from <= n,
            v@ == s@,
            texts(out@) + pieces(s@.skip(from as int), c) == pieces(s@, c),
        decreases v@.len() - from,
    {
        let k = run_before(&v, from, c);
        let ghost rest = s@.skip(from as int);
        let piece = string_between(&v, from, from + k);
        proof {
            assert(piece@ == rest.take(k as int));
        }
        let ghost before = texts(out@);
        out.push(piece);
        proof {
            assert(texts(out@) =~= before.push(piece@));
        }
        if from + k >= n {
            proof {
                assert(rest.take(k as int) == rest);
                assert(pieces(rest, c) == seq![rest]);
                assert(before + seq![rest] =~= before.push(piece@));
            }
            return out;
        }
        proof {
            assert(pieces(rest, c) == seq![rest.take(k as int)] + pieces(rest.skip(k + 1), c));
            assert(rest.skip(k + 1) == s@.skip(from + k + 1));
            assert(before + (seq![piece@] + pieces(s@.skip(from + k + 1), c)) =~= before.push(piece@)
                + pieces(s@.skip(from + k + 1), c));
        }
        from = from + k + 1;
    }
}

/// The lines of a text (`str::lines`).
pub fn lines(s: &str) -> (r: Vec<String>)
    ensures
        texts(r@) == lines_of(s@),
{
    let v = chars_of(s);
    let mut out: Vec<String> = Vec::new();
    let mut from: usize = 0;
    proof {
        assert(s@.skip(0) == s@);
        assert(texts(out@) + lines_of(s@) =~= lines_of(s@));
    }
    while from < v.len()
        invariant
            from <= v@.len(),
            v@ == s@,
            texts(out@) + lines_of(s@.skip(from as int)) == lines_of(s@),
        decreases v@.len() - from,
    {
        let k = run_before(&v, from, '\n');
        let ghost rest = s@.skip(from as int);
        let ghost before = texts(out@);
        if from + k >= v.len() {
            let line = string_between(&v, from, from + k);
            proof {
                assert(line@ == rest);
                assert(lines_of(rest) == seq![rest]);
            }
            out.push(line);
            proof {
                assert(texts(out@) =~= before.push(line@));
                assert(before + seq![rest] =~= before.push(rest));
                assert(lines_of(s@.skip(v@.len() as int)) =~= Seq::<Seq<char>>::empty());
                assert(texts(out@) + Seq::<Seq<char>>::empty() =~= texts(out@));
            }
            from = v.len();
        } else {
            let to = if k > 0 && v[from + k - 1] == '\r' {
                from + k - 1
            } else {
                from + k
            };
            let line = string_between(&v, from, to);
            proof {
                assert(line@ == without_cr(rest.take(k as int)));
            }
            out.push(line);
            proof {
                assert(texts(out@) =~= before.push(line@));
                assert(lines_of(rest) == seq![without_cr(rest.take(k as int))] + lines_of(
                    rest.skip(k + 1),
                ));
                assert(rest.skip(k + 1) == s@.skip(from + k + 1));
                assert(before + (seq![line@] + lines_of(s@.skip(from + k + 1))) =~= before.push(
                    line@,
                ) + lines_of(s@.skip(from + k + 1)));
            }
            from = from + k + 1;
        }
    }
    proof {
        assert(lines_of(s@.skip(from as int)) =~= Seq::<Seq<char>>::empty());
        assert(texts(out@) + Seq::<Seq<char>>::empty() =~= texts(out@));
    }
    out
}

/// Whether `sep` stands in `v` at position `i`.
fn stands_at(v: &Vec<char>, sep: &Vec<char>, i: usize) -> (r: bool)
    requires
        i <= v@.len(),
    ensures
        r == occurs_at(v@, sep@, i as int),
{
    let n: usize = v.len();
    if sep.len() > n - i {
        return false;
    }
    let mut k: usize = 0;
    while k < sep.len()
        invariant
            n == v@.len(),
            k <= sep@.len(),
            i + sep@.len() <= n,
            forall|j: int| 0 <= j < k ==> v@[i + j] == #[trigger] sep@[j],
        decreases sep@.len() - k,
    {
        if v[i + k] != sep[k] {
            proof {
                assert(v@.subrange(i as int, i + sep@.len())[k as int] != sep@[k as int]);
            }
            return false;
        }
        k += 1;
    }
    proof {
        assert(v@.subrange(i as int, i + sep@.len()) =~= sep@);
    }
    true
}

/// Where `sep` first stands in `v`.
fn find_first(v: &Vec<char>, sep: &Vec<char>) -> (r: Option<usize>)
    ensures
        match r {
            Some(i) => is_first_at(v@, sep@, i as int),
            None => !contains_text(v@, sep@),
        },
{
    let mut i: usize = 0;
    while i < v.len()
        invariant
            i <= v@.len(),
            forall|j: int| 0 <= j < i ==> !occurs_at(v@, sep@, j),
        decreases v@.len() - i,
    {
        if stands_at(v, sep, i) {
            return Some(i);
        }
        i += 1;
    }
    if stands_at(v, sep, i) {
        return Some(i);
    }
    None
}

/// The first place is one place.
pub proof fn lemma_cut_at(s: Seq<char>, sep: Seq<char>, i: int)
    requires
        is_first_at(s, sep, i),
    ensures
        cut(s, sep) == Some((s.take(i), s.skip(i + sep.len()))),
{
    let k = choose|k: int| is_first_at(s, sep, k);
    assert(is_first_at(s, sep, k));
    assert(k == i);
}

/// The text before and after the first `sep` (`str::split_once`).
pub fn split_once(s: &str, sep: &str) -> (r: Option<(String, String)>)
    ensures
        match r {
            Some((a, b)) => cut(s@, sep@) == Some((a@, b@)),
            None => cut(s@, sep@) is None,
        },
{
    let v = chars_of(s);
    let m = chars_of(sep);
    match find_first(&v, &m) {
        Some(i) => {
            proof {
                lemma_cut_at(s@, sep@, i as int);
            }
            let n: usize = v.len();
            let a = string_between(&v, 0, i);
            let b = string_between(&v, i + m.len(), n);
            proof {
                assert(a@ == s@.take(i as int));
                assert(b@ == s@.skip(i + sep@.len()));
            }
            Some((a, b))
        },
        None => None,
    }
}

/// Whether `s` begins with `start` (`str::starts_with`).
pub fn starts_with(s: &str, start: &str) -> (r: bool)
    ensures
        r == begins(s@, start@),
{
    let v = chars_of(s);
    let m = chars_of(start);
    let r = stands_at(&v, &m, 0);
    proof {
        if start@.len() <= s@.len() {
            assert(s@.subrange(0, start@.len() as int) == s@.take(start@.len() as int));
        }
    }
    r
}

/// Whether `s` ends with `end` (`str::ends_with`).
pub fn ends_with(s: &str, end: &str) -> (r: bool)
    ensures
        r == ends(s@, end@),
{
    let v = chars_of(s);
    let m = chars_of(end);
    if m.len() > v.len() {
        return false;
    }
    let at = v.len() - m.len();
    let r = stands_at(&v, &m, at);
    proof {
        assert(s@.subrange(at as int, at + end@.len()) == s@.skip(at as int));
    }
    r
}

/// The text after its first `n` characters.
pub fn skip_chars(s: &str, n: usize) -> (r: String)
    requires
        n <= s@.len(),
    ensures
        r@ == s@.skip(n as int),
{
    let v = chars_of(s);
    let r = string_between(&v, n, v.len());
    proof {
        assert(r@ == s@.skip(n as int));
    }
    r
}

/// The decimal numeral of `n` (`u64::to_string`).
pub fn decimal(n: u64) -> (r: String)
    ensures
        r@ == decimal_of(n as nat),
    decreases n,
{
    let mut out = if n < 10 {
        String::new()
    } else {
        decimal(n / 10)
    };
    out.push((48 + (n % 10) as u8) as char);
    proof {
        if n < 10 {
            assert(out@ =~= decimal_of(n as nat));
        }
    }
    out
}

/// Adding digits never makes the number smaller.
proof fn lemma_digits_value_grows(s: Seq<char>, k: int)
    requires
        0 <= k <= s.len(),
    ensures
        digits_value(s.take(k)) <= digits_value(s),
    decreases s.len(),
{
    if k < s.len() {
        assert(s.drop_last().take(k) == s.take(k));
        lemma_digits_value_grows(s.drop_last(), k);
    } else {
        assert(s.take(k) == s);
    }
}

/// The number that a numeral denotes, unless it is no numeral or the number
/// is too large (`str::parse::<u64>`).
pub fn parse_u64(s: &str) -> (r: Option<u64>)
    ensures
        match r {
            Some(n) => numeral_value(s@) == Some(n as nat),
            None => numeral_value(s@) is None || numeral_value(s@)->0 > u64::MAX,
        },
{
    let v = chars_of(s);
    let from: usize = if v.len() > 0 && v[0] == '+' {
        1
    } else {
        0
    };
    let ghost digits = s@.skip(from as int);
    proof {
        assert(s@.skip(0) == s@);
    }
    if from >= v.len() {
        return None;
    }
    let mut value: u64 = 0;
    let mut i: usize = from;
    proof {
        assert(digits.take(0) == Seq::<char>::empty());
    }
    while i < v.len()
        invariant
            from <= i <= v@.len(),
            v@ == s@,
            digits == s@.skip(from as int),
            digits.len() > 0,
            numeral_value(s@) == (if all_digits(digits) {
                Some(digits_value(digits))
            } else {
                None
            }),
            forall|j: int| 0 <= j < i - from ==> '0' <= #[trigger] digits[j] && digits[j] <= '9',
            value == digits_value(digits.take(i - from)),
        decreases v@.len() - i,
    {
        let c = v[i];
        proof {
            assert(digits[i - from] == c);
        }
        if !('0' <= c && c <= '9') {
            return None;
        }
        let d = ((c as u8) - 48) as u64;
        proof {
            assert(digits.take(i - from + 1).drop_last() == digits.take(i - from));
            assert(digits_value(digits.take(i - from + 1)) == value * 10 + d);
            lemma_digits_value_grows(digits, i - from + 1);
        }
        if value > (u64::MAX - d) / 10 {
            return None;
        }
        value = value * 10 + d;
        i += 1;
    }
    proof {
        assert(digits.take(i - from) == digits);
    }
    Some(value)
}

/// Folding to lower case twice is folding once.
pub proof fn lemma_lower_twice(s: Seq<char>)
    ensures
        lower(lower(s)) == lower(s),
{
    assert forall|i: int| 0 <= i < s.len() implies lower(lower(s))[i] == lower(s)[i] by {
        let c = s[i];
        if 'A' <= c && c <= 'Z' {
            assert((c as u8) + 32 >= 97);
            assert(lower_char(c) >= 'a');
        }
    }
    assert(lower(lower(s)) =~= lower(s));
}

/// UTF-8 encodes a text piece by piece.
pub proof fn lemma_encode_concat(a: Seq<char>, b: Seq<char>)
    ensures
        encode_utf8(a + b) == encode_utf8(a) + encode_utf8(b),
    decreases a.len(),
{
    if a.len() == 0 {
        assert(a + b =~= b);
        assert(encode_utf8(a) + encode_utf8(b) =~= encode_utf8(b));
    } else {
        lemma_encode_concat(a.drop_first(), b);
        assert((a + b).drop_first() =~= a.drop_first() + b);
        assert(encode_utf8(a + b) =~= encode_utf8(a) + encode_utf8(b));
    }
}

/// An ASCII character is encoded as one byte.
pub proof fn lemma_encode_ascii(c: char)
    requires
        c <= '\u{7f}',
    ensures
        encode_utf8(seq![c]) == seq![c as u8],
{
    let u = c as u32;
    assert(u as u8 == leading_byte_width_1(u)) by (bit_vector)
        requires
            u < 128,
    ;
    assert(seq![c].drop_first() =~= Seq::<char>::empty());
    assert(encode_utf8(seq![c]) == encode_scalar(u) + encode_utf8(Seq::<char>::empty()));
    assert(encode_utf8(seq![c]) =~= seq![c as u8]);
}

/// An ASCII character of a text is a byte of its UTF-8 encoding.
pub proof fn lemma_ascii_char_encoded(s: Seq<char>, i: int)
    requires
        0 <= i < s.len(),
        s[i] <= '\u{7f}',
    ensures
        encode_utf8(s).contains(s[i] as u8),
{
    let a = s.take(i);
    let c = seq![s[i]];
    let b = s.skip(i + 1);
    assert(s =~= a + (c + b));
    lemma_encode_concat(a, c + b);
    lemma_encode_concat(c, b);
    lemma_encode_ascii(s[i]);
    assert(encode_utf8(c)[0] == s[i] as u8);
    assert(encode_utf8(s)[encode_utf8(a).len() as int] == s[i] as u8);
}

/// When no `c` stands in `a`, the first `c` of `a`, `c` and more is the one
/// after `a`.
pub proof fn lemma_before_char(a: Seq<char>, c: char, rest: Seq<char>)
    requires
        !a.contains(c),
    ensures
        before_char(a + seq![c] + rest, c) == a.len(),
    decreases a.len(),
{
    let s = a + seq![c] + rest;
    if a.len() == 0 {
        assert(s[0] == c);
    } else {
        assert(s[0] == a[0]);
        assert(a.contains(a[0]));
        let t = a.skip(1);
        assert forall|x: char| t.contains(x) implies a.contains(x) by {
            let i = choose|i: int| 0 <= i < t.len() && t[i] == x;
            assert(a[i + 1] == x);
        }
        lemma_before_char(t, c, rest);
        assert(s.skip(1) =~= t + seq![c] + rest);
    }
}

/// Every decimal numeral is made of digits, at least one, and denotes the
/// number that it was made from.
pub proof fn lemma_decimal_value(n: nat)
    ensures
        decimal_of(n).len() > 0,
        all_digits(decimal_of(n)),
        digits_value(decimal_of(n)) == n,
        numeral_value(decimal_of(n)) == Some(n),
    decreases n,
{
    let s = decimal_of(n);
    if n < 10 {
        assert(s.drop_last() =~= Seq::<char>::empty());
    } else {
        lemma_decimal_value(n / 10);
        assert(s.drop_last() =~= decimal_of(n / 10));
    }
    assert(s.last() == digit_char(n % 10));
    assert((s.last() as u32) - 48 == n % 10);
    assert(digits_value(s) == digits_value(s.drop_last()) * 10 + n % 10);
}

/// Two characters that differ at most in the case of an ASCII letter.
pub open spec fn same_but_for_case(a: char, b: char) -> bool {
    ||| a == b
    ||| 'A' <= a && a <= 'Z' && b as int == a as int + 32
    ||| 'A' <= b && b <= 'Z' && a as int == b as int + 32
}

/// Two characters fold to the same one exactly when they differ at most in
/// the case of an ASCII letter, and what is folded holds no ASCII capital.
pub proof fn law_folding_is_case_only(a: char, b: char)
    ensures
        lower_char(a) == lower_char(b) <==> same_but_for_case(a, b),
        !('A' <= lower_char(a) && lower_char(a) <= 'Z'),
        same_but_for_case(a, lower_char(a)),
{
    if 'A' <= a && a <= 'Z' {
        assert(lower_char(a) as int == a as int + 32);
    }
    if 'A' <= b && b <= 'Z' {
        assert(lower_char(b) as int == b as int + 32);
    }
}

/// Two texts fold to the same one exactly when they are equally long and their
/// characters differ, position by position, at most in the case of an ASCII
/// letter.
pub proof fn law_folded_texts_agree(a: Seq<char>, b: Seq<char>)
    ensures
        lower(a).len() == a.len(),
        lower(a) == lower(b) <==> a.len() == b.len() && forall|i: int|
            0 <= i < a.len() ==> same_but_for_case(#[trigger] a[i], b[i]),
{
    if lower(a) == lower(b) {
        assert(lower(a).len() == lower(b).len());
        assert forall|i: int| 0 <= i < a.len() implies same_but_for_case(
            #[trigger] a[i],
            b[i],
        ) by {
            assert(lower(a)[i] == lower(b)[i]);
            law_folding_is_case_only(a[i], b[i]);
        }
    }
    if a.len() == b.len() && forall|i: int|
        0 <= i < a.len() ==> same_but_for_case(#[trigger] a[i], b[i]) {
        assert forall|i: int| 0 <= i < a.len() implies lower(a)[i] == lower(b)[i] by {
            law_folding_is_case_only(a[i], b[i]);
        }
        assert(lower(a) =~= lower(b));
    }
}

/// Whether every character of a text is white space.
pub open spec fn all_space(s: Seq<char>) -> bool {
    forall|i: int| 0 <= i < s.len() ==> is_space(#[trigger] s[i])
}

/// What is trimmed at the start is white space, and all of it there.
proof fn lemma_trimmed_start(s: Seq<char>)
    ensures
        trimmed_start(s).len() <= s.len(),
        trimmed_start(s) == s.skip(s.len() - trimmed_start(s).len()),
        all_space(s.take(s.len() - trimmed_start(s).len())),
        trimmed_start(s).len() > 0 ==> !is_space(trimmed_start(s)[0]),
    decreases s.len(),
{
    if s.len() > 0 && is_space(s[0]) {
        let t = s.skip(1);
        lemma_trimmed_start(t);
        let k = t.len() - trimmed_start(t).len();
        assert(t.skip(k) =~= s.skip(k + 1));
        assert forall|i: int| 0 <= i < k + 1 implies is_space(#[trigger] s.take(k + 1)[i]) by {
            if i > 0 {
                assert(t.take(k)[i - 1] == s[i]);
            }
        }
    } else {
        assert(s.skip(0) =~= s);
    }
}

/// What is trimmed at the end is white space, and all of it there.
proof fn lemma_trimmed_end(s: Seq<char>)
    ensures
        trimmed_end(s).len() <= s.len(),
        trimmed_end(s) == s.take(trimmed_end(s).len() as int),
        all_space(s.skip(trimmed_end(s).len() as int)),
        trimmed_end(s).len() > 0 ==> !is_space(trimmed_end(s).last()),
    decreases s.len(),
{
    if s.len() > 0 && is_space(s.last()) {
        let t = s.drop_last();
        lemma_trimmed_end(t);
        let k = trimmed_end(t).len() as int;
        assert(t.take(k) =~= s.take(k));
        assert forall|i: int| 0 <= i < s.len() - k implies is_space(#[trigger] s.skip(k)[i]) by {
            if i < t.len() - k {
                assert(t.skip(k)[i] == s[k + i]);
            }
        }
    } else {
        assert(s.take(s.len() as int) =~= s);
    }
}

/// Trimming takes away white space only, from the two ends only, and all of
/// it: what is left stands in the text between two runs of white space, and
/// neither begins nor ends with any.
pub proof fn law_trimming_takes_the_space_around(s: Seq<char>)
    ensures
        exists|a: Seq<char>, b: Seq<char>|
            s == #[trigger] (a + trimmed(s) + b) && all_space(a) && all_space(b),
        trimmed(s).len() > 0 ==> !is_space(trimmed(s)[0]) && !is_space(trimmed(s).last()),
{
    let t = trimmed_start(s);
    lemma_trimmed_start(s);
    lemma_trimmed_end(t);
    let a = s.take(s.len() - t.len());
    let b = t.skip(trimmed(s).len() as int);
    assert(s =~= a + trimmed(s) + b);
    if trimmed(s).len() > 0 {
        assert(trimmed(s)[0] == t[0]);
    }
}

/// What is trimmed of a text with white space around it is the text, if it
/// neither begins nor ends with white space itself.
pub proof fn law_trimming_undoes_padding(a: Seq<char>, s: Seq<char>, b: Seq<char>)
    requires
        all_space(a),
        all_space(b),
        s.len() > 0,
        !is_space(s[0]),
        !is_space(s.last()),
    ensures
        trimmed(a + s + b) == s,
{
    let w = a + s + b;
    let t = trimmed_start(w);
    lemma_trimmed_start(w);
    lemma_trimmed_end(t);
    let k = w.len() - t.len();
    if k < a.len() {
        assert(w[k] == a[k]);
        assert(t[0] == w[k]);
    }
    if k > a.len() {
        assert(w.take(k)[a.len() as int] == s[0]);
    }
    assert(t =~= s + b);
    let n = trimmed_end(t).len() as int;
    if n > s.len() {
        assert(trimmed_end(t).last() == b[n - 1 - s.len()]);
    }
    if n < s.len() {
        assert(t.skip(n)[s.len() - 1 - n] == s.last());
    }
    assert(trimmed_end(t) =~= s);
}

/// ASCII blanks are white space and no letter, digit or punctuation mark is.
pub proof fn law_visible_ascii_is_no_space(c: char)
    requires
        c < '\u{7f}',
    ensures
        is_space(c) <==> c == ' ' || c == '\t' || c == '\n' || c == '\r' || c == '\u{b}' || c
            == '\u{c}',
{
}

/// Texts with `c` between each two.
pub open spec fn joined(parts: Seq<Seq<char>>, c: char) -> Seq<char>
    decreases parts.len(),
{
    if parts.len() == 0 {
        Seq::empty()
    } else if parts.len() == 1 {
        parts[0]
    } else {
        parts[0] + seq![c] + joined(parts.skip(1), c)
    }
}

/// The first `c` stands where the text before it ends.
proof fn lemma_before_char_stops(s: Seq<char>, c: char)
    ensures
        before_char(s, c) <= s.len(),
        before_char(s, c) < s.len() ==> s[before_char(s, c) as int] == c,
        !s.take(before_char(s, c) as int).contains(c),
    decreases s.len(),
{
    let k = before_char(s, c) as int;
    if s.len() > 0 && s[0] != c {
        lemma_before_char_stops(s.skip(1), c);
        assert forall|i: int| 0 <= i < k implies s.take(k)[i] != c by {
            if i > 0 {
                assert(s.skip(1).take(k - 1)[i - 1] == s[i]);
                assert(s.skip(1).take(k - 1).contains(s[i]));
            }
        }
    }
}

/// The pieces of a text hold no `c`, and put together again with `c` between
/// them they are the text.
pub proof fn law_pieces_join_to_the_text(s: Seq<char>, c: char)
    ensures
        pieces(s, c).len() > 0,
        joined(pieces(s, c), c) == s,
        forall|i: int| 0 <= i < pieces(s, c).len() ==> !(#[trigger] pieces(s, c)[i]).contains(c),
    decreases s.len(),
{
    let k = before_char(s, c) as int;
    lemma_before_char_stops(s, c);
    if k >= s.len() {
        assert(s.take(k) =~= s);
    } else {
        let rest = s.skip(k + 1);
        law_pieces_join_to_the_text(rest, c);
        assert(pieces(s, c).skip(1) =~= pieces(rest, c));
        assert(s =~= s.take(k) + seq![c] + rest);
        assert forall|i: int| 0 <= i < pieces(s, c).len() implies !(#[trigger] pieces(
            s,
            c,
        )[i]).contains(c) by {
            if i > 0 {
                assert(pieces(s, c)[i] == pieces(rest, c)[i - 1]);
            }
        }
    }
}

/// Lines, each with its ending.
pub open spec fn ended(lines: Seq<Seq<char>>) -> Seq<char>
    decreases lines.len(),
{
    if lines.len() == 0 {
        Seq::empty()
    } else {
        lines[0] + seq!['\n'] + ended(lines.skip(1))
    }
}

/// The lines of a text that was put together from lines are those lines.
pub proof fn law_lines_of_ended_lines(lines: Seq<Seq<char>>)
    requires
        forall|i: int|
            0 <= i < lines.len() ==> !(#[trigger] lines[i]).contains('\n') && (lines[i].len() > 0
                ==> lines[i].last() != '\r'),
    ensures
        lines_of(ended(lines)) == lines,
    decreases lines.len(),
{
    if lines.len() > 0 {
        let rest = lines.skip(1);
        assert forall|i: int| 0 <= i < rest.len() implies !(#[trigger] rest[i]).contains('\n') && (
        rest[i].len() > 0 ==> rest[i].last() != '\r') by {
            assert(rest[i] == lines[i + 1]);
        }
        law_lines_of_ended_lines(rest);
        let s = ended(lines);
        lemma_before_char(lines[0], '\n', ended(rest));
        let k = before_char(s, '\n') as int;
        assert(s.take(k) =~= lines[0]);
        assert(s.skip(k + 1) =~= ended(rest));
        assert(lines_of(s) =~= seq![lines[0]] + rest);
        assert(lines =~= seq![lines[0]] + rest);
    }
}

/// A line may end in `\r\n` as well: the carriage return belongs to the
/// ending, not to the line.
pub proof fn law_carriage_return_ends_the_line(line: Seq<char>, rest: Seq<char>)
    requires
        !line.contains('\n'),
        line.len() > 0 ==> line.last() != '\r',
    ensures
        lines_of(line + seq!['\r', '\n'] + rest) == seq![line] + lines_of(rest),
        lines_of(line + seq!['\n'] + rest) == seq![line] + lines_of(rest),
{
    let with_cr = line.push('\r');
    let s = line + seq!['\r', '\n'] + rest;
    assert(s =~= with_cr + seq!['\n'] + rest);
    lemma_before_char(with_cr, '\n', rest);
    assert(s.take(with_cr.len() as int) =~= with_cr);
    assert(with_cr.drop_last() =~= line);
    assert(s.skip(with_cr.len() as int + 1) =~= rest);
    let t = line + seq!['\n'] + rest;
    lemma_before_char(line, '\n', rest);
    assert(t.take(line.len() as int) =~= line);
    assert(t.skip(line.len() as int + 1) =~= rest);
}

/// A text is cut at a separator exactly when the separator stands in it; the
/// two sides put round the separator are the text again, and no separator
/// begins before the place of the cut.
pub proof fn law_cut_is_at_the_first(s: Seq<char>, sep: Seq<char>)
    ensures
        cut(s, sep) is Some <==> contains_text(s, sep),
        match cut(s, sep) {
            Some((a, b)) => s == a + sep + b && forall|j: int|
                0 <= j < a.len() ==> !#[trigger] occurs_at(s, sep, j),
            None => true,
        },
{
    if contains_text(s, sep) {
        let w = choose|i: int| occurs_at(s, sep, i);
        lemma_some_first(s, sep, w);
        let i = choose|i: int| is_first_at(s, sep, i);
        assert(is_first_at(s, sep, i));
        assert(s =~= s.take(i) + sep + s.skip(i + sep.len())) by {
            assert(s.subrange(i, i + sep.len()) == sep);
            assert forall|j: int| 0 <= j < sep.len() implies s[i + j] == sep[j] by {
                assert(s.subrange(i, i + sep.len())[j] == sep[j]);
            }
        }
    }
}

/// Of the places where a separator stands one is the first.
proof fn lemma_some_first(s: Seq<char>, sep: Seq<char>, w: int)
    requires
        occurs_at(s, sep, w),
    ensures
        exists|i: int| is_first_at(s, sep, i),
    decreases w,
{
    if exists|j: int| 0 <= j < w && occurs_at(s, sep, j) {
        let j = choose|j: int| 0 <= j < w && occurs_at(s, sep, j);
        lemma_some_first(s, sep, j);
    } else {
        assert(is_first_at(s, sep, w));
    }
}

/// A text begins with another exactly when it is that one and something more,
/// and ends with another exactly when it is something and that one.
pub proof fn law_beginnings_and_ends(s: Seq<char>, part: Seq<char>)
    ensures
        begins(s, part) <==> exists|rest: Seq<char>| s == #[trigger] (part + rest),
        ends(s, part) <==> exists|rest: Seq<char>| s == #[trigger] (rest + part),
{
    if begins(s, part) {
        assert(s =~= part + s.skip(part.len() as int)) by {
            assert forall|i: int| 0 <= i < part.len() implies s[i] == part[i] by {
                assert(s.take(part.len() as int)[i] == part[i]);
            }
        }
    }
    if exists|rest: Seq<char>| s == #[trigger] (part + rest) {
        let rest = choose|rest: Seq<char>| s == #[trigger] (part + rest);
        assert(s.take(part.len() as int) =~= part);
    }
    if ends(s, part) {
        let n = s.len() - part.len();
        assert(s =~= s.take(n) + part) by {
            assert forall|i: int| n <= i < s.len() implies s[i] == part[i - n] by {
                assert(s.skip(n)[i - n] == part[i - n]);
            }
        }
    }
    if exists|rest: Seq<char>| s == #[trigger] (rest + part) {
        let rest = choose|rest: Seq<char>| s == #[trigger] (rest + part);
        assert(s.skip(s.len() - part.len()) =~= part);
    }
}

/// Decimal numerals: one digit for a number below ten, and one digit more,
/// the units, for every power of ten.
pub proof fn law_decimal_numerals(n: nat, d: nat)
    requires
        d < 10,
    ensures
        decimal_of(d) == seq!["0123456789"@[d as int]],
        n > 0 ==> decimal_of(10 * n + d) == decimal_of(n).push("0123456789"@[d as int]),
{
    reveal_strlit("0123456789");
    if n > 0 {
        assert((10 * n + d) / 10 == n);
        assert((10 * n + d) % 10 == d);
    }
}

/// A numeral tells its number: different numbers have different numerals.
pub proof fn law_numerals_differ(m: nat, n: nat)
    requires
        decimal_of(m) == decimal_of(n),
    ensures
        m == n,
{
    lemma_decimal_value(m);
    lemma_decimal_value(n);
}

/// What is read of a numeral: the number that it was written for, also with a
/// `+` before it, and nothing of a text with any other character.
pub proof fn law_numeral_reads_back(n: nat, s: Seq<char>)
    ensures
        numeral_value(decimal_of(n)) == Some(n),
        numeral_value(seq!['+'] + decimal_of(n)) == Some(n),
        numeral_value(s) is Some ==> s.len() > 0 && forall|i: int|
            0 < i < s.len() ==> '0' <= #[trigger] s[i] && s[i] <= '9',
        numeral_value(s) is Some ==> s[0] == '+' && s.len() > 1 || '0' <= s[0] && s[0] <= '9',
{
    lemma_decimal_value(n);
    let t = seq!['+'] + decimal_of(n);
    assert(t.skip(1) =~= decimal_of(n));
    if numeral_value(s) is Some {
        let digits = if s[0] == '+' {
            s.skip(1)
        } else {
            s
        };
        assert forall|i: int| 0 < i < s.len() implies '0' <= #[trigger] s[i] && s[i] <= '9' by {
            if s[0] == '+' {
                assert(digits[i - 1] == s[i]);
            } else {
                assert(digits[i] == s[i]);
            }
        }
        if s[0] != '+' {
            assert(digits[0] == s[0]);
        }
    }
}

/// Where a piece of a text stands: at the start or after a `c`, and up to the
/// next `c` or the end.
pub proof fn lemma_piece_stands(s: Seq<char>, c: char, k: int) -> (i: int)
    requires
        0 <= k < pieces(s, c).len(),
    ensures
        0 <= i <= i + pieces(s, c)[k].len() <= s.len(),
        s.subrange(i, i + pieces(s, c)[k].len()) == pieces(s, c)[k],
        i == 0 || s[i - 1] == c,
        i + pieces(s, c)[k].len() == s.len() || s[i + pieces(s, c)[k].len()] == c,
        !pieces(s, c)[k].contains(c),
    decreases s.len(),
{
    let n = before_char(s, c) as int;
    lemma_before_char_stops(s, c);
    if n >= s.len() {
        assert(s.take(n) =~= s);
        assert(s.subrange(0, s.len() as int) =~= s);
        0
    } else if k == 0 {
        assert(s.subrange(0, n) =~= s.take(n));
        0
    } else {
        let rest = s.skip(n + 1);
        assert(pieces(s, c)[k] == pieces(rest, c)[k - 1]);
        let i = lemma_piece_stands(rest, c, k - 1);
        let m = pieces(rest, c)[k - 1].len();
        assert(rest.subrange(i, i + m) =~= s.subrange(n + 1 + i, n + 1 + i + m));
        n + 1 + i
    }
}

/// What stands in a text between the start or a `c` and the next `c` or the
/// end is one of its pieces.
pub proof fn lemma_standing_piece(s: Seq<char>, c: char, i: int, j: int) -> (k: int)
    requires
        0 <= i <= j <= s.len(),
        i == 0 || s[i - 1] == c,
        j == s.len() || s[j] == c,
        !s.subrange(i, j).contains(c),
    ensures
        0 <= k < pieces(s, c).len(),
        pieces(s, c)[k] == s.subrange(i, j),
    decreases s.len(),
{
    let n = before_char(s, c) as int;
    lemma_before_char_stops(s, c);
    let p = s.subrange(i, j);
    if i == 0 {
        if n < j {
            assert(p[n] == c);
        }
        if n > j {
            assert(s.take(n)[j] == c);
        }
        assert(s.take(n) =~= p);
        if n >= s.len() {
            assert(s =~= p);
        }
        0
    } else {
        if n >= i {
            assert(s.take(n)[i - 1] == c);
        }
        let rest = s.skip(n + 1);
        assert(rest.subrange(i - n - 1, j - n - 1) =~= p);
        let k = lemma_standing_piece(rest, c, i - n - 1, j - n - 1);
        assert(pieces(s, c)[k + 1] == pieces(rest, c)[k]);
        k + 1
    }
}

} // verus!
