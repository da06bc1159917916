//! Character-level text helpers: decimal numbers, lines and whitespace-separated words.
use vstd::prelude::*;

verus! {

/// Calls `Iterator::collect::<String>` on the characters of `chars`: the string holds
/// exactly those characters, in order.
#[verifier::external_body]
pub(crate) fn string_from_chars(chars: &Vec<char>) -> (r: String)
    ensures
        r@ == chars@,
{
    chars.iter().collect()
}

/// The characters of `s`, in order.
pub fn chars_of(s: &str) -> (r: Vec<char>)
    ensures
        r@ == s@,
{
    broadcast use vstd::string::group_string_axioms;
    let mut out: Vec<char> = Vec::new();
    for c in it: s.chars()
        invariant
            out@ == it.seq().take(it.index() as int),
    {
        out.push(c);
    }
    assert(out@ =~= s@);
    out
}

/// The decimal digit character of `d` (for `d` in `0..10`).
pub open spec fn digit_char(d: nat) -> char {
    (('0' as nat) + d) as char
}

/// The decimal representation of `n`, without leading zeros (`"0"` for zero).
pub open spec fn decimal(n: nat) -> Seq<char>
    decreases n,
{
    if n < 10 {
        seq![digit_char(n)]
    } else {
        decimal(n / 10).push(digit_char(n % 10))
    }
}

/// The decimal representation of `n`.
pub fn usize_to_chars(n: usize) -> (r: Vec<char>)
    ensures
        r@ == decimal(n as nat),
    decreases n,
{
    if n < 10 {
        let c = char_of_digit(n);
        let mut v: Vec<char> = Vec::new();
        v.push(c);
        proof {
            assert(v@ =~= decimal(n as nat));
        }
        v
    } else {
        let mut v = usize_to_chars(n / 10);
        let c = char_of_digit(n % 10);
        v.push(c);
        v
    }
}

/// The digit character of `d`.
fn char_of_digit(d: usize) -> (c: char)
    requires
        d < 10,
    ensures
        c == digit_char(d as nat),
{
    if d == 0 { '0' }
    else if d == 1 { '1' }
    else if d == 2 { '2' }
    else if d == 3 { '3' }
    else if d == 4 { '4' }
    else if d == 5 { '5' }
    else if d == 6 { '6' }
    else if d == 7 { '7' }
    else if d == 8 { '8' }
    else { '9' }
}

/// Whether `c` is an ASCII digit.
pub open spec fn is_digit(c: char) -> bool {
    '0' <= c <= '9'
}

/// The value of an ASCII digit.
pub open spec fn digit_value(c: char) -> nat {
    (c as nat - '0' as nat) as nat
}

/// The value of a non-empty string of ASCII digits.
pub open spec fn digits_value(s: Seq<char>) -> nat
    decreases s.len(),
{
    if s.len() == 0 {
        0
    } else {
        digits_value(s.drop_last()) * 10 + digit_value(s.last())
    }
}

/// What `usize::from_str` gives: an optional `+` followed by at least one ASCII digit, whose
/// value fits in a `usize`; `None` otherwise.
pub open spec fn spec_parse_usize(s: Seq<char>) -> Option<usize> {
    let digits = unsigned_part(s);
    if digits.len() > 0 && all_digits(digits) && digits_value(digits) <= usize::MAX {
        Some(digits_value(digits) as usize)
    } else {
        None
    }
}

/// `s` without a leading `+` sign.
pub open spec fn unsigned_part(s: Seq<char>) -> Seq<char> {
    if s.len() > 0 && s[0] == '+' {
        s.drop_first()
    } else {
        s
    }
}

/// Every character of `s` is an ASCII digit.
pub open spec fn all_digits(s: Seq<char>) -> bool {
    forall|i: int| 0 <= i < s.len() ==> is_digit(#[trigger] s[i])
}

/// Parses a decimal `usize` as `usize::from_str` does: an optional `+` sign and one or more
/// ASCII digits, with no overflow.
pub fn parse_usize(s: &Vec<char>) -> (r: Option<usize>)
    ensures
        r == spec_parse_usize(s@),
{
    let mut start: usize = 0;
    if s.len() > 0 && s[0] == '+' {
        start = 1;
    }
    let ghost digits = unsigned_part(s@);
    if start >= s.len() {
        return None;
    }
    let mut value: usize = 0;
    let mut k: usize = start;
    proof {
        assert(digits =~= s@.skip(start as int));
        assert(digits.take(0) =~= Seq::<char>::empty());
    }
    while k < s.len()
        invariant
            start <= k <= s@.len(),
            digits == s@.skip(start as int),
            digits == unsigned_part(s@),
            forall|i: int| 0 <= i < k - start ==> is_digit(#[trigger] digits[i]),
            value == digits_value(digits.take(k - start)),
        decreases s@.len() - k,
    {
        let c = s[k];
        if !('0' <= c && c <= '9') {
            proof {
                let j = k - start;
                assert(!is_digit(digits[j]));
                assert(!(forall|i: int| 0 <= i < digits.len() ==> is_digit(#[trigger] digits[i])));
            }
            return None;
        }
        let d = (c as u32 - '0' as u32) as usize;
        proof {
            assert(digits.take(k - start + 1).drop_last() =~= digits.take(k - start));
            lemma_digits_value_prefix_le(digits, k - start + 1);
        }
        if value > (usize::MAX - d) / 10 {
            proof {
                assert(digits_value(digits.take(k - start + 1)) == value * 10 + d);
                assert(value * 10 + d > usize::MAX) by (nonlinear_arith)
                    requires value > (usize::MAX - d) / 10, d < 10;
                assert(digits.take(k - start + 1) =~= digits.take(k - start + 1));
                assert forall|i: int| 0 <= i < k - start + 1 implies is_digit(#[trigger] digits[i]) by {
                    if i == k - start { assert(digits[i] == c); }
                }
                if all_digits(digits) {
                    lemma_digits_value_mono(digits, k - start + 1);
                }
            }
            return None;
        }
        value = value * 10 + d;
        k = k + 1;
    }
    proof {
        assert(digits.take(k - start) =~= digits);
    }
    Some(value)
}

/// The value of a digit prefix never exceeds that of a longer digit prefix.
proof fn lemma_digits_value_mono(s: Seq<char>, i: int)
    requires
        0 <= i <= s.len(),
        forall|k: int| 0 <= k < s.len() ==> is_digit(#[trigger] s[k]),
    ensures
        digits_value(s.take(i)) <= digits_value(s),
    decreases s.len() - i,
{
    if i < s.len() {
        lemma_digits_value_mono(s, i + 1);
        assert(s.take(i + 1).drop_last() =~= s.take(i));
        assert(digits_value(s.take(i)) * 10 + digit_value(s[i]) >= digits_value(s.take(i)));
    } else {
        assert(s.take(i) =~= s);
    }
}

/// Prefixes of a sequence are prefixes (helper to keep `take` terms aligned).
proof fn lemma_digits_value_prefix_le(s: Seq<char>, i: int)
    requires
        0 < i <= s.len(),
    ensures
        s.take(i).drop_last() == s.take(i - 1),
{
    assert(s.take(i).drop_last() =~= s.take(i - 1));
}

/// Whether `char::is_alphabetic` holds of `c` (the Unicode `Alphabetic` property).
pub uninterp spec fn alphabetic(c: char) -> bool;

/// Whether `char::is_numeric` holds of `c` (the Unicode numeric general categories).
pub uninterp spec fn numeric(c: char) -> bool;

/// Calls `char::is_alphabetic`; the result is named, not restated.
#[verifier::external_body]
pub(crate) fn char_is_alphabetic(c: char) -> (r: bool)
    ensures
        r == alphabetic(c),
{
    c.is_alphabetic()
}

/// Calls `char::is_numeric`; the result is named, not restated.
#[verifier::external_body]
pub(crate) fn char_is_numeric(c: char) -> (r: bool)
    ensures
        r == numeric(c),
{
    c.is_numeric()
}

/// The number of bytes of `c` in UTF-8.
pub open spec fn utf8_len(c: char) -> nat {
    if (c as u32) < 0x80 {
        1
    } else if (c as u32) < 0x800 {
        2
    } else if (c as u32) < 0x10000 {
        3
    } else {
        4
    }
}

/// The number of bytes of `s` in UTF-8 (what `String::len` reports).
pub open spec fn byte_len(s: Seq<char>) -> nat
    decreases s.len(),
{
    if s.len() == 0 {
        0
    } else {
        byte_len(s.drop_last()) + utf8_len(s.last())
    }
}

/// The UTF-8 length of `s` never exceeds four bytes a character.
pub proof fn lemma_byte_len_le(s: Seq<char>)
    ensures
        byte_len(s) <= 4 * s.len(),
    decreases s.len(),
{
    if s.len() > 0 {
        lemma_byte_len_le(s.drop_last());
    }
}

/// The UTF-8 length of `s`, in bytes.
pub fn utf8_byte_len(s: &Vec<char>) -> (r: usize)
    requires
        4 * s@.len() <= usize::MAX,
    ensures
        r == byte_len(s@),
{
    let mut total: usize = 0;
    let mut k: usize = 0;
    proof {
        assert(s@.take(0) =~= Seq::<char>::empty());
    }
    while k < s.len()
        invariant
            k <= s@.len(),
            4 * s@.len() <= usize::MAX,
            total == byte_len(s@.take(k as int)),
        decreases s@.len() - k,
    {
        let c = s[k];
        let n: usize = if (c as u32) < 0x80 {
            1
        } else if (c as u32) < 0x800 {
            2
        } else if (c as u32) < 0x10000 {
            3
        } else {
            4
        };
        proof {
            assert(s@.take(k as int + 1).drop_last() =~= s@.take(k as int));
            lemma_byte_len_le(s@.take(k as int));
        }
        total = total + n;
        k = k + 1;
    }
    proof {
        assert(s@.take(k as int) =~= s@);
    }
    total
}

/// Whether `c` is ASCII whitespace, as `char::is_ascii_whitespace` defines it.
pub open spec fn is_ascii_space(c: char) -> bool {
    c == ' ' || c == '\t' || c == '\n' || c == '\x0C' || c == '\r'
}

/// The pieces of `s` between `'\n'` characters, appended to `acc` after the current piece `cur`
/// (what `str::split('\n')` yields, empty pieces included).
pub open spec fn split_lines_from(s: Seq<char>, cur: Seq<char>, acc: Seq<Seq<char>>) -> Seq<Seq<char>>
    decreases s.len(),
{
    if s.len() == 0 {
        acc.push(cur)
    } else if s[0] == '\n' {
        split_lines_from(s.drop_first(), Seq::empty(), acc.push(cur))
    } else {
        split_lines_from(s.drop_first(), cur.push(s[0]), acc)
    }
}

/// The lines of `s`: the pieces between `'\n'` characters, as `str::split('\n')` yields them.
pub open spec fn split_lines(s: Seq<char>) -> Seq<Seq<char>> {
    split_lines_from(s, Seq::empty(), Seq::empty())
}

/// The non-empty runs of non-whitespace characters of `s`, appended to `acc` after the run
/// `cur` (what `str::split_ascii_whitespace` yields).
pub open spec fn words_from(s: Seq<char>, cur: Seq<char>, acc: Seq<Seq<char>>) -> Seq<Seq<char>>
    decreases s.len(),
{
    if s.len() == 0 {
        if cur.len() > 0 {
            acc.push(cur)
        } else {
            acc
        }
    } else if is_ascii_space(s[0]) {
        words_from(s.drop_first(), Seq::empty(), if cur.len() > 0 { acc.push(cur) } else { acc })
    } else {
        words_from(s.drop_first(), cur.push(s[0]), acc)
    }
}

/// The words of `s`: the non-empty runs between ASCII whitespace.
pub open spec fn ascii_words(s: Seq<char>) -> Seq<Seq<char>> {
    words_from(s, Seq::empty(), Seq::empty())
}

/// Splits `s` at every `'\n'`, keeping empty pieces.
pub fn split_lines_exec(s: &Vec<char>) -> (r: Vec<Vec<char>>)
    ensures
        r@.map_values(|l: Vec<char>| l@) == split_lines(s@),
{
    let mut acc: Vec<Vec<char>> = Vec::new();
    let mut cur: Vec<char> = Vec::new();
    let mut k: usize = 0;
    proof {
        assert(s@.skip(0) =~= s@);
        assert(acc@.map_values(|l: Vec<char>| l@) =~= Seq::<Seq<char>>::empty());
    }
    while k < s.len()
        invariant
            k <= s@.len(),
            split_lines_from(s@.skip(k as int), cur@, acc@.map_values(|l: Vec<char>| l@))
                == split_lines(s@),
        decreases s@.len() - k,
    {
        let c = s[k];
        let ghost rest = s@.skip(k as int);
        proof {
            assert(rest.drop_first() =~= s@.skip(k as int + 1));
        }
        if c == '\n' {
            let done = cur;
            let ghost old_acc = acc@.map_values(|l: Vec<char>| l@);
            acc.push(done);
            cur = Vec::new();
            proof {
                assert(acc@.map_values(|l: Vec<char>| l@) =~= old_acc.push(done@));
                assert(cur@ =~= Seq::<char>::empty());
            }
        } else {
            cur.push(c);
        }
        k = k + 1;
    }
    let ghost old_acc = acc@.map_values(|l: Vec<char>| l@);
    acc.push(cur);
    proof {
        assert(s@.skip(k as int) =~= Seq::<char>::empty());
        assert(acc@.map_values(|l: Vec<char>| l@) =~= old_acc.push(cur@));
    }
    acc
}

/// Splits `s` into its words, the non-empty runs between ASCII whitespace.
pub fn ascii_words_exec(s: &Vec<char>) -> (r: Vec<Vec<char>>)
    ensures
        r@.map_values(|l: Vec<char>| l@) == ascii_words(s@),
{
    let mut acc: Vec<Vec<char>> = Vec::new();
    let mut cur: Vec<char> = Vec::new();
    let mut k: usize = 0;
    proof {
        assert(s@.skip(0) =~= s@);
        assert(acc@.map_values(|l: Vec<char>| l@) =~= Seq::<Seq<char>>::empty());
    }
    while k < s.len()
        invariant
            k <= s@.len(),
            words_from(s@.skip(k as int), cur@, acc@.map_values(|l: Vec<char>| l@))
                == ascii_words(s@),
        decreases s@.len() - k,
    {
        let c = s[k];
        let ghost rest = s@.skip(k as int);
        proof {
            assert(rest.drop_first() =~= s@.skip(k as int + 1));
        }
        if c == ' ' || c == '\t' || c == '\n' || c == '\x0C' || c == '\r' {
            if cur.len() > 0 {
                let done = cur;
                let ghost old_acc = acc@.map_values(|l: Vec<char>| l@);
                acc.push(done);
                proof {
                    assert(acc@.map_values(|l: Vec<char>| l@) =~= old_acc.push(done@));
                }
            }
            cur = Vec::new();
            proof {
                assert(cur@ =~= Seq::<char>::empty());
            }
        } else {
            cur.push(c);
        }
        k = k + 1;
    }
    proof {
        assert(s@.skip(k as int) =~= Seq::<char>::empty());
    }
    if cur.len() > 0 {
        let ghost old_acc = acc@.map_values(|l: Vec<char>| l@);
        acc.push(cur);
        proof {
            assert(acc@.map_values(|l: Vec<char>| l@) =~= old_acc.push(cur@));
        }
    }
    acc
}

/// Whether `c` has the Unicode `White_Space` property, which `char::is_whitespace` tests:
/// U+0009 to U+000D, U+0020, U+0085, U+00A0, U+1680, U+2000 to U+200A, U+2028, U+2029,
/// U+202F, U+205F and U+3000.
pub open spec fn whitespace(c: char) -> bool {
    let u = c as u32;
    ||| 0x09 <= u <= 0x0D
    ||| u == 0x20
    ||| u == 0x85
    ||| u == 0xA0
    ||| u == 0x1680
    ||| 0x2000 <= u <= 0x200A
    ||| u == 0x2028
    ||| u == 0x2029
    ||| u == 0x202F
    ||| u == 0x205F
    ||| u == 0x3000
}

/// Whether `c` is Unicode whitespace (see [`whitespace`]).
pub(crate) fn char_is_whitespace(c: char) -> (r: bool)
    ensures
        r == whitespace(c),
{
    let u = c as u32;
    (0x09 <= u && u <= 0x0D) || u == 0x20 || u == 0x85 || u == 0xA0 || u == 0x1680 || (0x2000 <= u
        && u <= 0x200A) || u == 0x2028 || u == 0x2029 || u == 0x202F || u == 0x205F || u == 0x3000
}

/// The non-empty runs of non-whitespace characters of `s`, appended to `acc` after the run
/// `cur` (what `str::split_whitespace` yields).
pub open spec fn ws_words_from(s: Seq<char>, cur: Seq<char>, acc: Seq<Seq<char>>) -> Seq<Seq<char>>
    decreases s.len(),
{
    if s.len() == 0 {
        if cur.len() > 0 {
            acc.push(cur)
        } else {
            acc
        }
    } else if whitespace(s[0]) {
        ws_words_from(s.drop_first(), Seq::empty(), if cur.len() > 0 { acc.push(cur) } else { acc })
    } else {
        ws_words_from(s.drop_first(), cur.push(s[0]), acc)
    }
}

/// The words of `s`: the non-empty runs between Unicode whitespace.
pub open spec fn ws_words(s: Seq<char>) -> Seq<Seq<char>> {
    ws_words_from(s, Seq::empty(), Seq::empty())
}

/// Splits `s` into its words, the non-empty runs between Unicode whitespace.
pub fn ws_words_exec(s: &Vec<char>) -> (r: Vec<Vec<char>>)
    ensures
        r@.map_values(|l: Vec<char>| l@) == ws_words(s@),
{
    let mut acc: Vec<Vec<char>> = Vec::new();
    let mut cur: Vec<char> = Vec::new();
    let mut k: usize = 0;
    proof {
        assert(s@.skip(0) =~= s@);
        assert(acc@.map_values(|l: Vec<char>| l@) =~= Seq::<Seq<char>>::empty());
    }
    while k < s.len()
        invariant
            k <= s@.len(),
            ws_words_from(s@.skip(k as int), cur@, acc@.map_values(|l: Vec<char>| l@))
                == ws_words(s@),
        decreases s@.len() - k,
    {
        let c = s[k];
        let ghost rest = s@.skip(k as int);
        proof {
            assert(rest.drop_first() =~= s@.skip(k as int + 1));
        }
        if char_is_whitespace(c) {
            if cur.len() > 0 {
                let done = cur;
                let ghost old_acc = acc@.map_values(|l: Vec<char>| l@);
                acc.push(done);
                proof {
                    assert(acc@.map_values(|l: Vec<char>| l@) =~= old_acc.push(done@));
                }
            }
            cur = Vec::new();
            proof {
                assert(cur@ =~= Seq::<char>::empty());
            }
        } else {
            cur.push(c);
        }
        k = k + 1;
    }
    proof {
        assert(s@.skip(k as int) =~= Seq::<char>::empty());
    }
    if cur.len() > 0 {
        let ghost old_acc = acc@.map_values(|l: Vec<char>| l@);
        acc.push(cur);
        proof {
            assert(acc@.map_values(|l: Vec<char>| l@) =~= old_acc.push(cur@));
        }
    }
    acc
}

/// `s` without its leading whitespace.
pub open spec fn trim_start(s: Seq<char>) -> Seq<char>
    decreases s.len(),
{
    if s.len() > 0 && whitespace(s[0]) {
        trim_start(s.drop_first())
    } else {
        s
    }
}

/// `s` without its trailing whitespace.
pub open spec fn trim_end(s: Seq<char>) -> Seq<char>
    decreases s.len(),
{
    if s.len() > 0 && whitespace(s.last()) {
        trim_end(s.drop_last())
    } else {
        s
    }
}

/// `s` without its leading and trailing whitespace, as `str::trim` gives it.
pub open spec fn trimmed(s: Seq<char>) -> Seq<char> {
    trim_end(trim_start(s))
}

/// Removes the leading and trailing whitespace of `s`.
pub fn trim_exec(s: &Vec<char>) -> (r: Vec<char>)
    ensures
        r@ == trimmed(s@),
{
    let mut i: usize = 0;
    proof {
        assert(s@.skip(0) =~= s@);
    }
    while i < s.len() && char_is_whitespace(s[i])
        invariant
            i <= s@.len(),
            trim_start(s@) == trim_start(s@.skip(i as int)),
        decreases s@.len() - i,
    {
        proof {
            assert(s@.skip(i as int).drop_first() =~= s@.skip(i as int + 1));
        }
        i = i + 1;
    }
    let ghost front = s@.skip(i as int);
    proof {
        assert(trim_start(front) == front);
    }
    let mut j: usize = s.len();
    while j > i && char_is_whitespace(s[j - 1])
        invariant
            i <= j <= s@.len(),
            front == s@.skip(i as int),
            trim_end(front) == trim_end(s@.subrange(i as int, j as int)),
        decreases j,
    {
        proof {
            assert(s@.subrange(i as int, j as int).drop_last() =~= s@.subrange(i as int, j as int - 1));
        }
        j = j - 1;
    }
    proof {
        assert(s@.skip(i as int) =~= s@.subrange(i as int, s@.len() as int));
        assert(trim_end(s@.subrange(i as int, j as int)) == s@.subrange(i as int, j as int));
    }
    let mut out: Vec<char> = Vec::new();
    let mut k = i;
    while k < j
        invariant
            i <= k <= j <= s@.len(),
            out@ == s@.subrange(i as int, k as int),
        decreases j - k,
    {
        out.push(s[k]);
        proof {
            assert(out@ =~= s@.subrange(i as int, k as int + 1));
        }
        k = k + 1;
    }
    out
}

/// Why `usize::from_str` refuses a string.
#[derive(Debug, Clone, Copy, PartialEq, Eq, Structural)]
pub enum IntParseError {
    /// The string is empty.
    Empty,
    /// A character is not a digit (or a lone `+`).
    InvalidDigit,
    /// The number does not fit in a `usize`.
    PosOverflow,
}

/// Why `usize::from_str` refuses `s`, read from the left: empty, or the first problem met
/// among a character that is not a digit and a number grown too large.
pub open spec fn usize_parse_error(s: Seq<char>) -> IntParseError {
    let d = unsigned_part(s);
    if s.len() == 0 {
        IntParseError::Empty
    } else if exists|k: int|
        0 <= k < d.len() && all_digits(#[trigger] d.take(k + 1)) && digits_value(d.take(k + 1))
            > usize::MAX {
        IntParseError::PosOverflow
    } else {
        IntParseError::InvalidDigit
    }
}

/// The message of a parse error, as `ParseIntError` displays it.
pub open spec fn parse_error_message(e: IntParseError) -> Seq<char> {
    match e {
        IntParseError::Empty => "cannot parse integer from empty string"@,
        IntParseError::InvalidDigit => "invalid digit found in string"@,
        IntParseError::PosOverflow => "number too large to fit in target type"@,
    }
}

impl IntParseError {
    /// The message of the error, as `ParseIntError` displays it.
    pub fn message(&self) -> (r: Vec<char>)
        ensures
            r@ == parse_error_message(*self),
    {
        match self {
            IntParseError::Empty => chars_of("cannot parse integer from empty string"),
            IntParseError::InvalidDigit => chars_of("invalid digit found in string"),
            IntParseError::PosOverflow => chars_of("number too large to fit in target type"),
        }
    }
}

/// Parses a decimal `usize` as `usize::from_str` does, telling why it fails when it does.
pub fn parse_usize_detailed(s: &Vec<char>) -> (r: Result<usize, IntParseError>)
    ensures
        match r {
            Ok(v) => spec_parse_usize(s@) == Some(v),
            Err(e) => spec_parse_usize(s@) is None && e == usize_parse_error(s@),
        },
{
    match parse_usize(s) {
        Some(v) => Ok(v),
        None => {
            if s.len() == 0 {
                return Err(IntParseError::Empty);
            }
            let mut start: usize = 0;
            if s[0] == '+' {
                start = 1;
            }
            let ghost digits = unsigned_part(s@);
            proof {
                assert(digits =~= s@.skip(start as int));
            }
            let mut value: usize = 0;
            let mut k: usize = start;
            proof {
                assert(digits.take(0) =~= Seq::<char>::empty());
            }
            while k < s.len()
                invariant
                    start <= k <= s@.len(),
                    s@.len() > 0,
                    spec_parse_usize(s@) is None,
                    digits == s@.skip(start as int),
                    digits == unsigned_part(s@),
                    all_digits(digits.take(k - start)),
                    value == digits_value(digits.take(k - start)),
                    forall|m: int| 0 <= m < k - start ==> digits_value(#[trigger] digits.take(m + 1)) <= usize::MAX,
                decreases s@.len() - k,
            {
                let c = s[k];
                let j = k - start;
                if !('0' <= c && c <= '9') {
                    proof {
                        assert forall|m: int| 0 <= m < digits.len() implies !(all_digits(#[trigger] digits.take(m + 1))
                            && digits_value(digits.take(m + 1)) > usize::MAX) by {
                            if m >= j {
                                assert(digits.take(m + 1)[j as int] == c);
                            }
                        }
                    }
                    return Err(IntParseError::InvalidDigit);
                }
                let d = (c as u32 - '0' as u32) as usize;
                proof {
                    assert(digits.take(j + 1).drop_last() =~= digits.take(j as int));
                    assert(all_digits(digits.take(j + 1))) by {
                        assert forall|i: int| 0 <= i < j + 1 implies is_digit(#[trigger] digits.take(j + 1)[i]) by {
                            if i < j {
                                assert(digits.take(j + 1)[i] == digits.take(j as int)[i]);
                            }
                        }
                    }
                }
                if value > (usize::MAX - d) / 10 {
                    proof {
                        assert(digits_value(digits.take(j + 1)) == value * 10 + d);
                        assert(value * 10 + d > usize::MAX) by (nonlinear_arith)
                            requires value > (usize::MAX - d) / 10, d < 10;
                        assert(all_digits(digits.take(j + 1)) && digits_value(digits.take(j + 1)) > usize::MAX);
                    }
                    return Err(IntParseError::PosOverflow);
                }
                value = value * 10 + d;
                k = k + 1;
            }
            proof {
                assert(digits.take(k - start) =~= digits);
                assert forall|m: int| 0 <= m < digits.len() implies !(all_digits(#[trigger] digits.take(m + 1))
                    && digits_value(digits.take(m + 1)) > usize::MAX) by {}
            }
            Err(IntParseError::InvalidDigit)
        },
    }
}

} // verus!
