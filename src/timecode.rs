//! The timecode grammar `[H+:]MM:SS[.F+]`, or the empty string. A digit is
//! any Unicode decimal digit, as `\d` is in the `regex` crate.
use vstd::prelude::*;

verus! {

/// A decimal digit: a code point of the Unicode general category
/// `Decimal_Number` (`Nd`), as of Unicode 16.0.
pub open spec fn is_digit(c: char) -> bool {
    ||| ('0' <= c && c <= '9')
    ||| ('\u{660}' <= c && c <= '\u{669}')
    ||| ('\u{6f0}' <= c && c <= '\u{6f9}')
    ||| ('\u{7c0}' <= c && c <= '\u{7c9}')
    ||| ('\u{966}' <= c && c <= '\u{96f}')
    ||| ('\u{9e6}' <= c && c <= '\u{9ef}')
    ||| ('\u{a66}' <= c && c <= '\u{a6f}')
    ||| ('\u{ae6}' <= c && c <= '\u{aef}')
    ||| ('\u{b66}' <= c && c <= '\u{b6f}')
    ||| ('\u{be6}' <= c && c <= '\u{bef}')
    ||| ('\u{c66}' <= c && c <= '\u{c6f}')
    ||| ('\u{ce6}' <= c && c <= '\u{cef}')
    ||| ('\u{d66}' <= c && c <= '\u{d6f}')
    ||| ('\u{de6}' <= c && c <= '\u{def}')
    ||| ('\u{e50}' <= c && c <= '\u{e59}')
    ||| ('\u{ed0}' <= c && c <= '\u{ed9}')
    ||| ('\u{f20}' <= c && c <= '\u{f29}')
    ||| ('\u{1040}' <= c && c <= '\u{1049}')
    ||| ('\u{1090}' <= c && c <= '\u{1099}')
    ||| ('\u{17e0}' <= c && c <= '\u{17e9}')
    ||| ('\u{1810}' <= c && c <= '\u{1819}')
    ||| ('\u{1946}' <= c && c <= '\u{194f}')
    ||| ('\u{19d0}' <= c && c <= '\u{19d9}')
    ||| ('\u{1a80}' <= c && c <= '\u{1a89}')
    ||| ('\u{1a90}' <= c && c <= '\u{1a99}')
    ||| ('\u{1b50}' <= c && c <= '\u{1b59}')
    ||| ('\u{1bb0}' <= c && c <= '\u{1bb9}')
    ||| ('\u{1c40}' <= c && c <= '\u{1c49}')
    ||| ('\u{1c50}' <= c && c <= '\u{1c59}')
    ||| ('\u{a620}' <= c && c <= '\u{a629}')
    ||| ('\u{a8d0}' <= c && c <= '\u{a8d9}')
    ||| ('\u{a900}' <= c && c <= '\u{a909}')
    ||| ('\u{a9d0}' <= c && c <= '\u{a9d9}')
    ||| ('\u{a9f0}' <= c && c <= '\u{a9f9}')
    ||| ('\u{aa50}' <= c && c <= '\u{aa59}')
    ||| ('\u{abf0}' <= c && c <= '\u{abf9}')
    ||| ('\u{ff10}' <= c && c <= '\u{ff19}')
    ||| ('\u{104a0}' <= c && c <= '\u{104a9}')
    ||| ('\u{10d30}' <= c && c <= '\u{10d39}')
    ||| ('\u{10d40}' <= c && c <= '\u{10d49}')
    ||| ('\u{11066}' <= c && c <= '\u{1106f}')
    ||| ('\u{110f0}' <= c && c <= '\u{110f9}')
    ||| ('\u{11136}' <= c && c <= '\u{1113f}')
    ||| ('\u{111d0}' <= c && c <= '\u{111d9}')
    ||| ('\u{112f0}' <= c && c <= '\u{112f9}')
    ||| ('\u{11450}' <= c && c <= '\u{11459}')
    ||| ('\u{114d0}' <= c && c <= '\u{114d9}')
    ||| ('\u{11650}' <= c && c <= '\u{11659}')
    ||| ('\u{116c0}' <= c && c <= '\u{116c9}')
    ||| ('\u{116d0}' <= c && c <= '\u{116e3}')
    ||| ('\u{11730}' <= c && c <= '\u{11739}')
    ||| ('\u{118e0}' <= c && c <= '\u{118e9}')
    ||| ('\u{11950}' <= c && c <= '\u{11959}')
    ||| ('\u{11bf0}' <= c && c <= '\u{11bf9}')
    ||| ('\u{11c50}' <= c && c <= '\u{11c59}')
    ||| ('\u{11d50}' <= c && c <= '\u{11d59}')
    ||| ('\u{11da0}' <= c && c <= '\u{11da9}')
    ||| ('\u{11f50}' <= c && c <= '\u{11f59}')
    ||| ('\u{16130}' <= c && c <= '\u{16139}')
    ||| ('\u{16a60}' <= c && c <= '\u{16a69}')
    ||| ('\u{16ac0}' <= c && c <= '\u{16ac9}')
    ||| ('\u{16b50}' <= c && c <= '\u{16b59}')
    ||| ('\u{16d70}' <= c && c <= '\u{16d79}')
    ||| ('\u{1ccf0}' <= c && c <= '\u{1ccf9}')
    ||| ('\u{1d7ce}' <= c && c <= '\u{1d7ff}')
    ||| ('\u{1e140}' <= c && c <= '\u{1e149}')
    ||| ('\u{1e2f0}' <= c && c <= '\u{1e2f9}')
    ||| ('\u{1e4f0}' <= c && c <= '\u{1e4f9}')
    ||| ('\u{1e5f1}' <= c && c <= '\u{1e5fa}')
    ||| ('\u{1e950}' <= c && c <= '\u{1e959}')
    ||| ('\u{1fbf0}' <= c && c <= '\u{1fbf9}')
}

/// A non-empty run of decimal digits.
pub open spec fn all_digits(s: Seq<char>) -> bool {
    s.len() > 0 && forall|i: int| 0 <= i < s.len() ==> is_digit(#[trigger] s[i])
}

/// Two digits, a colon and two digits, optionally preceded by an hours
/// group of one or more digits and a colon.
pub open spec fn is_clock(s: Seq<char>) -> bool {
    let n = s.len() as int;
    &&& n >= 5
    &&& is_digit(s[n - 5])
    &&& is_digit(s[n - 4])
    &&& s[n - 3] == ':'
    &&& is_digit(s[n - 2])
    &&& is_digit(s[n - 1])
    &&& (n == 5 || (n >= 7 && s[n - 6] == ':' && all_digits(s.take(n - 6))))
}

/// The accepted timecodes: the empty string, or a clock value optionally
/// followed by a decimal point and one or more fractional digits.
pub open spec fn is_timecode(s: Seq<char>) -> bool {
    ||| s.len() == 0
    ||| is_clock(s)
    ||| exists|k: int|
        0 < k < s.len() - 1 && #[trigger] is_clock(s.take(k)) && s[k] == '.' && all_digits(
            s.skip(k + 1),
        )
}

/// A character that may occur in a timecode.
pub open spec fn is_timecode_char(c: char) -> bool {
    is_digit(c) || c == ':' || c == '.'
}

/// Relies on `regex::Regex::new` and `regex::Regex::is_match`: the pattern
/// below is valid, `\d` in it is the class `\p{Nd}` that `is_digit` lists,
/// and, anchored at both ends of the text, it matches exactly the strings
/// that `is_timecode` describes.
#[verifier::external_body]
pub(crate) fn matches_timecode(s: &str) -> (r: bool)
    ensures
        r == is_timecode(s@),
{
    regex::Regex::new(r"^((\d+:)?\d{2}:\d{2}(\.\d+)?)?$").unwrap().is_match(s)
}

/// A timecode holds digits, colons and decimal points only, and a non-empty
/// one starts with a digit.
pub proof fn lemma_timecode_chars(s: Seq<char>)
    requires
        is_timecode(s),
    ensures
        forall|i: int| 0 <= i < s.len() ==> is_timecode_char(#[trigger] s[i]),
        s.len() > 0 ==> is_digit(s[0]),
{
    if s.len() > 0 {
        if is_clock(s) {
            lemma_clock_chars(s);
        } else {
            let k = choose|k: int|
                0 < k < s.len() - 1 && #[trigger] is_clock(s.take(k)) && s[k] == '.'
                    && all_digits(s.skip(k + 1));
            lemma_clock_chars(s.take(k));
            assert forall|i: int| 0 <= i < s.len() implies is_timecode_char(#[trigger] s[i]) by {
                if i < k {
                    assert(s[i] == s.take(k)[i]);
                } else if i > k {
                    assert(s[i] == s.skip(k + 1)[i - k - 1]);
                }
            }
            assert(s[0] == s.take(k)[0]);
        }
    }
}

proof fn lemma_clock_chars(s: Seq<char>)
    requires
        is_clock(s),
    ensures
        forall|i: int| 0 <= i < s.len() ==> is_timecode_char(#[trigger] s[i]),
        is_digit(s[0]),
{
    let n = s.len() as int;
    assert forall|i: int| 0 <= i < n implies is_timecode_char(#[trigger] s[i]) by {
        if i < n - 6 {
            assert(s[i] == s.take(n - 6)[i]);
        }
    }
    if n > 5 {
        assert(s[0] == s.take(n - 6)[0]);
    }
}

} // verus!
