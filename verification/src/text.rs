//! Character-level text handling shared by the tiles: whitespace, trimming,
//! splitting into words, and decimal numbers in both directions.
use vstd::prelude::*;

verus! {

broadcast use vstd::string::group_string_axioms;

/// The characters of `s`, in order.
pub fn chars_of(s: &str) -> (v: Vec<char>)
    ensures
        v@ == s@,
{
    let mut v: Vec<char> = Vec::new();
    for c in it: s.chars()
        invariant
            v@ == it.seq().take(it.index()),
            it.seq() == s@,
    {
        v.push(c);
    }
    v
}

/// `String`'s `FromIterator<char>`: the string made of the given characters.
#[verifier::external_body]
pub(crate) fn string_of(chars: &[char]) -> (s: String)
    ensures
        s@ == chars@,
{
    chars.iter().collect()
}

/// Unicode `White_Space` (the property `char::is_whitespace` tests).
pub open spec fn is_space(c: char) -> bool {
    let u = c as u32;
    ||| 0x9 <= u <= 0xd
    ||| u == 0x20
    ||| u == 0x85
    ||| u == 0xa0
    ||| u == 0x1680
    ||| 0x2000 <= u <= 0x200a
    ||| u == 0x2028
    ||| u == 0x2029
    ||| u == 0x202f
    ||| u == 0x205f
    ||| u == 0x3000
}

/// Whether `c` is white space.
pub fn char_is_space(c: char) -> (b: bool)
    ensures
        b == is_space(c),
{
    let u = c as u32;
    (0x9 <= u && u <= 0xd) || u == 0x20 || u == 0x85 || u == 0xa0 || u == 0x1680 || (0x2000 <= u
        && u <= 0x200a) || u == 0x2028 || u == 0x2029 || u == 0x202f || u == 0x205f || u == 0x3000
}

/// `s` without its trailing white space.
pub open spec fn trim_end(s: Seq<char>) -> Seq<char>
    decreases s.len(),
{
    if s.len() > 0 && is_space(s.last()) {
        trim_end(s.drop_last())
    } else {
        s
    }
}

proof fn lemma_trim_end_spaces(s: Seq<char>, j: int)
    requires
        0 <= j <= s.len(),
        forall|k: int| j <= k < s.len() ==> is_space(#[trigger] s[k]),
    ensures
        trim_end(s) == trim_end(s.take(j)),
    decreases s.len() - j,
{
    if j < s.len() {
        assert(s.drop_last().take(j) =~= s.take(j));
        lemma_trim_end_spaces(s.drop_last(), j);
    } else {
        assert(s.take(j) =~= s);
    }
}

/// The characters of `s` without its trailing white space (`str::trim_end`).
pub fn trim_end_chars(s: &[char]) -> (t: Vec<char>)
    ensures
        t@ == trim_end(s@),
{
    let mut j = s.len();
    while j > 0 && char_is_space(s[j - 1])
        invariant
            0 <= j <= s@.len(),
            forall|k: int| j <= k < s@.len() ==> is_space(#[trigger] s@[k]),
        decreases j,
    {
        j = j - 1;
    }
    proof {
        lemma_trim_end_spaces(s@, j as int);
        if j > 0 {
            assert(s@.take(j as int).last() == s@[j - 1]);
        }
    }
    let mut t: Vec<char> = Vec::new();
    let mut i: usize = 0;
    while i < j
        invariant
            0 <= i <= j <= s@.len(),
            t@ == s@.take(i as int),
        decreases j - i,
    {
        t.push(s[i]);
        i = i + 1;
        assert(t@ =~= s@.take(i as int));
    }
    t
}

/// The words of `s` that are still to come, where `cur` holds the characters of
/// the word read so far: maximal runs of characters that are not white space.
pub open spec fn words_from(s: Seq<char>, cur: Seq<char>) -> Seq<Seq<char>>
    decreases s.len(),
{
    if s.len() == 0 {
        if cur.len() == 0 {
            seq![]
        } else {
            seq![cur]
        }
    } else if is_space(s[0]) {
        if cur.len() == 0 {
            words_from(s.drop_first(), seq![])
        } else {
            seq![cur] + words_from(s.drop_first(), seq![])
        }
    } else {
        words_from(s.drop_first(), cur.push(s[0]))
    }
}

/// The words of `s`, in order, as `str::split_whitespace` yields them.
pub open spec fn words(s: Seq<char>) -> Seq<Seq<char>> {
    words_from(s, seq![])
}

/// The words of `s` (`str::split_whitespace`).
pub fn split_words(s: &[char]) -> (ws: Vec<Vec<char>>)
    ensures
        ws@.len() == words(s@).len(),
        forall|k: int| 0 <= k < ws@.len() ==> (#[trigger] ws@[k])@ == words(s@)[k],
{
    let mut ws: Vec<Vec<char>> = Vec::new();
    let mut cur: Vec<char> = Vec::new();
    let ghost done: Seq<Seq<char>> = seq![];
    let mut i: usize = 0;
    assert(s@.skip(0) =~= s@);
    assert(cur@ =~= seq![]);
    assert(done + words_from(s@, seq![]) =~= words_from(s@, seq![]));
    while i < s.len()
        invariant
            0 <= i <= s@.len(),
            done.len() == ws@.len(),
            forall|k: int| 0 <= k < ws@.len() ==> (#[trigger] ws@[k])@ == done[k],
            done + words_from(s@.skip(i as int), cur@) == words(s@),
        decreases s.len() - i,
    {
        let c = s[i];
        let ghost rest = s@.skip(i as int);
        let ghost next = s@.skip(i + 1);
        assert(rest.drop_first() =~= next);
        assert(rest[0] == c);
        let ghost old_cur = cur@;
        let ghost old_done = done;
        if char_is_space(c) {
            if cur.len() == 0 {
                assert(old_cur =~= seq![]);
                assert(words_from(rest, old_cur) == words_from(next, seq![]));
            }
            if cur.len() > 0 {
                proof {
                    assert(words_from(rest, old_cur) == seq![old_cur] + words_from(next, seq![]));
                    assert(done.push(cur@) + words_from(s@.skip(i + 1), seq![]) =~= done + (seq![
                        cur@,
                    ] + words_from(s@.skip(i + 1), seq![])));
                    done = done.push(cur@);
                }
                ws.push(cur);
                cur = Vec::new();
                assert(cur@ =~= seq![]);
            }
        } else {
            assert(words_from(rest, old_cur) == words_from(next, old_cur.push(c)));
            cur.push(c);
        }
        i = i + 1;
    }
    assert(s@.skip(i as int) =~= seq![]);
    if cur.len() > 0 {
        proof {
            assert(done.push(cur@) =~= done + seq![cur@]);
            done = done.push(cur@);
        }
        ws.push(cur);
    } else {
        assert(done + seq![] =~= done);
    }
    ws
}

/// The character of a decimal digit.
pub open spec fn digit_char(d: nat) -> char {
    seq!['0', '1', '2', '3', '4', '5', '6', '7', '8', '9'][d as int]
}

/// The decimal digits of `n`, most significant first, without leading zeros.
pub open spec fn decimal(n: nat) -> Seq<char>
    decreases n,
{
    if n < 10 {
        seq![digit_char(n)]
    } else {
        decimal(n / 10).push(digit_char(n % 10))
    }
}

fn digit_of(d: u64) -> (c: char)
    requires
        d < 10,
    ensures
        c == digit_char(d as nat),
{
    if d == 0 {
        '0'
    } else if d == 1 {
        '1'
    } else if d == 2 {
        '2'
    } else if d == 3 {
        '3'
    } else if d == 4 {
        '4'
    } else if d == 5 {
        '5'
    } else if d == 6 {
        '6'
    } else if d == 7 {
        '7'
    } else if d == 8 {
        '8'
    } else {
        '9'
    }
}

/// Appends the decimal digits of `n` to `out`.
pub fn push_decimal(n: u64, out: &mut Vec<char>)
    ensures
        final(out)@ == old(out)@ + decimal(n as nat),
    decreases n,
{
    if n >= 10 {
        push_decimal(n / 10, out);
    }
    out.push(digit_of(n % 10));
    proof {
        if n < 10 {
            assert(old(out)@ + decimal(n as nat) =~= old(out)@.push(digit_char(n as nat)));
        } else {
            assert(old(out)@ + decimal(n as nat) =~= (old(out)@ + decimal((n / 10) as nat)).push(
                digit_char((n % 10) as nat),
            ));
        }
    }
}

/// `n` written in decimal, as `Display` writes an unsigned integer.
pub fn decimal_string(n: u64) -> (s: String)
    ensures
        s@ == decimal(n as nat),
{
    let mut v: Vec<char> = Vec::new();
    push_decimal(n, &mut v);
    assert(v@ =~= decimal(n as nat));
    string_of(v.as_slice())
}

/// Why a text is not an unsigned integer (as `core::num::IntErrorKind` tells it).
#[derive(Clone, Copy, Debug, PartialEq, Eq, Structural)]
pub enum ParseIntError {
    /// The text is empty.
    Empty,
    /// A character is not a digit (or the text is a lone sign).
    InvalidDigit,
    /// The number does not fit in the target type.
    PosOverflow,
}

impl ParseIntError {
    /// The message that explains the error (the one `core::num::ParseIntError` shows).
    pub open spec fn message_text(self) -> Seq<char> {
        match self {
            ParseIntError::Empty => "cannot parse integer from empty string"@,
            ParseIntError::InvalidDigit => "invalid digit found in string"@,
            ParseIntError::PosOverflow => "number too large to fit in target type"@,
        }
    }

    /// The message that explains the error.
    pub fn message(&self) -> (m: String)
        ensures
            m@ == self.message_text(),
    {
        match self {
            ParseIntError::Empty => "cannot parse integer from empty string".to_string(),
            ParseIntError::InvalidDigit => "invalid digit found in string".to_string(),
            ParseIntError::PosOverflow => "number too large to fit in target type".to_string(),
        }
    }
}

/// The value of a decimal digit character.
pub open spec fn digit_value(c: char) -> Option<nat> {
    if '0' <= c <= '9' {
        Some((c as u32 - '0' as u32) as nat)
    } else {
        None
    }
}

/// Reads the digits `ds` from the left onto `acc`: the first character that is
/// not a digit fails with `InvalidDigit`, the first digit that takes the value
/// past `max` fails with `PosOverflow`.
pub open spec fn digits_value(ds: Seq<char>, acc: nat, max: nat) -> Result<nat, ParseIntError>
    decreases ds.len(),
{
    if ds.len() == 0 {
        Ok(acc)
    } else {
        match digit_value(ds[0]) {
            None => Err(ParseIntError::InvalidDigit),
            Some(d) => if acc * 10 + d > max {
                Err(ParseIntError::PosOverflow)
            } else {
                digits_value(ds.drop_first(), acc * 10 + d, max)
            },
        }
    }
}

/// The unsigned integer that `s` writes in decimal, at most `max`: an optional
/// `+` and then digits (the rule of `from_str_radix` with radix 10).
pub open spec fn parse_unsigned(s: Seq<char>, max: nat) -> Result<nat, ParseIntError> {
    if s.len() == 0 {
        Err(ParseIntError::Empty)
    } else if (s[0] == '+' || s[0] == '-') && s.len() == 1 {
        Err(ParseIntError::InvalidDigit)
    } else if s[0] == '+' {
        digits_value(s.drop_first(), 0, max)
    } else {
        digits_value(s, 0, max)
    }
}

proof fn lemma_digits_value_bounded(ds: Seq<char>, acc: nat, max: nat)
    requires
        acc <= max,
    ensures
        digits_value(ds, acc, max) matches Ok(v) ==> v <= max,
    decreases ds.len(),
{
    if ds.len() > 0 {
        if let Some(d) = digit_value(ds[0]) {
            if acc * 10 + d <= max {
                lemma_digits_value_bounded(ds.drop_first(), acc * 10 + d, max);
            }
        }
    }
}

proof fn lemma_fits(acc: int, d: int, max: int)
    requires
        0 <= acc,
        0 <= d < 10,
        d <= max,
    ensures
        (acc * 10 + d > max) == (acc > (max - d) / 10),
{
    assert((acc * 10 + d > max) == (acc > (max - d) / 10)) by (nonlinear_arith)
        requires
            0 <= acc,
            0 <= d < 10,
            d <= max,
    ;
}

/// Reads `ds[start..]` as decimal digits onto 0, at most `max`.
fn digits_from(ds: &[char], start: usize, max: u64) -> (r: Result<u64, ParseIntError>)
    requires
        start <= ds@.len(),
    ensures
        match digits_value(ds@.skip(start as int), 0, max as nat) {
            Ok(v) => r == Ok::<u64, ParseIntError>(v as u64),
            Err(e) => r == Err::<u64, ParseIntError>(e),
        },
{
    let mut acc: u64 = 0;
    let mut i: usize = start;
    while i < ds.len()
        invariant
            start <= i <= ds@.len(),
            acc <= max,
            digits_value(ds@.skip(start as int), 0, max as nat) == digits_value(
                ds@.skip(i as int),
                acc as nat,
                max as nat,
            ),
        decreases ds.len() - i,
    {
        let c = ds[i];
        let ghost rest = ds@.skip(i as int);
        assert(rest[0] == c);
        assert(rest.drop_first() =~= ds@.skip(i + 1));
        if !('0' <= c && c <= '9') {
            return Err(ParseIntError::InvalidDigit);
        }
        let d = (c as u32 - '0' as u32) as u64;
        if d > max {
            return Err(ParseIntError::PosOverflow);
        }
        proof {
            lemma_fits(acc as int, d as int, max as int);
        }
        if acc > (max - d) / 10 {
            return Err(ParseIntError::PosOverflow);
        }
        assert(acc * 10 + d <= max) by (nonlinear_arith)
            requires
                acc <= (max - d) / 10,
                d <= max,
        ;
        acc = acc * 10 + d;
        i = i + 1;
    }
    assert(ds@.skip(i as int) =~= seq![]);
    Ok(acc)
}

/// The unsigned integer that `s` writes in decimal, at most `max`
/// (`str::parse` for an unsigned integer type whose largest value is `max`).
pub fn parse_decimal(s: &[char], max: u64) -> (r: Result<u64, ParseIntError>)
    ensures
        match parse_unsigned(s@, max as nat) {
            Ok(v) => r == Ok::<u64, ParseIntError>(v as u64),
            Err(e) => r == Err::<u64, ParseIntError>(e),
        },
        parse_unsigned(s@, max as nat) matches Ok(v) ==> v <= max,
{
    proof {
        lemma_digits_value_bounded(s@, 0, max as nat);
        lemma_digits_value_bounded(s@.drop_first(), 0, max as nat);
    }
    if s.len() == 0 {
        Err(ParseIntError::Empty)
    } else if (s[0] == '+' || s[0] == '-') && s.len() == 1 {
        Err(ParseIntError::InvalidDigit)
    } else if s[0] == '+' {
        assert(s@.skip(1) =~= s@.drop_first());
        digits_from(s, 1, max)
    } else {
        assert(s@.skip(0) =~= s@);
        digits_from(s, 0, max)
    }
}

/// The pieces of `s` between the occurrences of `sep`, where `cur` holds the
/// piece read so far (`str::split` with a character: empty pieces are kept, and
/// there is always one more piece than there are separators).
pub open spec fn pieces_from(s: Seq<char>, sep: char, cur: Seq<char>) -> Seq<Seq<char>>
    decreases s.len(),
{
    if s.len() == 0 {
        seq![cur]
    } else if s[0] == sep {
        seq![cur] + pieces_from(s.drop_first(), sep, seq![])
    } else {
        pieces_from(s.drop_first(), sep, cur.push(s[0]))
    }
}

/// The pieces of `s` between the occurrences of `sep`, in order.
pub open spec fn pieces(s: Seq<char>, sep: char) -> Seq<Seq<char>> {
    pieces_from(s, sep, seq![])
}

/// The pieces of `s` between the occurrences of `sep` (`str::split`).
pub fn split_on(s: &[char], sep: char) -> (ps: Vec<Vec<char>>)
    ensures
        ps@.len() == pieces(s@, sep).len(),
        forall|k: int| 0 <= k < ps@.len() ==> (#[trigger] ps@[k])@ == pieces(s@, sep)[k],
{
    let mut ps: Vec<Vec<char>> = Vec::new();
    let mut cur: Vec<char> = Vec::new();
    let ghost done: Seq<Seq<char>> = seq![];
    let mut i: usize = 0;
    assert(s@.skip(0) =~= s@);
    assert(cur@ =~= seq![]);
    assert(done + pieces_from(s@, sep, seq![]) =~= pieces_from(s@, sep, seq![]));
    while i < s.len()
        invariant
            0 <= i <= s@.len(),
            done.len() == ps@.len(),
            forall|k: int| 0 <= k < ps@.len() ==> (#[trigger] ps@[k])@ == done[k],
            done + pieces_from(s@.skip(i as int), sep, cur@) == pieces(s@, sep),
        decreases s.len() - i,
    {
        let c = s[i];
        let ghost rest = s@.skip(i as int);
        let ghost next = s@.skip(i + 1);
        let ghost old_cur = cur@;
        assert(rest.drop_first() =~= next);
        assert(rest[0] == c);
        if c == sep {
            proof {
                assert(pieces_from(rest, sep, old_cur) == seq![old_cur] + pieces_from(
                    next,
                    sep,
                    seq![],
                ));
                assert(done.push(old_cur) + pieces_from(next, sep, seq![]) =~= done + (seq![
                    old_cur,
                ] + pieces_from(next, sep, seq![])));
                done = done.push(old_cur);
            }
            ps.push(cur);
            cur = Vec::new();
            assert(cur@ =~= seq![]);
        } else {
            assert(pieces_from(rest, sep, old_cur) == pieces_from(next, sep, old_cur.push(c)));
            cur.push(c);
        }
        i = i + 1;
    }
    assert(s@.skip(i as int) =~= seq![]);
    proof {
        assert(done.push(cur@) =~= done + seq![cur@]);
        done = done.push(cur@);
    }
    ps.push(cur);
    ps
}

/// The characters of `s` before the first `c`, or all of `s` where it holds no `c`.
pub open spec fn take_until(s: Seq<char>, c: char) -> Seq<char>
    decreases s.len(),
{
    if s.len() == 0 || s[0] == c {
        seq![]
    } else {
        seq![s[0]] + take_until(s.drop_first(), c)
    }
}

/// The characters of `s` before the first `c` (all of `s` where it holds no `c`),
/// and whether `s` holds a `c` at all.
pub fn prefix_before(s: &[char], c: char) -> (r: (Vec<char>, bool))
    ensures
        r.0@ == take_until(s@, c),
        r.1 == s@.contains(c),
{
    let mut v: Vec<char> = Vec::new();
    let mut i: usize = 0;
    assert(s@.skip(0) =~= s@);
    assert(v@ + take_until(s@, c) =~= take_until(s@, c));
    while i < s.len() && s[i] != c
        invariant
            0 <= i <= s@.len(),
            forall|k: int| 0 <= k < i ==> s@[k] != c,
            v@ + take_until(s@.skip(i as int), c) == take_until(s@, c),
        decreases s.len() - i,
    {
        let ghost rest = s@.skip(i as int);
        assert(rest.drop_first() =~= s@.skip(i + 1));
        assert(v@.push(s@[i as int]) + take_until(s@.skip(i + 1), c) =~= v@ + (seq![rest[0]]
            + take_until(rest.drop_first(), c)));
        v.push(s[i]);
        i = i + 1;
    }
    let found = i < s.len();
    proof {
        if found {
            assert(s@[i as int] == c);
        } else {
            assert forall|k: int| 0 <= k < s@.len() implies s@[k] != c by {}
        }
        assert(take_until(s@.skip(i as int), c) =~= seq![]) by {
            if found {
                assert(s@.skip(i as int)[0] == c);
            }
        }
        assert(v@ + seq![] =~= v@);
    }
    (v, found)
}

proof fn lemma_digit_roundtrip(d: nat)
    requires
        d < 10,
    ensures
        digit_value(digit_char(d)) == Some(d),
{
    if d == 0 {
        assert(digit_char(d) == '0');
    } else if d == 1 {
        assert(digit_char(d) == '1');
    } else if d == 2 {
        assert(digit_char(d) == '2');
    } else if d == 3 {
        assert(digit_char(d) == '3');
    } else if d == 4 {
        assert(digit_char(d) == '4');
    } else if d == 5 {
        assert(digit_char(d) == '5');
    } else if d == 6 {
        assert(digit_char(d) == '6');
    } else if d == 7 {
        assert(digit_char(d) == '7');
    } else if d == 8 {
        assert(digit_char(d) == '8');
    } else {
        assert(digit_char(d) == '9');
    }
}

proof fn lemma_digits_value_push(s: Seq<char>, c: char, acc: nat, max: nat)
    ensures
        digits_value(s.push(c), acc, max) == match digits_value(s, acc, max) {
            Ok(v) => match digit_value(c) {
                None => Err(ParseIntError::InvalidDigit),
                Some(d) => if v * 10 + d > max {
                    Err(ParseIntError::PosOverflow)
                } else {
                    Ok(v * 10 + d)
                },
            },
            Err(e) => Err(e),
        },
    decreases s.len(),
{
    reveal_with_fuel(digits_value, 2);
    if s.len() == 0 {
        assert(s.push(c).drop_first() =~= Seq::<char>::empty());
        assert(s.push(c)[0] == c);
    } else {
        assert(s.push(c).drop_first() =~= s.drop_first().push(c));
        assert(s.push(c)[0] == s[0]);
        if let Some(d) = digit_value(s[0]) {
            if acc * 10 + d <= max {
                lemma_digits_value_push(s.drop_first(), c, acc * 10 + d, max);
            }
        }
    }
}

proof fn lemma_decimal_digits(n: nat, max: nat)
    requires
        n <= max,
    ensures
        decimal(n).len() >= 1,
        digit_value(decimal(n)[0]) is Some,
        digits_value(decimal(n), 0, max) == Ok::<nat, ParseIntError>(n),
    decreases n,
{
    reveal_with_fuel(digits_value, 2);
    if n < 10 {
        lemma_digit_roundtrip(n);
        assert(seq![digit_char(n)].drop_first() =~= Seq::<char>::empty());
    } else {
        lemma_decimal_digits(n / 10, max);
        lemma_digit_roundtrip(n % 10);
        lemma_digits_value_push(decimal(n / 10), digit_char(n % 10), 0, max);
        assert(decimal(n)[0] == decimal(n / 10)[0]);
    }
}

/// Reading back what was written: the decimal text of any number up to `max`
/// parses to that number.
pub proof fn lemma_parse_reads_decimal(n: nat, max: nat)
    requires
        n <= max,
    ensures
        parse_unsigned(decimal(n), max) == Ok::<nat, ParseIntError>(n),
{
    lemma_decimal_digits(n, max);
    let d = decimal(n)[0];
    assert(d != '+' && d != '-');
}

/// Trimming takes white space off the end and nothing else: what is left is
/// a prefix of the text, does not end in white space, and what was taken off is
/// all white space.
pub proof fn lemma_trim_end_takes_trailing_space(s: Seq<char>)
    ensures
        trim_end(s).len() <= s.len(),
        trim_end(s) == s.take(trim_end(s).len() as int),
        trim_end(s).len() > 0 ==> !is_space(trim_end(s).last()),
        forall|k: int| trim_end(s).len() <= k < s.len() ==> is_space(#[trigger] s[k]),
    decreases s.len(),
{
    if s.len() > 0 && is_space(s.last()) {
        lemma_trim_end_takes_trailing_space(s.drop_last());
        let t = trim_end(s.drop_last());
        assert(s.drop_last().take(t.len() as int) =~= s.take(t.len() as int));
        assert forall|k: int| t.len() <= k < s.len() implies is_space(#[trigger] s[k]) by {
            if k < s.len() - 1 {
                assert(s[k] == s.drop_last()[k]);
            }
        }
    } else {
        assert(s.take(s.len() as int) =~= s);
    }
}

proof fn lemma_decimal_digits_only(n: nat)
    ensures
        decimal(n).len() >= 1,
        forall|k: int| 0 <= k < decimal(n).len() ==> (#[trigger] digit_value(decimal(n)[k])) is Some,
        decimal(n)[0] == '0' ==> n == 0,
    decreases n,
{
    if n < 10 {
        lemma_digit_roundtrip(n);
    } else {
        lemma_decimal_digits_only(n / 10);
        lemma_digit_roundtrip(n % 10);
        let d = decimal(n / 10);
        assert forall|k: int| 0 <= k < decimal(n).len() implies (#[trigger] digit_value(
            decimal(n)[k],
        )) is Some by {
            if k < d.len() {
                assert(decimal(n)[k] == d[k]);
            }
        }
        assert(decimal(n)[0] == d[0]);
    }
}

/// The decimal text of a number is its canonical one: only digits, at least
/// one, no leading zero (except for 0 itself, written `0`), and it reads back
/// as the number.
pub proof fn lemma_decimal_is_canonical(n: nat)
    ensures
        decimal(n).len() >= 1,
        forall|k: int| 0 <= k < decimal(n).len() ==> '0' <= #[trigger] decimal(n)[k] <= '9',
        decimal(n)[0] == '0' ==> decimal(n) == seq!['0'] && n == 0,
        parse_unsigned(decimal(n), n) == Ok::<nat, ParseIntError>(n),
{
    lemma_decimal_digits_only(n);
    lemma_parse_reads_decimal(n, n);
    assert forall|k: int| 0 <= k < decimal(n).len() implies '0' <= #[trigger] decimal(n)[k] <= '9' by {
        assert(digit_value(decimal(n)[k]) is Some);
    }
    if decimal(n)[0] == '0' {
        lemma_digit_roundtrip(0);
        assert(decimal(0) =~= seq!['0']);
    }
}

/// The pieces between the occurrences of a separator hold no separator, and
/// joined again with the separator they give back the text.
pub proof fn lemma_pieces_join(s: Seq<char>, sep: char, cur: Seq<char>)
    requires
        !cur.contains(sep),
    ensures
        pieces_from(s, sep, cur).len() >= 1,
        forall|k: int|
            0 <= k < pieces_from(s, sep, cur).len() ==> !(#[trigger] pieces_from(s, sep, cur)[k]).contains(
                sep,
            ),
        join_with(pieces_from(s, sep, cur), sep) == cur + s,
    decreases s.len(),
{
    if s.len() == 0 {
        assert(cur + s =~= cur);
        assert(join_with(seq![cur], sep) == cur) by {
            assert(seq![cur].drop_first() =~= Seq::<Seq<char>>::empty());
        }
    } else if s[0] == sep {
        assert(!Seq::<char>::empty().contains(sep));
        lemma_pieces_join(s.drop_first(), sep, seq![]);
        let rest = pieces_from(s.drop_first(), sep, seq![]);
        let ps = seq![cur] + rest;
        assert(ps[0] == cur);
        assert(ps.drop_first() =~= rest);
        assert forall|k: int| 0 <= k < ps.len() implies !(#[trigger] ps[k]).contains(sep) by {
            if k > 0 {
                assert(ps[k] == rest[k - 1]);
            }
        }
        assert(seq![] + s.drop_first() =~= s.drop_first());
        assert(cur + seq![sep] + s.drop_first() =~= cur + s);
    } else {
        let next = cur.push(s[0]);
        assert(!next.contains(sep)) by {
            if next.contains(sep) {
                let k = choose|k: int| 0 <= k < next.len() && next[k] == sep;
                if k < cur.len() {
                    assert(cur[k] == sep);
                }
            }
        }
        lemma_pieces_join(s.drop_first(), sep, next);
        assert(next + s.drop_first() =~= cur + s);
    }
}

/// The pieces joined with `sep` between each two.
pub open spec fn join_with(ps: Seq<Seq<char>>, sep: char) -> Seq<char>
    decreases ps.len(),
{
    if ps.len() == 0 {
        seq![]
    } else if ps.len() == 1 {
        ps[0]
    } else {
        ps[0] + seq![sep] + join_with(ps.drop_first(), sep)
    }
}

} // verus!
