//! Text: building it, taking it apart, reading numbers out of it.
use vstd::prelude::*;

verus! {

/// The texts of a sequence of strings.
pub open spec fn texts(s: Seq<String>) -> Seq<Seq<char>> {
    s.map_values(|t: String| t@)
}

/// The text of an optional string.
pub open spec fn opt_text(s: Option<String>) -> Option<Seq<char>> {
    match s {
        Some(t) => Some(t@),
        None => None,
    }
}

/// Whether two texts are the same.
pub fn same_text(a: &str, b: &str) -> (r: bool)
    ensures
        r == (a@ == b@),
{
    a.to_owned() == b.to_owned()
}

/// An owned copy of a text.
pub fn copy_of(s: &str) -> (r: String)
    ensures
        r@ == s@,
{
    s.to_owned()
}

/// A copy of a list of strings.
pub fn copy_texts(s: &Vec<String>) -> (r: Vec<String>)
    ensures
        r@ == s@,
{
    let mut r: Vec<String> = Vec::new();
    for i in 0..s.len()
        invariant
            r@ == s@.take(i as int),
    {
        proof {
            assert(s@.take(i as int).push(s@[i as int]) =~= s@.take(i + 1));
        }
        r.push(s[i].clone());
    }
    proof {
        assert(s@.take(s@.len() as int) =~= s@);
    }
    r
}

/// Whether `t` is among the strings of `s`.
pub fn lists_text(s: &Vec<String>, t: &str) -> (r: bool)
    ensures
        r == texts(s@).contains(t@),
{
    for i in 0..s.len()
        invariant
            forall|j: int| 0 <= j < i ==> (#[trigger] s@[j])@ != t@,
    {
        if same_text(s[i].as_str(), t) {
            proof {
                assert(texts(s@)[i as int] == t@);
            }
            return true;
        }
    }
    proof {
        assert forall|j: int| 0 <= j < texts(s@).len() implies texts(s@)[j] != t@ by {
            assert(s@[j]@ != t@);
        }
    }
    false
}

/// The characters of a text.
pub fn chars_of(s: &str) -> (v: Vec<char>)
    ensures
        v@ == s@,
{
    let mut v: Vec<char> = Vec::new();
    for c in it: s.chars()
        invariant
            it.seq() == s@,
            v@ == s@.take(it.index() as int),
    {
        proof {
            let i = it.index() as int;
            assert(s@.take(i).push(s@[i]) =~= s@.take(i + 1));
        }
        v.push(c);
    }
    proof {
        assert(s@.take(s@.len() as int) =~= s@);
    }
    v
}

/// Whether `s` begins with `prefix`.
pub fn begins_with(s: &str, prefix: &str) -> (r: bool)
    ensures
        r == prefix@.is_prefix_of(s@),
{
    let a = chars_of(s);
    let p = chars_of(prefix);
    if p.len() > a.len() {
        return false;
    }
    for i in 0..p.len()
        invariant
            a@ == s@,
            p@ == prefix@,
            p@.len() <= a@.len(),
            forall|j: int| 0 <= j < i ==> p@[j] == a@[j],
    {
        if p[i] != a[i] {
            proof {
                if prefix@.is_prefix_of(s@) {
                    assert(prefix@[i as int] == s@.subrange(0, prefix@.len() as int)[i as int]);
                }
            }
            return false;
        }
    }
    proof {
        assert(prefix@ =~= s@.subrange(0, prefix@.len() as int));
    }
    true
}

// --- Numerals ---------------------------------------------------------------

/// The digit for `d`, in lower case above nine.
pub open spec fn digit_char(d: int) -> char {
    if d < 10 {
        (d + 48) as char
    } else {
        (d + 87) as char
    }
}

/// The numeral of `n` in `base`, most significant digit first.
pub open spec fn numeral(n: nat, base: nat) -> Seq<char>
    decreases n,
{
    if base < 2 || n < base {
        seq![digit_char(n as int)]
    } else {
        proof {
            assert(n / base < n) by (nonlinear_arith)
                requires
                    n >= base,
                    base >= 2,
            ;
        }
        numeral(n / base, base).push(digit_char((n % base) as int))
    }
}

/// `n` in decimal.
pub open spec fn decimal(n: nat) -> Seq<char> {
    numeral(n, 10)
}

/// `n` in lower-case hexadecimal, filled up with zeros to at least `width` digits.
pub open spec fn padded_hex(n: nat, width: nat) -> Seq<char> {
    let digits = numeral(n, 16);
    if digits.len() < width {
        Seq::new((width - digits.len()) as nat, |i: int| '0') + digits
    } else {
        digits
    }
}

fn digit_text(d: u128) -> (r: &'static str)
    requires
        d < 16,
    ensures
        r@ == seq![digit_char(d as int)],
{
    proof {
        reveal_strlit("0");
        reveal_strlit("1");
        reveal_strlit("2");
        reveal_strlit("3");
        reveal_strlit("4");
        reveal_strlit("5");
        reveal_strlit("6");
        reveal_strlit("7");
        reveal_strlit("8");
        reveal_strlit("9");
        reveal_strlit("a");
        reveal_strlit("b");
        reveal_strlit("c");
        reveal_strlit("d");
        reveal_strlit("e");
        reveal_strlit("f");
    }
    let r = match d {
        0 => "0",
        1 => "1",
        2 => "2",
        3 => "3",
        4 => "4",
        5 => "5",
        6 => "6",
        7 => "7",
        8 => "8",
        9 => "9",
        10 => "a",
        11 => "b",
        12 => "c",
        13 => "d",
        14 => "e",
        _ => "f",
    };
    proof {
        assert(r@ =~= seq![digit_char(d as int)]);
    }
    r
}

fn append_numeral(out: &mut String, n: u128, base: u128)
    requires
        2 <= base <= 16,
    ensures
        final(out)@ == old(out)@ + numeral(n as nat, base as nat),
    decreases n,
{
    if n >= base {
        proof {
            assert(n / base < n) by (nonlinear_arith)
                requires
                    n >= base,
                    base >= 2,
            ;
        }
        append_numeral(out, n / base, base);
    }
    proof {
        assert(n % base < base) by (nonlinear_arith)
            requires
                base >= 2,
        ;
    }
    let ghost before = out@;
    out.append(digit_text(n % base));
    proof {
        if n < base {
            assert(n % base == n) by (nonlinear_arith)
                requires
                    n < base,
            ;
        }
        assert(out@ =~= before.push(digit_char((n % base) as int)));
        assert(out@ =~= old(out)@ + numeral(n as nat, base as nat));
    }
}

/// `n` in decimal.
pub fn to_decimal(n: u64) -> (r: String)
    ensures
        r@ == decimal(n as nat),
{
    to_wide_decimal(n as u128)
}

/// `n` in decimal.
pub fn to_wide_decimal(n: u128) -> (r: String)
    ensures
        r@ == decimal(n as nat),
{
    let mut out = String::new();
    append_numeral(&mut out, n, 10);
    proof {
        assert(out@ =~= decimal(n as nat));
    }
    out
}

/// `n` in decimal, with a sign where it is negative.
pub open spec fn signed_decimal(n: int) -> Seq<char> {
    if n < 0 {
        "-"@ + decimal((-n) as nat)
    } else {
        decimal(n as nat)
    }
}

/// `n` in decimal, with a sign where it is negative.
pub fn to_signed_decimal(n: i64) -> (r: String)
    ensures
        r@ == signed_decimal(n as int),
{
    if n < 0 {
        let magnitude: i128 = -(n as i128);
        "-".to_owned().concat(to_wide_decimal(magnitude as u128).as_str())
    } else {
        to_wide_decimal(n as u128)
    }
}

/// `n` in lower-case hexadecimal with at least `width` digits.
pub fn to_padded_hex(n: u64, width: usize) -> (r: String)
    ensures
        r@ == padded_hex(n as nat, width as nat),
{
    let mut digits = String::new();
    append_numeral(&mut digits, n as u128, 16);
    proof {
        assert(digits@ =~= numeral(n as nat, 16));
    }
    let have: usize = digits.as_str().unicode_len();
    let mut out = String::new();
    let mut filled: usize = 0;
    while have < width && filled < width - have
        invariant
            filled <= width,
            have >= width ==> filled == 0,
            have < width ==> filled <= width - have,
            out@ == Seq::new(filled as nat, |i: int| '0'),
        decreases width - filled,
    {
        proof {
            reveal_strlit("0");
            assert(Seq::new(filled as nat, |i: int| '0') + "0"@ =~= Seq::new(
                (filled + 1) as nat,
                |i: int| '0',
            ));
        }
        out.append("0");
        filled = filled + 1;
    }
    out.append(digits.as_str());
    proof {
        assert(out@ =~= padded_hex(n as nat, width as nat));
    }
    out
}

/// The value of a digit.
pub open spec fn digit_value(c: char) -> nat {
    (c as u32 - 48) as nat
}

/// Whether every character is one of the ten ASCII digits.
pub open spec fn all_digits(s: Seq<char>) -> bool {
    forall|i: int| 0 <= i < s.len() ==> 48 <= #[trigger] s[i] as u32 <= 57
}

/// The number that decimal digits denote.
pub open spec fn digits_value(s: Seq<char>) -> nat
    decreases s.len(),
{
    if s.len() == 0 {
        0
    } else {
        digits_value(s.drop_last()) * 10 + digit_value(s.last())
    }
}

/// The digits of a numeral: what is left when a leading plus sign, with something
/// behind it, is taken off.
pub open spec fn unsigned_digits(s: Seq<char>) -> Seq<char> {
    if s.len() > 1 && s[0] == '+' {
        s.skip(1)
    } else {
        s
    }
}

/// How a text reads as an unsigned number of at most `max`: an optional plus sign
/// and at least one digit, and nothing else.
pub open spec fn unsigned_value(s: Seq<char>, max: nat) -> Option<nat> {
    let d = unsigned_digits(s);
    if d.len() > 0 && all_digits(d) && digits_value(d) <= max {
        Some(digits_value(d))
    } else {
        None
    }
}

proof fn lemma_digits_value_grows(s: Seq<char>, i: int)
    requires
        0 <= i <= s.len(),
    ensures
        digits_value(s.take(i)) <= digits_value(s),
    decreases s.len() - i,
{
    if i < s.len() {
        lemma_digits_value_grows(s, i + 1);
        assert(s.take(i + 1).drop_last() =~= s.take(i));
        assert(digits_value(s.take(i + 1)) == digits_value(s.take(i)) * 10 + digit_value(
            s.take(i + 1).last(),
        ));
    } else {
        assert(s.take(i) =~= s);
    }
}

/// Reads an unsigned decimal number of at most `max`.
pub fn parse_unsigned(s: &str, max: u128) -> (r: Option<u128>)
    ensures
        match r {
            Some(v) => unsigned_value(s@, max as nat) == Some(v as nat),
            None => unsigned_value(s@, max as nat) is None,
        },
{
    let chars = chars_of(s);
    let start: usize = if chars.len() > 1 && chars[0] == '+' {
        1
    } else {
        0
    };
    let ghost d = unsigned_digits(s@);
    proof {
        assert(d =~= chars@.skip(start as int));
    }
    if start == chars.len() {
        return None;
    }
    let mut value: u128 = 0;
    proof {
        assert(d.take(0) =~= Seq::empty());
    }
    for i in start..chars.len()
        invariant
            chars@ == s@,
            start <= chars@.len(),
            d == chars@.skip(start as int),
            d == unsigned_digits(s@),
            value <= max,
            value == digits_value(d.take(i - start)),
            forall|j: int| 0 <= j < i - start ==> 48 <= #[trigger] d[j] as u32 <= 57,
    {
        let c = chars[i];
        let ghost k = i - start;
        assert(c == d[k]);
        let code: u32 = c as u32;
        if code < 48 || code > 57 {
            assert(!all_digits(d));
            return None;
        }
        let digit: u128 = (code - 48) as u128;
        proof {
            assert(d.take(k + 1).drop_last() =~= d.take(k));
            assert(d.take(k + 1).last() == c);
            lemma_digits_value_grows(d, k + 1);
        }
        if digit > max || value > (max - digit) / 10 {
            proof {
                assert(value * 10 + digit > max);
            }
            return None;
        }
        value = value * 10 + digit;
    }
    proof {
        assert(d.take(d.len() as int) =~= d);
        assert(all_digits(d));
    }
    Some(value)
}

/// Characters that count as white space at the ends of a setting.
pub open spec fn white_space(c: char) -> bool {
    let u = c as u32;
    ||| 0x9 <= u <= 0xd
    ||| u == 0x20
    ||| u == 0x85
    ||| u == 0xa0
    ||| u == 0x1680
    ||| 0x2000 <= u <= 0x200a
    ||| u == 0x2028
    ||| u == 0x2029
    ||| u == 0x202f
    ||| u == 0x205f
    ||| u == 0x3000
}

/// A text without the white space at its ends: the shortest stretch that holds
/// every character that is not white space.
pub open spec fn trimmed(s: Seq<char>) -> Seq<char> {
    trim_end(trim_start(s))
}

pub open spec fn trim_start(s: Seq<char>) -> Seq<char>
    decreases s.len(),
{
    if s.len() > 0 && white_space(s[0]) {
        trim_start(s.skip(1))
    } else {
        s
    }
}

pub open spec fn trim_end(s: Seq<char>) -> Seq<char>
    decreases s.len(),
{
    if s.len() > 0 && white_space(s.last()) {
        trim_end(s.drop_last())
    } else {
        s
    }
}

fn is_white_space(c: char) -> (r: bool)
    ensures
        r == white_space(c),
{
    let u: u32 = c as u32;
    (0x9 <= u && u <= 0xd) || u == 0x20 || u == 0x85 || u == 0xa0 || u == 0x1680 || (0x2000 <= u
        && u <= 0x200a) || u == 0x2028 || u == 0x2029 || u == 0x202f || u == 0x205f || u == 0x3000
}

/// The text without the white space at its ends.
pub fn trim(s: &str) -> (r: &str)
    ensures
        r@ == trimmed(s@),
{
    let chars = chars_of(s);
    let mut from: usize = 0;
    proof {
        assert(s@.skip(0) =~= s@);
    }
    while from < chars.len() && is_white_space(chars[from])
        invariant
            chars@ == s@,
            from <= chars@.len(),
            trim_start(s@) == trim_start(s@.skip(from as int)),
        decreases chars@.len() - from,
    {
        proof {
            assert(s@.skip(from as int).skip(1) =~= s@.skip(from + 1));
        }
        from = from + 1;
    }
    let mut to: usize = chars.len();
    let ghost rest = s@.skip(from as int);
    proof {
        assert(rest == trim_start(s@));
        assert(s@.subrange(from as int, to as int) =~= rest);
    }
    while to > from && is_white_space(chars[to - 1])
        invariant
            chars@ == s@,
            from <= to <= chars@.len(),
            trim_end(rest) == trim_end(s@.subrange(from as int, to as int)),
        decreases to,
    {
        proof {
            assert(s@.subrange(from as int, to as int).drop_last() =~= s@.subrange(
                from as int,
                to - 1,
            ));
        }
        to = to - 1;
    }
    s.substring_char(from, to)
}

/// A text without the occurrences of `c` at its end.
pub open spec fn without_trailing(s: Seq<char>, c: char) -> Seq<char>
    decreases s.len(),
{
    if s.len() > 0 && s.last() == c {
        without_trailing(s.drop_last(), c)
    } else {
        s
    }
}

/// The text without the occurrences of `c` at its end.
pub fn strip_trailing(s: &str, c: char) -> (r: &str)
    ensures
        r@ == without_trailing(s@, c),
{
    let chars = chars_of(s);
    let mut to: usize = chars.len();
    proof {
        assert(s@.take(to as int) =~= s@);
    }
    while to > 0 && chars[to - 1] == c
        invariant
            chars@ == s@,
            to <= chars@.len(),
            without_trailing(s@, c) == without_trailing(s@.take(to as int), c),
        decreases to,
    {
        proof {
            assert(s@.take(to as int).drop_last() =~= s@.take(to - 1));
        }
        to = to - 1;
    }
    proof {
        assert(s@.subrange(0, to as int) =~= s@.take(to as int));
    }
    s.substring_char(0, to)
}

// --- What a reading comes to -------------------------------------------------

/// A numeral is its number digit by digit: the last digit is the remainder by the base
/// and what stands before it is the numeral of the quotient; below the base there is one
/// digit alone.
pub proof fn a_numeral_is_written_digit_by_digit(n: nat)
    ensures
        n < 10 ==> decimal(n) == seq![(n + 48) as char],
        n >= 10 ==> decimal(n).last() == ((n % 10) + 48) as char && decimal(n).drop_last()
            == decimal(n / 10),
        n < 10 ==> numeral(n, 16) == seq![(n + 48) as char],
        10 <= n < 16 ==> numeral(n, 16) == seq![(n + 87) as char],
        n >= 16 ==> numeral(n, 16).last() == numeral(n % 16, 16)[0] && numeral(n, 16).drop_last()
            == numeral(n / 16, 16),
{
    if n >= 10 {
        assert(decimal(n).drop_last() =~= decimal(n / 10));
    }
    if n >= 16 {
        assert(numeral(n, 16).drop_last() =~= numeral(n / 16, 16));
    }
}

/// One more digit makes ten times the number and the digit.
pub proof fn digits_count_in_tens(s: Seq<char>, c: char)
    requires
        48 <= c as u32 <= 57,
    ensures
        digits_value(Seq::empty()) == 0,
        digits_value(s.push(c)) == 10 * digits_value(s) + (c as u32 - 48),
{
    assert(s.push(c).drop_last() =~= s);
}

proof fn lemma_decimal_digits(n: nat)
    ensures
        decimal(n).len() > 0,
        all_digits(decimal(n)),
        digits_value(decimal(n)) == n,
    decreases n,
{
    reveal_with_fuel(digits_value, 2);
    let d = decimal(n);
    if n >= 10 {
        lemma_decimal_digits(n / 10);
        assert(d.drop_last() =~= decimal(n / 10));
        assert forall|i: int| 0 <= i < d.len() implies 48 <= #[trigger] d[i] as u32 <= 57 by {
            if i < d.len() - 1 {
                assert(d[i] == decimal(n / 10)[i]);
            }
        }
    } else {
        assert(d.drop_last() =~= Seq::empty());
    }
}

/// What is written in decimal reads back as the number, wherever the number is allowed.
pub proof fn a_numeral_reads_back(n: nat, max: nat)
    ensures
        n <= max ==> unsigned_value(decimal(n), max) == Some(n),
        n > max ==> unsigned_value(decimal(n), max) is None,
{
    lemma_decimal_digits(n);
    assert(decimal(n)[0] as u32 >= 48);
}

/// A text reads as an unsigned number exactly where it is one digit or more, with or
/// without a plus sign before them, and the number is allowed; then that is what it reads
/// as.
pub proof fn only_digits_read_as_a_number(s: Seq<char>, max: nat)
    ensures
        unsigned_value(s, max) is Some <==> {
            ||| only_digits(s) && digits_value(s) <= max
            ||| s.len() > 0 && s[0] == '+' && only_digits(s.skip(1)) && digits_value(s.skip(1))
                <= max
        },
        unsigned_value(s, max) matches Some(v) ==> v == digits_value(
            if s[0] == '+' {
                s.skip(1)
            } else {
                s
            },
        ),
{
    let d = unsigned_digits(s);
    if s.len() > 0 && s[0] == '+' {
        assert(s[0] as u32 == 43);
        assert(!only_digits(s));
        assert(!all_digits(s));
    }
    if all_digits(d) && d.len() > 0 {
        assert(only_digits(d));
    } else if d.len() > 0 {
        let i = choose|i: int| 0 <= i < d.len() && !(48 <= #[trigger] d[i] as u32 <= 57);
        assert(!(48 <= d[i] as u32 <= 57));
        assert(!only_digits(d));
    }
}

/// Whether a text is one decimal digit or more.
pub open spec fn only_digits(s: Seq<char>) -> bool {
    &&& s.len() > 0
    &&& forall|i: int|
        0 <= i < s.len() ==> '0' as u32 <= #[trigger] s[i] as u32 <= '9' as u32
}

proof fn lemma_trim_start(s: Seq<char>) -> (i: int)
    ensures
        0 <= i <= s.len(),
        trim_start(s) == s.skip(i),
        forall|j: int| 0 <= j < i ==> white_space(#[trigger] s[j]),
        i < s.len() ==> !white_space(s[i]),
    decreases s.len(),
{
    if s.len() > 0 && white_space(s[0]) {
        let i = lemma_trim_start(s.skip(1));
        assert(s.skip(1).skip(i) =~= s.skip(i + 1));
        assert forall|j: int| 0 <= j < i + 1 implies white_space(#[trigger] s[j]) by {
            if j > 0 {
                assert(s.skip(1)[j - 1] == s[j]);
            }
        }
        i + 1
    } else {
        assert(s.skip(0) =~= s);
        0
    }
}

proof fn lemma_trim_end(s: Seq<char>) -> (i: int)
    ensures
        0 <= i <= s.len(),
        trim_end(s) == s.take(i),
        forall|j: int| i <= j < s.len() ==> white_space(#[trigger] s[j]),
        i > 0 ==> !white_space(s[i - 1]),
    decreases s.len(),
{
    if s.len() > 0 && white_space(s.last()) {
        let i = lemma_trim_end(s.drop_last());
        assert(s.drop_last().take(i) =~= s.take(i));
        assert forall|j: int| i <= j < s.len() implies white_space(#[trigger] s[j]) by {
            if j < s.len() - 1 {
                assert(s.drop_last()[j] == s[j]);
            }
        }
        i
    } else {
        assert(s.take(s.len() as int) =~= s);
        s.len() as int
    }
}

/// Trimming takes off the white space at the ends and nothing else: what is left neither
/// begins nor ends with any, and everything around it is.
pub proof fn trimming_takes_off_white_space_at_the_ends(s: Seq<char>)
    ensures
        exists|from: int, to: int|
            {
                &&& 0 <= from <= to <= s.len()
                &&& #[trigger] s.subrange(from, to) == trimmed(s)
                &&& forall|i: int| 0 <= i < from ==> white_space(#[trigger] s[i])
                &&& forall|i: int| to <= i < s.len() ==> white_space(#[trigger] s[i])
                &&& from < to ==> !white_space(s[from]) && !white_space(s[to - 1])
            },
{
    let from = lemma_trim_start(s);
    let rest = s.skip(from);
    let n = lemma_trim_end(rest);
    assert(s.subrange(from, from + n) =~= rest.take(n));
    assert forall|i: int| from + n <= i < s.len() implies white_space(#[trigger] s[i]) by {
        assert(rest[i - from] == s[i]);
    }
    if n > 0 {
        assert(rest[n - 1] == s[from + n - 1]);
        assert(rest[0] == s[from]);
    }
}

/// White space is what Unicode counts as such: the five controls from tab to carriage
/// return, the space, the next line, the no-break space, and the spaces and separators
/// beyond.
pub proof fn white_space_is_that_of_unicode(c: char)
    ensures
        white_space(c) <==> seq![
            9int,
            10,
            11,
            12,
            13,
            32,
            133,
            160,
            5760,
            8192,
            8193,
            8194,
            8195,
            8196,
            8197,
            8198,
            8199,
            8200,
            8201,
            8202,
            8232,
            8233,
            8239,
            8287,
            12288,
        ].contains(c as int),
{
    let all = seq![
        9int,
        10,
        11,
        12,
        13,
        32,
        133,
        160,
        5760,
        8192,
        8193,
        8194,
        8195,
        8196,
        8197,
        8198,
        8199,
        8200,
        8201,
        8202,
        8232,
        8233,
        8239,
        8287,
        12288,
    ];
    let u = c as int;
    if white_space(c) {
        let i = if u <= 13 {
            u - 9
        } else if u == 32 {
            5
        } else if u == 133 {
            6
        } else if u == 160 {
            7
        } else if u == 5760 {
            8
        } else if u <= 8202 {
            u - 8192 + 9
        } else if u == 8232 {
            20
        } else if u == 8233 {
            21
        } else if u == 8239 {
            22
        } else if u == 8287 {
            23
        } else {
            24
        };
        assert(all[i] == u);
    }
}

/// What is left without the trailing occurrences of a character is the text up to them.
pub proof fn only_trailing_occurrences_are_taken_off(s: Seq<char>, c: char)
    ensures
        without_trailing(s, c).len() <= s.len(),
        without_trailing(s, c) == s.take(without_trailing(s, c).len() as int),
        forall|i: int|
            without_trailing(s, c).len() <= i < s.len() ==> #[trigger] s[i] == c,
        without_trailing(s, c).len() > 0 ==> without_trailing(s, c).last() != c,
    decreases s.len(),
{
    if s.len() > 0 && s.last() == c {
        let front = s.drop_last();
        only_trailing_occurrences_are_taken_off(front, c);
        let n = without_trailing(front, c).len() as int;
        assert(front.take(n) =~= s.take(n));
        assert forall|i: int| n <= i < s.len() implies #[trigger] s[i] == c by {
            if i < front.len() {
                assert(front[i] == s[i]);
            }
        }
    } else {
        assert(s.take(s.len() as int) =~= s);
    }
}

/// Hexadecimal is filled up with zeros to the width and not cut: it ends in the numeral
/// and has nothing but zeros before it.
pub proof fn hexadecimal_is_filled_up_with_zeros(n: nat, width: nat)
    ensures
        ({
            let (digits, filled) = (numeral(n, 16), padded_hex(n, width));
            &&& filled.len() == (if digits.len() < width {
                width
            } else {
                digits.len()
            })
            &&& filled.skip(filled.len() - digits.len()) == digits
            &&& forall|i: int| 0 <= i < filled.len() - digits.len() ==> #[trigger] filled[i] == '0'
        }),
{
    let (digits, filled) = (numeral(n, 16), padded_hex(n, width));
    assert(filled.skip(filled.len() - digits.len()) =~= digits);
}

/// What is written as a number reads back as that number.
pub proof fn a_written_number_is_read_back(
    n: u128,
    written: String,
    text: &str,
    max: u128,
    read: Option<u128>,
)
    requires
        call_ensures(to_wide_decimal, (n,), written),
        text@ == written@,
        call_ensures(parse_unsigned, (text, max), read),
        n <= max,
    ensures
        read == Some(n),
{
    a_numeral_reads_back(n as nat, max as nat);
}

/// A negative number is written as a minus sign and its magnitude, any other as it is.
pub proof fn a_negative_number_is_written_with_a_minus(n: i64, written: String)
    requires
        call_ensures(to_signed_decimal, (n,), written),
    ensures
        n >= 0 ==> written@ == decimal(n as nat),
        n < 0 ==> written@ == seq!['-'] + decimal((-n) as nat),
{
    reveal_strlit("-");
    if n < 0 {
        assert(written@ =~= seq!['-'] + decimal((-n) as nat));
    }
}

/// Trimming and stripping take off the ends and nothing else, a beginning is told as such,
/// and a text is listed exactly where one that is the same is.
pub proof fn texts_are_cut_at_their_ends(
    s: &str,
    c: char,
    prefix: &str,
    list: &Vec<String>,
    trimmed_text: &str,
    stripped: &str,
    begins: bool,
    listed: bool,
)
    requires
        call_ensures(trim, (s,), trimmed_text),
        call_ensures(strip_trailing, (s, c), stripped),
        call_ensures(begins_with, (s, prefix), begins),
        call_ensures(lists_text, (list, s), listed),
    ensures
        exists|from: int, to: int|
            {
                &&& 0 <= from <= to <= s@.len()
                &&& #[trigger] s@.subrange(from, to) == trimmed_text@
                &&& forall|i: int| 0 <= i < from ==> white_space(#[trigger] s@[i])
                &&& forall|i: int| to <= i < s@.len() ==> white_space(#[trigger] s@[i])
                &&& from < to ==> !white_space(s@[from]) && !white_space(s@[to - 1])
            },
        stripped@ == s@.take(stripped@.len() as int),
        forall|i: int| stripped@.len() <= i < s@.len() ==> #[trigger] s@[i] == c,
        stripped@.len() > 0 ==> stripped@.last() != c,
        begins <==> prefix@.len() <= s@.len() && s@.take(prefix@.len() as int) == prefix@,
        listed <==> exists|i: int| 0 <= i < list@.len() && (#[trigger] list@[i])@ == s@,
{
    trimming_takes_off_white_space_at_the_ends(s@);
    only_trailing_occurrences_are_taken_off(s@, c);
    if prefix@.len() <= s@.len() {
        assert(s@.take(prefix@.len() as int) =~= s@.subrange(0, prefix@.len() as int));
    }
    let all = texts(list@);
    if all.contains(s@) {
        let i = choose|i: int| 0 <= i < all.len() && all[i] == s@;
        assert(list@[i]@ == s@);
    }
    if exists|i: int| 0 <= i < list@.len() && (#[trigger] list@[i])@ == s@ {
        let i = choose|i: int| 0 <= i < list@.len() && (#[trigger] list@[i])@ == s@;
        assert(all[i] == s@);
    }
}

} // verus!
