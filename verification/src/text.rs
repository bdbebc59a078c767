//! Text as the library reads and writes it: white space, decimal numbers,
//! padding, and searching.

use vstd::prelude::*;

verus! {

/// The characters with Unicode's `White_Space` property.
pub open spec fn is_space(c: char) -> bool {
    let v = c as u32;
    ||| 0x09 <= v <= 0x0d
    ||| v == 0x20
    ||| v == 0x85
    ||| v == 0xa0
    ||| v == 0x1680
    ||| 0x2000 <= v <= 0x200a
    ||| v == 0x2028
    ||| v == 0x2029
    ||| v == 0x202f
    ||| v == 0x205f
    ||| v == 0x3000
}

/// Text without the white space at its two ends.
pub open spec fn trimmed(s: Seq<char>) -> Seq<char>
    decreases s.len(),
{
    if s.len() == 0 {
        s
    } else if is_space(s[0]) {
        trimmed(s.drop_first())
    } else if is_space(s.last()) {
        trimmed(s.drop_last())
    } else {
        s
    }
}

/// The decimal digit of a number below ten.
pub open spec fn digit_char(d: nat) -> char {
    ('0' as u32 + d) as char
}

/// A number in decimal, without leading zeros.
pub open spec fn decimal(n: nat) -> Seq<char>
    decreases n,
{
    if n < 10 {
        seq![digit_char(n)]
    } else {
        decimal(n / 10).push(digit_char(n % 10))
    }
}

/// An ASCII decimal digit.
pub open spec fn is_digit(c: char) -> bool {
    '0' as u32 <= c as u32 <= '9' as u32
}

/// The value of an ASCII decimal digit.
pub open spec fn digit_value(c: char) -> int {
    c as u32 - '0' as u32
}

/// Nothing but ASCII decimal digits.
pub open spec fn all_digits(s: Seq<char>) -> bool {
    forall|i: int| 0 <= i < s.len() ==> is_digit(#[trigger] s[i])
}

/// The number that a run of decimal digits denotes.
pub open spec fn digits_value(s: Seq<char>) -> int
    decreases s.len(),
{
    if s.len() == 0 {
        0
    } else {
        10 * digits_value(s.drop_last()) + digit_value(s.last())
    }
}

/// Text without one leading plus sign.
pub open spec fn unsigned_part(s: Seq<char>) -> Seq<char> {
    if s.len() > 0 && s[0] == '+' {
        s.drop_first()
    } else {
        s
    }
}

/// The number that text denotes, if it is one of at most `max`: an optional
/// plus sign and at least one decimal digit.
pub open spec fn parsed_number(s: Seq<char>, max: int) -> Option<int> {
    let d = unsigned_part(s);
    if d.len() > 0 && all_digits(d) && digits_value(d) <= max {
        Some(digits_value(d))
    } else {
        None
    }
}

/// `t` occurs in `s` at position `i`.
pub open spec fn occurs_at(s: Seq<char>, t: Seq<char>, i: int) -> bool {
    0 <= i && i + t.len() <= s.len() && s.subrange(i, i + t.len()) == t
}

/// `t` occurs somewhere in `s`.
pub open spec fn occurs_in(s: Seq<char>, t: Seq<char>) -> bool {
    exists|i: int| occurs_at(s, t, i)
}

/// `n` blanks.
pub open spec fn blanks(n: nat) -> Seq<char> {
    Seq::new(n, |i: int| ' ')
}

/// Text filled up with blanks on the right to at least `width` characters.
pub open spec fn padded(s: Seq<char>, width: nat) -> Seq<char> {
    if s.len() < width {
        s + blanks((width - s.len()) as nat)
    } else {
        s
    }
}

/// Whether a character is white space.
pub fn is_white(c: char) -> (r: bool)
    ensures
        r == is_space(c),
{
    let v: u32 = c as u32;
    (0x09 <= v && v <= 0x0d) || v == 0x20 || v == 0x85 || v == 0xa0 || v == 0x1680 || (0x2000 <= v
        && v <= 0x200a) || v == 0x2028 || v == 0x2029 || v == 0x202f || v == 0x205f || v == 0x3000
}

/// The characters of a text.
pub fn to_chars(s: &str) -> (r: Vec<char>)
    ensures
        r@ == s@,
{
    let mut out: Vec<char> = Vec::new();
    for c in it: s.chars()
        invariant
            it.seq() == s@,
            out@ == s@.take(it.index() as int),
    {
        out.push(c);
    }
    assert(s@.take(s@.len() as int) == s@);
    out
}

/// Whether two texts are equal.
pub fn same_text(a: &str, b: &str) -> (r: bool)
    ensures
        r == (a@ == b@),
{
    a.to_owned() == b.to_owned()
}

/// Removes the white space at both ends.
pub fn trim(s: &str) -> (r: String)
    ensures
        r@ == trimmed(s@),
{
    let chars: Vec<char> = to_chars(s);
    let mut lo: usize = 0;
    let mut hi: usize = chars.len();
    assert(chars@.subrange(0, chars@.len() as int) == chars@);
    while lo < hi && is_white(chars[lo])
        invariant
            lo <= hi == chars@.len(),
            chars@ == s@,
            trimmed(chars@.subrange(lo as int, hi as int)) == trimmed(s@),
        decreases hi - lo,
    {
        proof {
            let rest = chars@.subrange(lo as int, hi as int);
            assert(rest.drop_first() == chars@.subrange(lo + 1, hi as int));
        }
        lo = lo + 1;
    }
    while lo < hi && is_white(chars[hi - 1])
        invariant
            lo <= hi <= chars@.len(),
            chars@ == s@,
            lo < hi ==> !is_space(chars@[lo as int]),
            trimmed(chars@.subrange(lo as int, hi as int)) == trimmed(s@),
        decreases hi - lo,
    {
        proof {
            let rest = chars@.subrange(lo as int, hi as int);
            assert(rest.drop_last() == chars@.subrange(lo as int, hi - 1));
        }
        hi = hi - 1;
    }
    s.substring_char(lo, hi).to_owned()
}

/// The decimal digit of a number below ten, as text.
fn digit_text(d: u64) -> (r: &'static str)
    requires
        d < 10,
    ensures
        r@ == seq![digit_char(d as nat)],
{
    proof {
        reveal_strlit("0");
        reveal_strlit("1");
        reveal_strlit("2");
        reveal_strlit("3");
        reveal_strlit("4");
        reveal_strlit("5");
        reveal_strlit("6");
        reveal_strlit("7");
        reveal_strlit("8");
        reveal_strlit("9");
    }
    if d == 0 {
        "0"
    } else if d == 1 {
        "1"
    } else if d == 2 {
        "2"
    } else if d == 3 {
        "3"
    } else if d == 4 {
        "4"
    } else if d == 5 {
        "5"
    } else if d == 6 {
        "6"
    } else if d == 7 {
        "7"
    } else if d == 8 {
        "8"
    } else {
        "9"
    }
}

/// Writes a number in decimal.
pub fn decimal_text(n: u64) -> (r: String)
    ensures
        r@ == decimal(n as nat),
    decreases n,
{
    if n < 10 {
        digit_text(n).to_owned()
    } else {
        let mut s: String = decimal_text(n / 10);
        s.append(digit_text(n % 10));
        assert(s@ == decimal((n / 10) as nat).push(digit_char((n % 10) as nat)));
        s
    }
}

/// Digits to the right never make a number smaller.
proof fn lemma_digits_value_grows(s: Seq<char>, k: int)
    requires
        all_digits(s),
        0 <= k <= s.len(),
    ensures
        0 <= digits_value(s.take(k)) <= digits_value(s),
    decreases s.len() - k, k,
{
    if k == s.len() {
        assert(s.take(k) == s);
        lemma_digits_value_nonnegative(s);
    } else {
        let next = s.take(k + 1);
        assert(next.drop_last() == s.take(k));
        assert(is_digit(s[k]));
        lemma_digits_value_grows(s, k + 1);
        lemma_digits_value_nonnegative(s.take(k));
    }
}

proof fn lemma_digits_value_nonnegative(s: Seq<char>)
    requires
        all_digits(s),
    ensures
        0 <= digits_value(s),
    decreases s.len(),
{
    if s.len() > 0 {
        assert(is_digit(s.last()));
        lemma_digits_value_nonnegative(s.drop_last());
    }
}

/// Reads a number of at most `max`.
pub fn parse_number(s: &str, max: u64) -> (r: Option<u64>)
    ensures
        match parsed_number(s@, max as int) {
            Some(v) => r == Some(v as u64) && 0 <= v <= max,
            None => r is None,
        },
{
    let chars: Vec<char> = to_chars(s);
    let start: usize = if chars.len() > 0 && chars[0] == '+' {
        1
    } else {
        0
    };
    let ghost d = unsigned_part(s@);
    assert(d == chars@.skip(start as int));
    if chars.len() == start {
        return None;
    }
    let mut value: u64 = 0;
    let mut i: usize = start;
    while i < chars.len()
        invariant
            start <= i <= chars@.len(),
            start <= 1,
            chars@ == s@,
            d == unsigned_part(s@),
            d == chars@.skip(start as int),
            d.len() > 0,
            all_digits(d.take(i - start)),
            value == digits_value(d.take(i - start)),
            value <= max,
        decreases chars@.len() - i,
    {
        let c: char = chars[i];
        let v: u32 = c as u32;
        let ghost k = i - start;
        assert(d[k] == c);
        if v < 48 || v > 57 {
            assert(!is_digit(d[k]));
            return None;
        }
        let digit: u64 = (v - 48) as u64;
        let ghost next = d.take(k + 1);
        proof {
            assert(next.drop_last() == d.take(k));
            assert forall|j: int| 0 <= j < next.len() implies is_digit(#[trigger] next[j]) by {
                if j < k {
                    assert(d.take(k)[j] == next[j]);
                }
            }
            if all_digits(d) {
                lemma_digits_value_grows(d, k + 1);
            }
        }
        if value > max / 10 {
            assert(digits_value(next) > max);
            return None;
        }
        let scaled: u64 = value * 10;
        if digit > max - scaled {
            assert(digits_value(next) > max);
            return None;
        }
        value = scaled + digit;
        i = i + 1;
    }
    assert(d.take(d.len() as int) == d);
    Some(value)
}

/// Whether `needle` occurs in `hay` at position `i`.
fn matches_at(hay: &Vec<char>, needle: &Vec<char>, i: usize) -> (r: bool)
    requires
        i + needle@.len() <= hay@.len(),
    ensures
        r == occurs_at(hay@, needle@, i as int),
{
    let n: usize = needle.len();
    let size: usize = hay.len();
    let mut k: usize = 0;
    while k < n
        invariant
            n == needle@.len(),
            i + n <= size == hay@.len(),
            k <= n,
            forall|j: int| 0 <= j < k ==> hay@[i + j] == #[trigger] needle@[j],
        decreases n - k,
    {
        if hay[i + k] != needle[k] {
            assert(hay@.subrange(i as int, i + n)[k as int] == hay@[i + k]);
            return false;
        }
        k = k + 1;
    }
    assert(hay@.subrange(i as int, i + n) =~= needle@);
    true
}

/// Whether `t` occurs in `s`.
pub fn contains_text(s: &str, t: &str) -> (r: bool)
    ensures
        r == occurs_in(s@, t@),
{
    let hay: Vec<char> = to_chars(s);
    let needle: Vec<char> = to_chars(t);
    if hay.len() < needle.len() {
        assert forall|i: int| !occurs_at(s@, t@, i) by {}
        return false;
    }
    let last: usize = hay.len() - needle.len();
    let mut i: usize = 0;
    while i < last
        invariant
            hay@ == s@,
            needle@ == t@,
            last + t@.len() == s@.len(),
            i <= last,
            forall|j: int| 0 <= j < i ==> !#[trigger] occurs_at(s@, t@, j),
        decreases last - i,
    {
        if matches_at(&hay, &needle, i) {
            return true;
        }
        i = i + 1;
    }
    let found: bool = matches_at(&hay, &needle, last);
    if !found {
        assert forall|j: int| !occurs_at(s@, t@, j) by {}
    }
    found
}

/// Fills text up with blanks on the right.
pub fn pad_right(s: &str, width: usize) -> (r: String)
    ensures
        r@ == padded(s@, width as nat),
{
    let mut out: String = s.to_owned();
    let len: usize = s.unicode_len();
    let mut i: usize = len;
    proof {
        reveal_strlit(" ");
    }
    assert(out@ == s@ + blanks(0));
    while i < width
        invariant
            s@.len() == len,
            len <= i,
            i <= width || i == len,
            out@ == s@ + blanks((i - len) as nat),
            " "@ == seq![' '],
        decreases width - i,
    {
        out.append(" ");
        assert(out@ == s@ + blanks((i + 1 - len) as nat));
        i = i + 1;
    }
    assert(s@ + blanks(0) == s@);
    out
}

/// Writing a number in decimal gives digits, without a sign or a blank.
pub proof fn lemma_decimal_digits(n: nat)
    ensures
        decimal(n).len() > 0,
        all_digits(decimal(n)),
        digits_value(decimal(n)) == n,
    decreases n,
{
    if n < 10 {
        let s = decimal(n);
        assert(s.drop_last() == Seq::<char>::empty());
        assert(digits_value(s.drop_last()) == 0);
    } else {
        lemma_decimal_digits(n / 10);
        assert(decimal(n).drop_last() == decimal(n / 10));
    }
}

/// A number that is written and read again is the same number.
pub proof fn decimal_reads_back(n: nat, max: int)
    requires
        n <= max,
    ensures
        parsed_number(decimal(n), max) == Some(n as int),
{
    lemma_decimal_digits(n);
    assert(is_digit(decimal(n)[0]));
    assert(unsigned_part(decimal(n)) == decimal(n));
}

/// Text whose first and last characters are not white space is its own trim.
pub proof fn lemma_trimmed_fixed(s: Seq<char>)
    requires
        s.len() == 0 || (!is_space(s[0]) && !is_space(s.last())),
    ensures
        trimmed(s) == s,
{
}

/// Trimming leaves nothing to trim.
pub proof fn trim_twice(s: Seq<char>)
    ensures
        trimmed(trimmed(s)) == trimmed(s),
    decreases s.len(),
{
    if s.len() == 0 {
    } else if is_space(s[0]) {
        trim_twice(s.drop_first());
    } else if is_space(s.last()) {
        trim_twice(s.drop_last());
    }
}

/// The white space characters, by their numbers.
pub proof fn what_white_space_is(c: char, r: bool)
    requires
        call_ensures(is_white, (c,), r),
    ensures
        ' ' == c || '\t' == c || '\n' == c || '\r' == c ==> r,
        0x21 <= c as u32 <= 0x84 ==> !r,
        0x86 <= c as u32 <= 0x9f ==> !r,
        0xa1 <= c as u32 <= 0x167f ==> !r,
        0x1681 <= c as u32 <= 0x1fff ==> !r,
        0x3001 <= c as u32 ==> !r,
        c as u32 <= 0x08 || 0x0e <= c as u32 <= 0x1f ==> !r,
        0x09 <= c as u32 <= 0x0d || c as u32 == 0x85 || c as u32 == 0xa0 || c as u32 == 0x1680 ==> r,
        0x2000 <= c as u32 <= 0x3000 ==> r == (c as u32 <= 0x200a || c as u32 == 0x2028 || c as u32
            == 0x2029 || c as u32 == 0x202f || c as u32 == 0x205f || c as u32 == 0x3000),
{
}

/// White space around a core that begins and ends with something else is trimmed.
pub proof fn lemma_trimmed_core(before: Seq<char>, core: Seq<char>, behind: Seq<char>)
    requires
        forall|i: int| 0 <= i < before.len() ==> is_space(#[trigger] before[i]),
        forall|i: int| 0 <= i < behind.len() ==> is_space(#[trigger] behind[i]),
        core.len() > 0 ==> !is_space(core[0]) && !is_space(core.last()),
    ensures
        trimmed(before + core + behind) == core,
    decreases before.len() + behind.len(),
{
    let s = before + core + behind;
    if before.len() > 0 {
        assert(s[0] == before[0]);
        let rest = before.drop_first();
        assert(s.drop_first() =~= rest + core + behind);
        assert forall|i: int| 0 <= i < rest.len() implies is_space(#[trigger] rest[i]) by {
            assert(rest[i] == before[i + 1]);
        }
        lemma_trimmed_core(rest, core, behind);
    } else if behind.len() > 0 {
        let rest = behind.drop_last();
        assert(s.last() == behind.last());
        assert(is_space(behind[behind.len() - 1]));
        assert forall|i: int| 0 <= i < rest.len() implies is_space(#[trigger] rest[i]) by {
            assert(rest[i] == behind[i]);
        }
        if core.len() > 0 {
            assert(s[0] == core[0]);
            assert(s.drop_last() =~= before + core + rest);
            lemma_trimmed_core(before, core, rest);
        } else {
            let later = behind.drop_first();
            assert(s[0] == behind[0]);
            assert(s.drop_first() =~= before + core + later);
            assert forall|i: int| 0 <= i < later.len() implies is_space(#[trigger] later[i]) by {
                assert(later[i] == behind[i + 1]);
            }
            lemma_trimmed_core(before, core, later);
        }
    } else {
        assert(s =~= core);
    }
}

/// Trimming takes away the white space in front and behind, whatever it is and
/// however much, and nothing else.
pub proof fn trimming_leaves_the_core(
    s: &str,
    r: String,
    before: Seq<char>,
    core: Seq<char>,
    behind: Seq<char>,
)
    requires
        call_ensures(trim, (s,), r),
        s@ == before + core + behind,
        forall|i: int| 0 <= i < before.len() ==> is_space(#[trigger] before[i]),
        forall|i: int| 0 <= i < behind.len() ==> is_space(#[trigger] behind[i]),
        core.len() > 0 ==> !is_space(core[0]) && !is_space(core.last()),
    ensures
        r@ == core,
{
    lemma_trimmed_core(before, core, behind);
}

/// A number below ten is written as its digit.
pub proof fn small_numbers_are_one_digit(n: u64, r: String)
    requires
        n < 10,
        call_ensures(decimal_text, (n,), r),
    ensures
        r@.len() == 1,
        r@[0] as u32 == 48 + n,
{
}

/// Any other number is written as its tenth, followed by its last digit.
pub proof fn long_numbers_end_in_their_last_digit(n: u64, tenth: String, r: String)
    requires
        n >= 10,
        call_ensures(decimal_text, ((n / 10) as u64,), tenth),
        call_ensures(decimal_text, (n,), r),
    ensures
        r@.drop_last() == tenth@,
        r@.len() == tenth@.len() + 1,
        r@.last() as u32 == 48 + n % 10,
{
    assert(r@.drop_last() =~= tenth@);
}

/// One character is read as a number if it is a digit of at most `max`.
pub proof fn one_digit_is_read(s: &str, max: u64, r: Option<u64>)
    requires
        s@.len() == 1,
        call_ensures(parse_number, (s, max), r),
    ensures
        48 <= s@[0] as u32 <= 57 && s@[0] as u32 - 48 <= max ==> r == Some(
            (s@[0] as u32 - 48) as u64,
        ),
        s@[0] as u32 > 57 || s@[0] as u32 - 48 > max || (s@[0] as u32) < 48 ==> r is None,
{
    let d = unsigned_part(s@);
    if s@[0] == '+' {
        assert(d.len() == 0);
    } else {
        assert(d == s@);
        assert(d.drop_last() =~= Seq::<char>::empty());
        assert(digits_value(d.drop_last()) == 0);
        assert(all_digits(d) == is_digit(d[0]));
    }
}

/// No text is read as no number.
pub proof fn nothing_is_read_from_nothing(s: &str, max: u64, r: Option<u64>)
    requires
        s@.len() == 0,
        call_ensures(parse_number, (s, max), r),
    ensures
        r is None,
{
}

/// A digit behind a text that is more than a sign makes ten times its number and
/// the digit, if that is at most `max`; any other character behind it spoils it.
pub proof fn a_digit_more_is_ten_times_as_much(
    shorter: &str,
    s: &str,
    max: u64,
    p: Option<u64>,
    r: Option<u64>,
)
    requires
        shorter@.len() > 1 || (shorter@.len() == 1 && shorter@[0] != '+'),
        s@.len() == shorter@.len() + 1,
        s@.drop_last() == shorter@,
        call_ensures(parse_number, (shorter, max), p),
        call_ensures(parse_number, (s, max), r),
    ensures
        48 <= s@.last() as u32 <= 57 ==> r == match p {
            Some(v) => if 10 * v + (s@.last() as u32 - 48) <= max {
                Some((10 * v + (s@.last() as u32 - 48)) as u64)
            } else {
                None
            },
            None => None,
        },
        (s@.last() as u32) < 48 || s@.last() as u32 > 57 ==> r is None,
{
    let c = s@.last();
    let t = shorter@;
    assert(s@ =~= t.push(c));
    let d = unsigned_part(s@);
    let e = unsigned_part(t);
    assert(d =~= e.push(c));
    assert(d.drop_last() =~= e);
    assert(all_digits(d) == (all_digits(e) && is_digit(c))) by {
        if all_digits(d) {
            assert forall|i: int| 0 <= i < e.len() implies is_digit(#[trigger] e[i]) by {
                assert(d[i] == e[i]);
            }
            assert(is_digit(d[d.len() - 1]));
        }
        if all_digits(e) && is_digit(c) {
            assert forall|i: int| 0 <= i < d.len() implies is_digit(#[trigger] d[i]) by {
                if i < e.len() {
                    assert(d[i] == e[i]);
                }
            }
        }
    }
    if all_digits(e) {
        lemma_digits_value_nonnegative(e);
    }
}

/// One plus sign in front makes no difference to a text that has none; a second one
/// spoils it.
pub proof fn a_plus_sign_makes_no_difference(
    plain: &str,
    s: &str,
    max: u64,
    p: Option<u64>,
    r: Option<u64>,
)
    requires
        s@ == seq!['+'] + plain@,
        call_ensures(parse_number, (plain, max), p),
        call_ensures(parse_number, (s, max), r),
    ensures
        plain@.len() > 0 && plain@[0] == '+' ==> r is None,
        !(plain@.len() > 0 && plain@[0] == '+') ==> r == p,
{
    assert(unsigned_part(s@) =~= plain@);
    if plain@.len() > 0 && plain@[0] == '+' {
        assert(!is_digit(plain@[0]));
    }
}

/// Occurring is having a front and a back.
pub proof fn lemma_occurs(s: Seq<char>, t: Seq<char>)
    ensures
        forall|a: Seq<char>, b: Seq<char>| s == #[trigger] (a + t + b) ==> occurs_in(s, t),
        occurs_in(s, t) ==> exists|a: Seq<char>, b: Seq<char>| s == #[trigger] (a + t + b),
{
    assert forall|a: Seq<char>, b: Seq<char>| s == #[trigger] (a + t + b) implies occurs_in(
        s,
        t,
    ) by {
        let i = a.len() as int;
        assert(s.subrange(i, i + t.len()) =~= t);
        assert(occurs_at(s, t, i));
    }
    if occurs_in(s, t) {
        let i = choose|i: int| occurs_at(s, t, i);
        let a = s.take(i);
        let b = s.skip(i + t.len());
        assert(s =~= a + t + b) by {
            assert forall|k: int| 0 <= k < s.len() implies s[k] == (a + t + b)[k] by {
                if i <= k < i + t.len() {
                    assert(s.subrange(i, i + t.len())[k - i] == s[k]);
                }
            }
        }
    }
}

/// A text occurs in another if that one is the text with something in front and
/// something behind.
pub proof fn occurring_text_has_a_front_and_a_back(s: &str, t: &str, r: bool)
    requires
        call_ensures(contains_text, (s, t), r),
    ensures
        forall|a: Seq<char>, b: Seq<char>| s@ == #[trigger] (a + t@ + b) ==> r,
        r ==> exists|a: Seq<char>, b: Seq<char>| s@ == #[trigger] (a + t@ + b),
{
    lemma_occurs(s@, t@);
}

/// Padding keeps the text in front, adds only blanks, and makes the text as long as
/// asked for unless it is longer already.
pub proof fn padding_adds_blanks(s: &str, width: usize, r: String)
    requires
        call_ensures(pad_right, (s, width), r),
    ensures
        r@.len() == (if s@.len() < width {
            width as int
        } else {
            s@.len() as int
        }),
        r@.take(s@.len() as int) == s@,
        forall|i: int| s@.len() <= i < r@.len() ==> #[trigger] r@[i] == ' ',
{
    assert(r@.take(s@.len() as int) =~= s@);
}

} // verus!
