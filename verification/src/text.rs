//! Text handling shared by the tools: decimal numbers, whitespace, joining.
use vstd::prelude::*;

verus! {

/// Whether `c` is an ASCII decimal digit.
pub open spec fn digit(c: char) -> bool {
    '0' <= c && c <= '9'
}

/// The value of a decimal digit.
pub open spec fn digit_value(c: char) -> int {
    c as int - '0' as int
}

/// The decimal digit of value `n`, for `n` below ten.
pub open spec fn digit_char(n: int) -> char {
    (n + '0' as int) as char
}

/// Decimal notation of a natural number, without leading zeros.
pub open spec fn decimal(n: nat) -> Seq<char>
    decreases n,
{
    if n < 10 {
        seq![digit_char(n as int)]
    } else {
        decimal(n / 10).push(digit_char((n % 10) as int))
    }
}

/// Decimal notation of `n`, filled up with zeros on the left to three places.
pub open spec fn decimal3(n: nat) -> Seq<char> {
    if n < 10 {
        "00"@ + decimal(n)
    } else if n < 100 {
        "0"@ + decimal(n)
    } else {
        decimal(n)
    }
}

/// Why a text is not an unsigned integer.
#[derive(Clone, Copy, Debug, PartialEq, Eq, Structural)]
pub enum IntFault {
    /// There is nothing to read.
    Empty,
    /// A character is no decimal digit.
    Digit,
    /// The number is above the largest one allowed.
    Overflow,
}

/// Reads digits from the left. The first character that is no digit, or the
/// first one that takes the number above `max`, decides the fault.
pub open spec fn read_digits(s: Seq<char>, max: int) -> Result<int, IntFault>
    decreases s.len(),
{
    if s.len() == 0 {
        Ok(0)
    } else {
        match read_digits(s.drop_last(), max) {
            Err(fault) => Err(fault),
            Ok(value) => if !digit(s.last()) {
                Err(IntFault::Digit)
            } else if value * 10 + digit_value(s.last()) > max {
                Err(IntFault::Overflow)
            } else {
                Ok(value * 10 + digit_value(s.last()))
            },
        }
    }
}

/// Reads an unsigned integer of at most `max`: digits, with a plus sign
/// allowed before them.
pub open spec fn read_unsigned(s: Seq<char>, max: int) -> Result<int, IntFault> {
    if s.len() == 0 {
        Err(IntFault::Empty)
    } else if s.len() == 1 && (s[0] == '+' || s[0] == '-') {
        Err(IntFault::Digit)
    } else if s[0] == '+' {
        read_digits(s.skip(1), max)
    } else {
        read_digits(s, max)
    }
}

/// Unicode white space.
pub open spec fn white(c: char) -> bool {
    ||| '\u{9}' <= c && c <= '\u{d}'
    ||| c == '\u{20}' || c == '\u{85}' || c == '\u{a0}' || c == '\u{1680}'
    ||| '\u{2000}' <= c && c <= '\u{200a}'
    ||| c == '\u{2028}' || c == '\u{2029}' || c == '\u{202f}' || c == '\u{205f}' || c == '\u{3000}'
}

/// Whether nothing but white space stands in `s`.
pub open spec fn blank(s: Seq<char>) -> bool {
    forall|i: int| 0 <= i < s.len() ==> white(#[trigger] s[i])
}

/// `s` without the white space at its front.
pub open spec fn trim_start(s: Seq<char>) -> Seq<char>
    decreases s.len(),
{
    if s.len() > 0 && white(s[0]) {
        trim_start(s.skip(1))
    } else {
        s
    }
}

/// `s` without the white space at its end.
pub open spec fn trim_end(s: Seq<char>) -> Seq<char>
    decreases s.len(),
{
    if s.len() > 0 && white(s.last()) {
        trim_end(s.drop_last())
    } else {
        s
    }
}

/// `s` without the white space at either end.
pub open spec fn trimmed(s: Seq<char>) -> Seq<char> {
    trim_end(trim_start(s))
}

/// The text that `str`'s `Debug` writes: `s` in double quotes, escaped.
pub uninterp spec fn quoted(s: Seq<char>) -> Seq<char>;

/// Quotes and escapes a text as `Debug` for `str` does. What the escapes are
/// is left to the name.
#[verifier::external_body]
pub(crate) fn quote(s: &str) -> (result: String)
    ensures
        result@ == quoted(s@),
{
    format!("{:?}", s)
}

/// Whether two texts hold the same characters.
pub fn same(a: &str, b: &str) -> (result: bool)
    ensures
        result == (a@ == b@),
{
    a.to_owned() == b.to_owned()
}

/// Two texts, one after the other.
pub fn join2(a: &str, b: &str) -> (result: String)
    ensures
        result@ == a@ + b@,
{
    a.to_owned().concat(b)
}

/// Three texts, one after the other.
pub fn join3(a: &str, b: &str, c: &str) -> (result: String)
    ensures
        result@ == a@ + b@ + c@,
{
    a.to_owned().concat(b).concat(c)
}

/// Four texts, one after the other.
pub fn join4(a: &str, b: &str, c: &str, d: &str) -> (result: String)
    ensures
        result@ == a@ + b@ + c@ + d@,
{
    a.to_owned().concat(b).concat(c).concat(d)
}

/// Five texts, one after the other.
pub fn join5(a: &str, b: &str, c: &str, d: &str, e: &str) -> (result: String)
    ensures
        result@ == a@ + b@ + c@ + d@ + e@,
{
    a.to_owned().concat(b).concat(c).concat(d).concat(e)
}

/// The digit of value `d`, as a text.
fn digit_text(d: u64) -> (result: &'static str)
    requires
        d < 10,
    ensures
        result@ == seq![digit_char(d as int)],
{
    proof {
        reveal_strlit("0");
        reveal_strlit("1");
        reveal_strlit("2");
        reveal_strlit("3");
        reveal_strlit("4");
        reveal_strlit("5");
        reveal_strlit("6");
        reveal_strlit("7");
        reveal_strlit("8");
        reveal_strlit("9");
    }
    if d == 0 {
        "0"
    } else if d == 1 {
        "1"
    } else if d == 2 {
        "2"
    } else if d == 3 {
        "3"
    } else if d == 4 {
        "4"
    } else if d == 5 {
        "5"
    } else if d == 6 {
        "6"
    } else if d == 7 {
        "7"
    } else if d == 8 {
        "8"
    } else {
        "9"
    }
}

/// Decimal notation of `n`.
pub fn decimal_text(n: u64) -> (result: String)
    ensures
        result@ == decimal(n as nat),
    decreases n,
{
    if n < 10 {
        digit_text(n).to_owned()
    } else {
        let head = decimal_text(n / 10);
        let result = head.concat(digit_text(n % 10));
        assert(result@ =~= decimal(n as nat));
        result
    }
}

/// Decimal notation of `n` in at least three places.
pub fn decimal3_text(n: u64) -> (result: String)
    ensures
        result@ == decimal3(n as nat),
{
    let digits = decimal_text(n);
    if n < 10 {
        join2("00", digits.as_str())
    } else if n < 100 {
        join2("0", digits.as_str())
    } else {
        digits
    }
}

/// Reads the digits of `s` from position `start` on.
fn read_digits_from(s: &str, start: usize, max: u64) -> (result: Result<u64, IntFault>)
    requires
        start <= s@.len(),
    ensures
        match result {
            Ok(value) => read_digits(s@.skip(start as int), max as int) == Ok::<int, IntFault>(
                value as int,
            ),
            Err(fault) => read_digits(s@.skip(start as int), max as int) == Err::<int, IntFault>(
                fault,
            ),
        },
{
    let len: usize = s.unicode_len();
    let ghost tail = s@.skip(start as int);
    let mut value: u64 = 0;
    let mut i: usize = start;
    proof {
        assert(tail.take(0).len() == 0);
    }
    while i < len
        invariant
            start <= i <= len,
            len == s@.len(),
            tail == s@.skip(start as int),
            read_digits(tail.take(i - start), max as int) == Ok::<int, IntFault>(value as int),
        decreases len - i,
    {
        let c: char = s.get_char(i);
        let ghost head = tail.take(i - start + 1);
        proof {
            assert(head.drop_last() =~= tail.take(i - start));
            assert(head.last() == c);
        }
        if !('0' <= c && c <= '9') {
            proof {
                lemma_fault_stays(tail, i - start + 1, max as int);
            }
            return Err(IntFault::Digit);
        }
        let d: u64 = (c as u32 - '0' as u32) as u64;
        if d > max || value > max / 10 || value * 10 > max - d {
            proof {
                assert(value * 10 + d > max);
                lemma_fault_stays(tail, i - start + 1, max as int);
            }
            return Err(IntFault::Overflow);
        }
        value = value * 10 + d;
        i = i + 1;
    }
    proof {
        assert(tail.take(len - start) =~= tail);
    }
    Ok(value)
}

/// A fault found in a prefix is the fault of the whole text.
proof fn lemma_fault_stays(s: Seq<char>, n: int, max: int)
    requires
        0 <= n <= s.len(),
        read_digits(s.take(n), max) is Err,
    ensures
        read_digits(s, max) == read_digits(s.take(n), max),
    decreases s.len(),
{
    if n == s.len() {
        assert(s.take(n) =~= s);
    } else {
        assert(s.drop_last().take(n) =~= s.take(n));
        lemma_fault_stays(s.drop_last(), n, max);
    }
}

/// Reads an unsigned integer of at most `max`, as `str::parse` does for the
/// unsigned types.
pub fn parse_unsigned(s: &str, max: u64) -> (result: Result<u64, IntFault>)
    ensures
        match result {
            Ok(value) => read_unsigned(s@, max as int) == Ok::<int, IntFault>(value as int),
            Err(fault) => read_unsigned(s@, max as int) == Err::<int, IntFault>(fault),
        },
{
    let len: usize = s.unicode_len();
    if len == 0 {
        return Err(IntFault::Empty);
    }
    let first: char = s.get_char(0);
    if len == 1 && (first == '+' || first == '-') {
        return Err(IntFault::Digit);
    }
    if first == '+' {
        read_digits_from(s, 1, max)
    } else {
        proof {
            assert(s@.skip(0) =~= s@);
        }
        read_digits_from(s, 0, max)
    }
}

/// What `IntFault` reads as in a message.
pub open spec fn int_fault_words(fault: IntFault) -> Seq<char> {
    match fault {
        IntFault::Empty => "cannot parse integer from empty string"@,
        IntFault::Digit => "invalid digit found in string"@,
        IntFault::Overflow => "number too large to fit in target type"@,
    }
}

impl IntFault {
    /// The fault in words.
    pub fn words(&self) -> (result: &'static str)
        ensures
            result@ == int_fault_words(*self),
    {
        match self {
            IntFault::Empty => "cannot parse integer from empty string",
            IntFault::Digit => "invalid digit found in string",
            IntFault::Overflow => "number too large to fit in target type",
        }
    }
}

/// Whether `c` is white space.
pub fn is_white(c: char) -> (result: bool)
    ensures
        result == white(c),
{
    ('\u{9}' <= c && c <= '\u{d}') || c == '\u{20}' || c == '\u{85}' || c == '\u{a0}' || c
        == '\u{1680}' || ('\u{2000}' <= c && c <= '\u{200a}') || c == '\u{2028}' || c == '\u{2029}'
        || c == '\u{202f}' || c == '\u{205f}' || c == '\u{3000}'
}

/// Whether nothing but white space stands in `s`.
pub fn is_blank(s: &str) -> (result: bool)
    ensures
        result == blank(s@),
{
    let len: usize = s.unicode_len();
    let mut i: usize = 0;
    while i < len
        invariant
            i <= len,
            len == s@.len(),
            forall|j: int| 0 <= j < i ==> white(#[trigger] s@[j]),
        decreases len - i,
    {
        if !is_white(s.get_char(i)) {
            return false;
        }
        i = i + 1;
    }
    true
}

/// Drops the white space at either end.
pub fn trim_text(s: &str) -> (result: String)
    ensures
        result@ == trimmed(s@),
{
    let len: usize = s.unicode_len();
    let mut from: usize = 0;
    proof {
        assert(s@.skip(0) =~= s@);
    }
    while from < len && is_white(s.get_char(from))
        invariant
            from <= len,
            len == s@.len(),
            trim_start(s@) == trim_start(s@.skip(from as int)),
        decreases len - from,
    {
        proof {
            assert(s@.skip(from as int)[0] == s@[from as int]);
            assert(s@.skip(from as int).skip(1) =~= s@.skip(from + 1));
        }
        from = from + 1;
    }
    let ghost front = s@.skip(from as int);
    proof {
        assert(from < len ==> front[0] == s@[from as int]);
        assert(trim_start(s@) == front);
    }
    let mut to: usize = len;
    proof {
        assert(front.take(front.len() as int) =~= front);
    }
    while from < to && is_white(s.get_char(to - 1))
        invariant
            from <= to <= len,
            len == s@.len(),
            front == s@.skip(from as int),
            trim_end(front) == trim_end(front.take(to - from)),
        decreases to,
    {
        proof {
            let head = front.take(to - from);
            assert(head.last() == s@[to - 1]);
            assert(head.drop_last() =~= front.take(to - from - 1));
        }
        to = to - 1;
    }
    proof {
        let head = front.take(to - from);
        assert(from < to ==> head.last() == s@[to - 1]);
        assert(trim_end(head) == head);
        assert(head =~= s@.subrange(from as int, to as int));
    }
    s.substring_char(from, to).to_owned()
}

/// How many characters stand before the first white space of `s`.
pub open spec fn word_len(s: Seq<char>) -> int
    decreases s.len(),
{
    if s.len() == 0 || white(s[0]) {
        0
    } else {
        1 + word_len(s.skip(1))
    }
}

/// The first word of `s` and what follows it.
pub open spec fn first_word(s: Seq<char>) -> Option<(Seq<char>, Seq<char>)> {
    let t = trim_start(s);
    if t.len() == 0 {
        None
    } else {
        Some((t.take(word_len(t)), t.skip(word_len(t))))
    }
}

/// A word ends at the first white space.
pub proof fn word_ends(s: Seq<char>, i: int)
    requires
        0 <= i <= s.len(),
        forall|j: int| 0 <= j < i ==> !white(#[trigger] s[j]),
        i == s.len() || white(s[i]),
    ensures
        word_len(s) == i,
    decreases i,
{
    if i > 0 {
        assert(!white(s[0]));
        let rest = s.skip(1);
        assert forall|j: int| 0 <= j < i - 1 implies !white(#[trigger] rest[j]) by {
            assert(!white(s[j + 1]));
        }
        word_ends(rest, i - 1);
    }
}

/// Splits the first word off.
pub fn next_word(s: &str) -> (result: Option<(String, String)>)
    ensures
        match result {
            Some(pair) => first_word(s@) == Some((pair.0@, pair.1@)),
            None => first_word(s@) is None,
        },
{
    let len: usize = s.unicode_len();
    let mut from: usize = 0;
    proof {
        assert(s@.skip(0) =~= s@);
    }
    while from < len && is_white(s.get_char(from))
        invariant
            from <= len,
            len == s@.len(),
            trim_start(s@) == trim_start(s@.skip(from as int)),
        decreases len - from,
    {
        proof {
            assert(s@.skip(from as int)[0] == s@[from as int]);
            assert(s@.skip(from as int).skip(1) =~= s@.skip(from + 1));
        }
        from = from + 1;
    }
    let ghost t = s@.skip(from as int);
    proof {
        assert(from < len ==> t[0] == s@[from as int]);
        assert(trim_start(s@) == t);
    }
    if from == len {
        return None;
    }
    let mut to: usize = from;
    while to < len && !is_white(s.get_char(to))
        invariant
            from <= to <= len,
            len == s@.len(),
            t == s@.skip(from as int),
            forall|j: int| 0 <= j < to - from ==> !white(#[trigger] t[j]),
        decreases len - to,
    {
        proof {
            assert(t[to - from] == s@[to as int]);
        }
        to = to + 1;
    }
    proof {
        assert(to < len ==> t[to - from] == s@[to as int]);
        word_ends(t, to - from);
        assert(t.take(to - from) =~= s@.subrange(from as int, to as int));
        assert(t.skip(to - from) =~= s@.subrange(to as int, len as int));
    }
    Some((s.substring_char(from, to).to_owned(), s.substring_char(to, len).to_owned()))
}

/// The text that bytes spell in UTF-8: the standard library's
/// `String::from_utf8`, which fails exactly on bytes that are not UTF-8.
#[verifier::external_body]
pub(crate) fn decode_text(bytes: &[u8]) -> (result: Option<String>)
    ensures
        match result {
            Some(s) => vstd::utf8::valid_utf8(bytes@) && s@ == vstd::utf8::decode_utf8(bytes@),
            None => !vstd::utf8::valid_utf8(bytes@),
        },
{
    String::from_utf8(bytes.to_vec()).ok()
}

/// Whether `s` begins with `prefix`.
pub fn starts_with(s: &str, prefix: &str) -> (result: bool)
    ensures
        result == prefix@.is_prefix_of(s@),
{
    let len: usize = prefix.unicode_len();
    if len > s.unicode_len() {
        return false;
    }
    let head = s.substring_char(0, len);
    same(head, prefix)
}

/// How many characters stand before the first `a` or `b` in `s`: all of them
/// where there is none.
pub open spec fn cut(s: Seq<char>, a: char, b: char) -> int
    decreases s.len(),
{
    if s.len() == 0 || s[0] == a || s[0] == b {
        0
    } else {
        1 + cut(s.skip(1), a, b)
    }
}

/// The first `a` or `b` is the one with none before it.
pub proof fn cut_is_first(s: Seq<char>, a: char, b: char, i: int)
    requires
        0 <= i <= s.len(),
        forall|j: int| 0 <= j < i ==> #[trigger] s[j] != a && s[j] != b,
        i == s.len() || s[i] == a || s[i] == b,
    ensures
        cut(s, a, b) == i,
    decreases i,
{
    if i > 0 {
        assert(s[0] != a && s[0] != b);
        let rest = s.skip(1);
        assert forall|j: int| 0 <= j < i - 1 implies #[trigger] rest[j] != a && rest[j] != b by {
            assert(s[j + 1] != a && s[j + 1] != b);
        }
        cut_is_first(rest, a, b, i - 1);
    }
}

/// Where `a` or `b` first stands in `s`, or its length where neither does.
pub fn find_cut(s: &str, a: char, b: char) -> (result: usize)
    ensures
        result == cut(s@, a, b),
        result <= s@.len(),
        result < s@.len() ==> s@[result as int] == a || s@[result as int] == b,
{
    let len: usize = s.unicode_len();
    let mut i: usize = 0;
    while i < len
        invariant
            i <= len,
            len == s@.len(),
            forall|j: int| 0 <= j < i ==> #[trigger] s@[j] != a && s@[j] != b,
        decreases len - i,
    {
        let c: char = s.get_char(i);
        if c == a || c == b {
            proof {
                cut_is_first(s@, a, b, i as int);
            }
            return i;
        }
        i = i + 1;
    }
    proof {
        cut_is_first(s@, a, b, len as int);
    }
    len
}

/// A number reads back from its decimal notation, wherever it is allowed.
pub proof fn decimal_reads_back(n: nat, max: int)
    requires
        n <= max,
    ensures
        read_unsigned(decimal(n), max) == Ok::<int, IntFault>(n as int),
{
    decimal_is_digits(n);
    lemma_digits_read_back(n, max);
}

/// Decimal notation is one digit or more, and nothing else.
pub proof fn decimal_is_digits(n: nat)
    ensures
        decimal(n).len() > 0,
        forall|i: int| 0 <= i < decimal(n).len() ==> digit(#[trigger] decimal(n)[i]),
    decreases n,
{
    if n >= 10 {
        decimal_is_digits(n / 10);
    }
}

proof fn lemma_digits_read_back(n: nat, max: int)
    requires
        n <= max,
    ensures
        read_digits(decimal(n), max) == Ok::<int, IntFault>(n as int),
    decreases n,
{
    reveal_with_fuel(read_digits, 2);
    if n < 10 {
        assert(decimal(n).drop_last() =~= Seq::<char>::empty());
    } else {
        lemma_digits_read_back(n / 10, max);
        assert(decimal(n).drop_last() =~= decimal(n / 10));
    }
}

/// Different numbers have different decimal notations.
pub proof fn decimal_is_injective(a: nat, b: nat)
    requires
        decimal(a) == decimal(b),
    ensures
        a == b,
{
    let max: int = if a <= b { b as int } else { a as int };
    decimal_reads_back(a, max);
    decimal_reads_back(b, max);
}

/// A number that was read keeps to its bounds.
pub proof fn unsigned_is_bounded(s: Seq<char>, max: int)
    requires
        0 <= max,
    ensures
        read_unsigned(s, max) matches Ok(n) ==> 0 <= n <= max,
{
    lemma_digits_bounded(s, max);
    if s.len() > 0 {
        lemma_digits_bounded(s.skip(1), max);
    }
}

proof fn lemma_digits_bounded(s: Seq<char>, max: int)
    requires
        0 <= max,
    ensures
        read_digits(s, max) matches Ok(n) ==> 0 <= n <= max,
    decreases s.len(),
{
    if s.len() > 0 {
        lemma_digits_bounded(s.drop_last(), max);
    }
}

proof fn lemma_trim_start(s: Seq<char>)
    ensures
        trim_start(s).len() <= s.len(),
        trim_start(s) == s.skip(s.len() - trim_start(s).len()),
        blank(s.take(s.len() - trim_start(s).len())),
        trim_start(s).len() > 0 ==> !white(trim_start(s)[0]),
    decreases s.len(),
{
    if s.len() > 0 && white(s[0]) {
        let rest = s.skip(1);
        lemma_trim_start(rest);
        let n = s.len() - trim_start(s).len();
        assert(s.skip(n) =~= rest.skip(n - 1));
        assert forall|i: int| 0 <= i < n implies white(#[trigger] s.take(n)[i]) by {
            if i > 0 {
                assert(rest.take(n - 1)[i - 1] == s.take(n)[i]);
            }
        }
    } else {
        assert(s.skip(0) =~= s);
    }
}

proof fn lemma_trim_end(s: Seq<char>)
    ensures
        trim_end(s).len() <= s.len(),
        trim_end(s) == s.take(trim_end(s).len() as int),
        blank(s.skip(trim_end(s).len() as int)),
        trim_end(s).len() > 0 ==> !white(trim_end(s).last()),
    decreases s.len(),
{
    let n = trim_end(s).len() as int;
    if s.len() > 0 && white(s.last()) {
        let rest = s.drop_last();
        lemma_trim_end(rest);
        assert(s.take(n) =~= rest.take(n));
        assert forall|i: int| 0 <= i < s.len() - n implies white(#[trigger] s.skip(n)[i]) by {
            if i < rest.len() - n {
                assert(rest.skip(n)[i] == s.skip(n)[i]);
            }
        }
    } else {
        assert(s.take(n) =~= s);
    }
}

/// Trimming takes white space from both ends, all of it and nothing else.
pub proof fn trimming_takes_white_space_only(s: &str, result: String)
    requires
        call_ensures(trim_text, (s,), result),
    ensures
        exists|a: int, b: int|
            {
                &&& 0 <= a <= b <= s@.len()
                &&& result@ == #[trigger] s@.subrange(a, b)
                &&& blank(s@.take(a))
                &&& blank(s@.skip(b))
            },
        result@.len() > 0 ==> !white(result@[0]) && !white(result@.last()),
{
    let front = trim_start(s@);
    lemma_trim_start(s@);
    lemma_trim_end(front);
    let a = s@.len() - front.len();
    let b = a + result@.len();
    assert(s@.subrange(a, b) =~= result@);
    assert(s@.skip(b) =~= front.skip(result@.len() as int));
}

/// The first word is what stands before the next white space. What is left after it
/// goes on where it ends, and there is none exactly if there is white space only.
pub proof fn words_are_split_at_white_space(s: &str, result: Option<(String, String)>)
    requires
        call_ensures(next_word, (s,), result),
    ensures
        result is None <==> blank(s@),
        result matches Some(pair) ==> {
            &&& pair.0@.len() > 0
            &&& forall|i: int| 0 <= i < pair.0@.len() ==> !white(#[trigger] pair.0@[i])
            &&& pair.1@.len() > 0 ==> white(pair.1@[0])
            &&& pair.0@.len() + pair.1@.len() <= s@.len()
            &&& s@.skip(s@.len() - pair.0@.len() - pair.1@.len()) == pair.0@ + pair.1@
            &&& blank(s@.take(s@.len() - pair.0@.len() - pair.1@.len()))
        },
{
    let t = trim_start(s@);
    lemma_trim_start(s@);
    match result {
        None => {
            assert(s@.take(s@.len() as int) =~= s@);
        },
        Some(pair) => {
            lemma_word_len(t);
            assert(t.take(word_len(t)) + t.skip(word_len(t)) =~= t);
            assert(s@[s@.len() - t.len()] == t[0]);
            assert(!blank(s@));
        },
    }
}

proof fn lemma_word_len(s: Seq<char>)
    ensures
        0 <= word_len(s) <= s.len(),
        forall|i: int| 0 <= i < word_len(s) ==> !white(#[trigger] s[i]),
        word_len(s) < s.len() ==> white(s[word_len(s)]),
    decreases s.len(),
{
    if s.len() > 0 && !white(s[0]) {
        let rest = s.skip(1);
        lemma_word_len(rest);
        assert forall|i: int| 0 <= i < word_len(s) implies !white(#[trigger] s[i]) by {
            if i > 0 {
                assert(rest[i - 1] == s[i]);
            }
        }
        if word_len(s) < s.len() {
            assert(rest[word_len(rest)] == s[word_len(s)]);
        }
    }
}

proof fn lemma_zeros_read(s: Seq<char>, max: int)
    requires
        0 <= max,
    ensures
        read_digits(seq!['0'] + s, max) == read_digits(s, max),
    decreases s.len(),
{
    let longer = seq!['0'] + s;
    if s.len() == 0 {
        assert(longer.drop_last().len() == 0);
        assert(longer.last() == '0');
        assert(read_digits(longer.drop_last(), max) == Ok::<int, IntFault>(0));
    } else {
        assert(longer.drop_last() =~= seq!['0'] + s.drop_last());
        assert(longer.last() == s.last());
        lemma_zeros_read(s.drop_last(), max);
    }
}

/// A number in at least three places has that many, and reads as the number.
pub proof fn padded_numbers_read_back(n: nat, max: int)
    requires
        n <= max,
    ensures
        decimal3(n).len() >= 3,
        n < 1000 ==> decimal3(n).len() == 3,
        read_unsigned(decimal3(n), max) == Ok::<int, IntFault>(n as int),
{
    reveal_strlit("00");
    reveal_strlit("0");
    reveal_with_fuel(decimal, 4);
    decimal_is_digits(n);
    lemma_digits_read_back(n, max);
    let s = decimal(n);
    assert(read_digits(s, max) == Ok::<int, IntFault>(n as int));
    lemma_zeros_read(s, max);
    lemma_zeros_read(seq!['0'] + s, max);
    assert("0"@ + s =~= seq!['0'] + s);
    assert("00"@ + s =~= seq!['0'] + (seq!['0'] + s));
    if n >= 100 {
        decimal_reads_back(n, max);
        lemma_three_places(n);
    }
}

proof fn lemma_three_places(n: nat)
    requires
        n >= 100,
    ensures
        decimal(n).len() >= 3,
        n < 1000 ==> decimal(n).len() == 3,
{
    reveal_with_fuel(decimal, 3);
    let m = n / 10;
    decimal_is_digits(m / 10);
    assert(decimal(m).len() == decimal(m / 10).len() + 1);
    assert(decimal(n).len() == decimal(m).len() + 1);
}

} // verus!
