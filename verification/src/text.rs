//! Text primitives: white space, words, decimal numbers, trimming, literal replacement and path
//! joining, each stated over sequences of characters.
use vstd::prelude::*;
use vstd::string::*;
use vstd::utf8::*;

verus! {

/// `String::push` appends one character.
pub assume_specification[ String::push ](s: &mut String, c: char)
    ensures
        final(s)@ == old(s)@.push(c),
;

/// The characters that Unicode gives the `White_Space` property.
pub open spec fn is_space(c: char) -> bool {
    let u = c as u32;
    ||| 0x09 <= u <= 0x0d
    ||| u == 0x20
    ||| u == 0x85
    ||| u == 0xa0
    ||| u == 0x1680
    ||| 0x2000 <= u <= 0x200a
    ||| u == 0x2028
    ||| u == 0x2029
    ||| u == 0x202f
    ||| u == 0x205f
    ||| u == 0x3000
}

/// Tests whether a character is white space.
pub fn space(c: char) -> (r: bool)
    ensures
        r == is_space(c),
{
    let u: u32 = c as u32;
    (0x09 <= u && u <= 0x0d) || u == 0x20 || u == 0x85 || u == 0xa0 || u == 0x1680 || (0x2000 <= u
        && u <= 0x200a) || u == 0x2028 || u == 0x2029 || u == 0x202f || u == 0x205f || u == 0x3000
}

/// The characters of a text, as a vector.
pub fn chars_of(s: &str) -> (r: Vec<char>)
    ensures
        r@ == s@,
{
    let mut out: Vec<char> = Vec::new();
    for c in it: s.chars()
        invariant
            it.seq() == s@,
            out@ == s@.take(it.index()),
    {
        out.push(c);
        assert(s@.take(it.index() + 1) =~= s@.take(it.index()).push(c));
    }
    assert(s@.take(s@.len() as int) =~= s@);
    out
}

/// The text made of the characters `from..to` of a vector.
pub fn text_of(chars: &Vec<char>, from: usize, to: usize) -> (r: String)
    requires
        from <= to <= chars.len(),
    ensures
        r@ == chars@.subrange(from as int, to as int),
{
    let mut out: String = String::new();
    let mut i: usize = from;
    while i < to
        invariant
            from <= i <= to <= chars.len(),
            out@ == chars@.subrange(from as int, i as int),
        decreases to - i,
    {
        out.push(chars[i]);
        i = i + 1;
        assert(chars@.subrange(from as int, i as int) =~= chars@.subrange(
            from as int,
            i - 1,
        ).push(chars@[i - 1]));
    }
    out
}

/// Tests two texts for equality.
pub fn same_text(a: &str, b: &str) -> (r: bool)
    ensures
        r == (a@ == b@),
{
    let x: Vec<char> = chars_of(a);
    let y: Vec<char> = chars_of(b);
    if x.len() != y.len() {
        return false;
    }
    let mut i: usize = 0;
    while i < x.len()
        invariant
            i <= x.len(),
            x.len() == y.len(),
            x@ == a@,
            y@ == b@,
            forall|j: int| 0 <= j < i ==> x@[j] == y@[j],
        decreases x.len() - i,
    {
        if x[i] != y[i] {
            return false;
        }
        i = i + 1;
    }
    assert(a@ =~= b@);
    true
}

// ── Words ────────────────────────────────────────────────────────

/// The first position at or after `i` that holds no white space.
pub open spec fn word_start(s: Seq<char>, i: int) -> int
    decreases s.len() - i,
{
    if 0 <= i < s.len() && is_space(s[i]) {
        word_start(s, i + 1)
    } else {
        i
    }
}

/// The first position at or after `i` that holds white space.
pub open spec fn word_end(s: Seq<char>, i: int) -> int
    decreases s.len() - i,
{
    if 0 <= i < s.len() && !is_space(s[i]) {
        word_end(s, i + 1)
    } else {
        i
    }
}

/// The first word of `s` at or after `i`, if there is one.
pub open spec fn word_at(s: Seq<char>, i: int) -> Option<Seq<char>> {
    let start = word_start(s, i);
    if start < s.len() {
        Some(s.subrange(start, word_end(s, start)))
    } else {
        None
    }
}

/// Finds the first word at or after `i`: its start and its end.
pub fn find_word(s: &Vec<char>, i: usize) -> (r: Option<(usize, usize)>)
    requires
        i <= s.len(),
    ensures
        match r {
            Some((a, b)) => {
                &&& i <= a < b <= s.len()
                &&& a == word_start(s@, i as int)
                &&& b == word_end(s@, a as int)
                &&& word_at(s@, i as int) == Some(s@.subrange(a as int, b as int))
            },
            None => word_at(s@, i as int) is None,
        },
{
    let mut a: usize = i;
    while a < s.len() && space(s[a])
        invariant
            i <= a <= s.len(),
            word_start(s@, a as int) == word_start(s@, i as int),
        decreases s.len() - a,
    {
        a = a + 1;
    }
    if a == s.len() {
        return None;
    }
    let mut b: usize = a;
    while b < s.len() && !space(s[b])
        invariant
            a <= b <= s.len(),
            a < s.len(),
            !is_space(s@[a as int]),
            word_end(s@, b as int) == word_end(s@, a as int),
        decreases s.len() - b,
    {
        b = b + 1;
    }
    Some((a, b))
}

// ── Decimal numbers ──────────────────────────────────────────────

/// The decimal digit of a number below ten.
pub open spec fn digit_char(d: int) -> char {
    (0x30 + d) as char
}

/// Tests for one of the ten decimal digits.
pub open spec fn is_digit(c: char) -> bool {
    0x30 <= c as u32 <= 0x39
}

/// The value of a decimal digit.
pub open spec fn digit_value(c: char) -> nat {
    (c as u32 - 0x30) as nat
}

/// The number that a run of decimal digits writes.
pub open spec fn digits_value(s: Seq<char>) -> nat
    decreases s.len(),
{
    if s.len() == 0 {
        0
    } else {
        10 * digits_value(s.drop_last()) + digit_value(s.last())
    }
}

/// The number that a nonempty run of decimal digits writes, where it is below 2^32.
pub open spec fn unsigned_u32(body: Seq<char>) -> Option<u32> {
    if body.len() > 0 && all_digits(body) && digits_value(body) <= u32::MAX {
        Some(digits_value(body) as u32)
    } else {
        None
    }
}

/// Every character is a decimal digit.
pub open spec fn all_digits(s: Seq<char>) -> bool {
    forall|i: int| 0 <= i < s.len() ==> is_digit(#[trigger] s[i])
}

/// The number that a text writes: decimal digits, at least one, with an optional plus sign before
/// them, whose value is below 2^32.
pub open spec fn parsed_u32(s: Seq<char>) -> Option<u32> {
    if s.len() > 0 && s[0] == '+' {
        unsigned_u32(s.skip(1))
    } else {
        unsigned_u32(s)
    }
}

/// The decimal writing of a number, without leading zeros.
pub open spec fn decimal(n: nat) -> Seq<char>
    decreases n,
{
    if n < 10 {
        seq![digit_char(n as int)]
    } else {
        decimal(n / 10).push(digit_char((n % 10) as int))
    }
}

proof fn lemma_digits_value_grows(s: Seq<char>, k: int)
    requires
        0 <= k <= s.len(),
    ensures
        digits_value(s.take(k)) <= digits_value(s),
    decreases s.len(),
{
    if k == s.len() {
        assert(s.take(k) =~= s);
    } else {
        lemma_digits_value_grows(s.drop_last(), k);
        assert(s.drop_last().take(k) =~= s.take(k));
    }
}

/// Reads the number that the characters `from..to` write.
pub fn parse_u32(s: &Vec<char>, from: usize, to: usize) -> (r: Option<u32>)
    requires
        from <= to <= s.len(),
    ensures
        r == parsed_u32(s@.subrange(from as int, to as int)),
{
    let ghost word = s@.subrange(from as int, to as int);
    let start: usize = if from < to && s[from] == '+' {
        from + 1
    } else {
        from
    };
    let ghost body = s@.subrange(start as int, to as int);
    proof {
        if start == from + 1 {
            assert(word.skip(1) =~= body);
        } else {
            assert(word =~= body);
        }
    }
    if start == to {
        return None;
    }
    let mut value: u32 = 0;
    let mut i: usize = start;
    while i < to
        invariant
            start <= i <= to <= s.len(),
            start < to,
            body == s@.subrange(start as int, to as int),
            word == s@.subrange(from as int, to as int),
            parsed_u32(word) == unsigned_u32(body),
            forall|j: int| 0 <= j < i - start ==> is_digit(#[trigger] body[j]),
            value == digits_value(body.take(i - start)),
        decreases to - i,
    {
        let c: char = s[i];
        let u: u32 = c as u32;
        assert(c == body[i - start]);
        assert(all_digits(body) ==> is_digit(body[i - start]));
        if u < 0x30 || u > 0x39 {
            return None;
        }
        let d: u32 = u - 0x30;
        let wide: u64 = 10 * (value as u64) + d as u64;
        proof {
            assert(body.take(i - start + 1).drop_last() =~= body.take(i - start));
            assert(digits_value(body.take(i - start + 1)) == wide);
            lemma_digits_value_grows(body, i - start + 1);
        }
        if wide > 0xffff_ffff {
            return None;
        }
        value = wide as u32;
        i = i + 1;
    }
    assert(body.take(to - start) =~= body);
    Some(value)
}

/// Writes a number in decimal.
pub fn decimal_text(n: u64) -> (r: String)
    ensures
        r@ == decimal(n as nat),
    decreases n,
{
    let digit: u8 = (n % 10) as u8;
    let mut out: String = if n < 10 {
        String::new()
    } else {
        decimal_text(n / 10)
    };
    out.push((0x30u8 + digit) as char);
    assert(out@ =~= decimal(n as nat));
    out
}

/// A decimal writing is a nonempty run of digits.
pub proof fn decimal_is_digits(n: nat)
    ensures
        decimal(n).len() > 0,
        all_digits(decimal(n)),
        digits_value(decimal(n)) == n,
    decreases n,
{
    if n < 10 {
        let s = decimal(n);
        assert(s.drop_last() =~= Seq::<char>::empty());
        assert(digits_value(s.drop_last()) == 0);
    } else {
        decimal_is_digits(n / 10);
        let s = decimal(n);
        assert(s.drop_last() =~= decimal(n / 10));
    }
}

/// Reading a written number gives the number back.
pub proof fn decimal_reads_back(n: u32)
    ensures
        parsed_u32(decimal(n as nat)) == Some(n),
{
    decimal_is_digits(n as nat);
    assert(is_digit(decimal(n as nat)[0]));
}

/// Different numbers are written differently.
pub proof fn decimal_is_injective(m: nat, n: nat)
    requires
        decimal(m) == decimal(n),
    ensures
        m == n,
{
    decimal_is_digits(m);
    decimal_is_digits(n);
}

// ── Character classes and trimming ───────────────────────────────

/// Whether a character beyond ASCII is alphabetic or numeric, by `char::is_alphanumeric`.
pub uninterp spec fn unicode_alphanumeric(c: char) -> bool;

/// `char::is_alphanumeric`, which depends on the character alone: its Unicode properties
/// `Alphabetic` and the general categories of numbers.
#[verifier::external_body]
fn char_is_alphanumeric(c: char) -> (r: bool)
    ensures
        r == unicode_alphanumeric(c),
{
    c.is_alphanumeric()
}

/// The letters and digits: in ASCII the usual ones, elsewhere those of Unicode.
pub open spec fn is_alphanumeric(c: char) -> bool {
    let u = c as u32;
    if u < 0x80 {
        0x30 <= u <= 0x39 || 0x41 <= u <= 0x5a || 0x61 <= u <= 0x7a
    } else {
        unicode_alphanumeric(c)
    }
}

/// Tests whether a character is a letter or a digit.
pub fn alphanumeric(c: char) -> (r: bool)
    ensures
        r == is_alphanumeric(c),
{
    let u: u32 = c as u32;
    if u < 0x80 {
        (0x30 <= u && u <= 0x39) || (0x41 <= u && u <= 0x5a) || (0x61 <= u && u <= 0x7a)
    } else {
        char_is_alphanumeric(c)
    }
}

/// A set of characters to trim.
#[derive(Debug, Clone, Copy, PartialEq, Eq, Structural)]
pub enum CharClass {
    /// White space.
    Space,
    /// One character.
    Only(char),
}

impl CharClass {
    /// Whether the class holds a character.
    pub open spec fn holds(self, c: char) -> bool {
        match self {
            CharClass::Space => is_space(c),
            CharClass::Only(d) => c == d,
        }
    }

    /// Tests whether the class holds a character.
    pub fn test(self, c: char) -> (r: bool)
        ensures
            r == self.holds(c),
    {
        match self {
            CharClass::Space => space(c),
            CharClass::Only(d) => c == d,
        }
    }
}

/// A text without the characters of a class at its front.
pub open spec fn trim_front(s: Seq<char>, class: CharClass) -> Seq<char>
    decreases s.len(),
{
    if s.len() > 0 && class.holds(s[0]) {
        trim_front(s.skip(1), class)
    } else {
        s
    }
}

/// A text without the characters of a class at its back.
pub open spec fn trim_back(s: Seq<char>, class: CharClass) -> Seq<char>
    decreases s.len(),
{
    if s.len() > 0 && class.holds(s.last()) {
        trim_back(s.drop_last(), class)
    } else {
        s
    }
}

/// A text without the characters of a class at both ends.
pub open spec fn trimmed(s: Seq<char>, class: CharClass) -> Seq<char> {
    trim_back(trim_front(s, class), class)
}

/// Narrows the range `from..to` of a vector by the characters of a class at both ends.
pub fn trim_range(s: &Vec<char>, from: usize, to: usize, class: CharClass) -> (r: (usize, usize))
    requires
        from <= to <= s.len(),
    ensures
        from <= r.0 <= r.1 <= to,
        s@.subrange(r.0 as int, r.1 as int) == trimmed(
            s@.subrange(from as int, to as int),
            class,
        ),
{
    let ghost whole = s@.subrange(from as int, to as int);
    let mut a: usize = from;
    while a < to && class.test(s[a])
        invariant
            from <= a <= to <= s.len(),
            whole == s@.subrange(from as int, to as int),
            trim_front(s@.subrange(a as int, to as int), class) == trim_front(whole, class),
        decreases to - a,
    {
        assert(s@.subrange(a as int, to as int).skip(1) =~= s@.subrange(a + 1, to as int));
        a = a + 1;
    }
    let ghost front = s@.subrange(a as int, to as int);
    assert(front == trim_front(whole, class));
    let mut b: usize = to;
    while a < b && class.test(s[b - 1])
        invariant
            from <= a <= b <= to <= s.len(),
            front == s@.subrange(a as int, to as int),
            trim_back(s@.subrange(a as int, b as int), class) == trim_back(front, class),
        decreases b - a,
    {
        assert(s@.subrange(a as int, b as int).drop_last() =~= s@.subrange(a as int, b - 1));
        b = b - 1;
    }
    (a, b)
}

/// Trimming keeps a part of the text.
pub proof fn trimmed_is_part(s: Seq<char>, class: CharClass)
    ensures
        exists|a: int, b: int|
            0 <= a <= b <= s.len() && trimmed(s, class) == #[trigger] s.subrange(a, b),
{
    lemma_trim_front_is_part(s, class);
    let f = trim_front(s, class);
    let a = choose|a: int| 0 <= a <= s.len() && f == #[trigger] s.skip(a);
    lemma_trim_back_is_part(f, class);
    let n = choose|n: int| 0 <= n <= f.len() && trim_back(f, class) == #[trigger] f.take(n);
    assert(f.take(n) =~= s.subrange(a, a + n));
}

/// A trimmed text neither starts nor ends with a character of the class.
pub proof fn trimmed_at_both_ends(s: Seq<char>, class: CharClass)
    ensures
        trimmed(s, class).len() > 0 ==> !class.holds(trimmed(s, class)[0]) && !class.holds(
            trimmed(s, class).last(),
        ),
{
    let f = trim_front(s, class);
    lemma_trim_front_ends(s, class);
    lemma_trim_back_ends(f, class);
    lemma_trim_back_is_part(f, class);
}

proof fn lemma_trim_front_ends(s: Seq<char>, class: CharClass)
    ensures
        trim_front(s, class).len() > 0 ==> !class.holds(trim_front(s, class)[0]),
    decreases s.len(),
{
    if s.len() > 0 && class.holds(s[0]) {
        lemma_trim_front_ends(s.skip(1), class);
    }
}

proof fn lemma_trim_back_ends(s: Seq<char>, class: CharClass)
    ensures
        trim_back(s, class).len() > 0 ==> !class.holds(trim_back(s, class).last()),
    decreases s.len(),
{
    if s.len() > 0 && class.holds(s.last()) {
        lemma_trim_back_ends(s.drop_last(), class);
    }
}

proof fn lemma_trim_front_is_part(s: Seq<char>, class: CharClass)
    ensures
        exists|a: int| 0 <= a <= s.len() && trim_front(s, class) == #[trigger] s.skip(a),
    decreases s.len(),
{
    if s.len() > 0 && class.holds(s[0]) {
        lemma_trim_front_is_part(s.skip(1), class);
        let a = choose|a: int|
            0 <= a <= s.skip(1).len() && trim_front(s.skip(1), class) == #[trigger] s.skip(1).skip(
                a,
            );
        assert(s.skip(1).skip(a) =~= s.skip(a + 1));
    } else {
        assert(s.skip(0) =~= s);
    }
}

proof fn lemma_trim_back_is_part(s: Seq<char>, class: CharClass)
    ensures
        exists|n: int| 0 <= n <= s.len() && trim_back(s, class) == #[trigger] s.take(n),
    decreases s.len(),
{
    if s.len() > 0 && class.holds(s.last()) {
        lemma_trim_back_is_part(s.drop_last(), class);
        let n = choose|n: int|
            0 <= n <= s.drop_last().len() && trim_back(s.drop_last(), class)
                == #[trigger] s.drop_last().take(n);
        assert(s.drop_last().take(n) =~= s.take(n));
    } else {
        assert(s.take(s.len() as int) =~= s);
    }
}

// ── Cutting by encoded length ────────────────────────────────────

/// The number of bytes that a character takes in UTF-8.
pub open spec fn char_width(c: char) -> nat {
    let u = c as u32;
    if u < 0x80 {
        1
    } else if u < 0x800 {
        2
    } else if u < 0x10000 {
        3
    } else {
        4
    }
}

/// The number of bytes that a text takes in UTF-8.
pub open spec fn byte_len(s: Seq<char>) -> nat
    decreases s.len(),
{
    if s.len() == 0 {
        0
    } else {
        byte_len(s.drop_last()) + char_width(s.last())
    }
}

/// The first `k` characters take `limit` bytes.
pub open spec fn splits_at(s: Seq<char>, k: int, limit: nat) -> bool {
    0 <= k <= s.len() && byte_len(s.take(k)) == limit
}

/// A text cut to `limit` bytes where it takes more, if that cut falls between two characters.
pub open spec fn cut(s: Seq<char>, limit: nat) -> Option<Seq<char>> {
    if byte_len(s) <= limit {
        Some(s)
    } else if exists|k: int| splits_at(s, k, limit) {
        Some(s.take(choose|k: int| splits_at(s, k, limit)))
    } else {
        None
    }
}

/// The length by characters is the length of the encoding.
pub proof fn byte_len_is_encoded_len(s: Seq<char>)
    ensures
        byte_len(s) == encode_utf8(s).len(),
    decreases s.len(),
{
    if s.len() > 0 {
        let c = s.last();
        byte_len_is_encoded_len(s.drop_last());
        lemma_encode_push(s.drop_last(), c);
        assert(s =~= s.drop_last().push(c));
        char_is_scalar(c);
    }
}

proof fn lemma_encode_push(s: Seq<char>, c: char)
    ensures
        encode_utf8(s.push(c)) == encode_utf8(s) + encode_scalar(c as u32),
    decreases s.len(),
{
    if s.len() == 0 {
        assert(s.push(c).drop_first() =~= Seq::<char>::empty());
        assert(encode_utf8(s.push(c).drop_first()) =~= Seq::<u8>::empty());
        assert(encode_utf8(s) =~= Seq::<u8>::empty());
        assert(encode_utf8(s.push(c)) =~= encode_scalar(c as u32));
    } else {
        lemma_encode_push(s.drop_first(), c);
        assert(s.push(c).drop_first() =~= s.drop_first().push(c));
        assert(encode_utf8(s.push(c)) =~= encode_utf8(s) + encode_scalar(c as u32));
    }
}

proof fn lemma_prefix_grows(s: Seq<char>, j: int, k: int)
    requires
        0 <= j <= k <= s.len(),
    ensures
        byte_len(s.take(j)) + (k - j) <= byte_len(s.take(k)),
    decreases k - j,
{
    if j < k {
        lemma_prefix_grows(s, j, k - 1);
        assert(s.take(k).drop_last() =~= s.take(k - 1));
    }
}

/// Finds where the range `from..to` of a vector is to be cut, so that it takes no more than
/// `limit` bytes.
pub fn cut_range(s: &Vec<char>, from: usize, to: usize, limit: usize) -> (r: Option<usize>)
    requires
        from <= to <= s.len(),
        limit <= usize::MAX - 4,
    ensures
        match r {
            Some(end) => {
                &&& from <= end <= to
                &&& cut(s@.subrange(from as int, to as int), limit as nat) == Some(
                    s@.subrange(from as int, end as int),
                )
            },
            None => cut(s@.subrange(from as int, to as int), limit as nat) is None,
        },
{
    let ghost whole = s@.subrange(from as int, to as int);
    let mut total: usize = 0;
    let mut i: usize = from;
    while i < to
        invariant
            from <= i <= to <= s.len(),
            limit <= usize::MAX - 4,
            whole == s@.subrange(from as int, to as int),
            total == byte_len(whole.take(i - from)),
            total <= limit,
        decreases to - i,
    {
        let u: u32 = s[i] as u32;
        let width: usize = if u < 0x80 {
            1
        } else if u < 0x800 {
            2
        } else if u < 0x10000 {
            3
        } else {
            4
        };
        proof {
            let k = i - from;
            assert(whole.take(k + 1).drop_last() =~= whole.take(k));
            assert(whole.take(k + 1).last() == s@[i as int]);
            assert(byte_len(whole.take(k + 1)) == total + width);
            if total + width > limit {
                lemma_prefix_grows(whole, k + 1, whole.len() as int);
                assert(whole.take(whole.len() as int) =~= whole);
                assert forall|m: int| splits_at(whole, m, limit as nat) implies m == k && total
                    == limit by {
                    if m <= k {
                        lemma_prefix_grows(whole, m, k);
                    } else {
                        lemma_prefix_grows(whole, k + 1, m);
                    }
                }
                if total == limit {
                    assert(splits_at(whole, k, limit as nat));
                    assert(whole.take(k) =~= s@.subrange(from as int, i as int));
                }
            }
        }
        if total + width > limit {
            if total == limit {
                return Some(i);
            }
            return None;
        }
        total = total + width;
        i = i + 1;
    }
    assert(whole.take(to - from) =~= whole);
    Some(to)
}

// ── Literal replacement ──────────────────────────────────────────

/// A text with every occurrence of `pat` replaced by `rep`, found from the left and without
/// overlap.
pub open spec fn replaced(s: Seq<char>, pat: Seq<char>, rep: Seq<char>) -> Seq<char>
    recommends
        pat.len() > 0,
    decreases s.len(),
{
    if pat.len() == 0 || s.len() < pat.len() {
        s
    } else if s.take(pat.len() as int) == pat {
        rep + replaced(s.skip(pat.len() as int), pat, rep)
    } else {
        seq![s[0]] + replaced(s.skip(1), pat, rep)
    }
}

/// Replaces every occurrence of `pat` by `rep`.
pub fn replace_all(s: &str, pat: &str, rep: &str) -> (r: String)
    requires
        pat@.len() > 0,
    ensures
        r@ == replaced(s@, pat@, rep@),
{
    let text: Vec<char> = chars_of(s);
    let p: Vec<char> = chars_of(pat);
    let mut out: String = String::new();
    let mut i: usize = 0;
    assert(s@.skip(0) =~= s@);
    while i < text.len() && p.len() <= text.len() - i
        invariant
            text@ == s@,
            p@ == pat@,
            p.len() > 0,
            i <= text.len(),
            out@ + replaced(s@.skip(i as int), pat@, rep@) == replaced(s@, pat@, rep@),
        decreases text.len() - i,
    {
        let mut j: usize = 0;
        while j < p.len() && text[i + j] == p[j]
            invariant
                text@ == s@,
                p@ == pat@,
                i + p.len() <= text.len(),
                j <= p.len(),
                forall|k: int| 0 <= k < j ==> text@[i + k] == p@[k],
            decreases p.len() - j,
        {
            j = j + 1;
        }
        let ghost rest = s@.skip(i as int);
        if j == p.len() {
            proof {
                assert(rest.take(pat@.len() as int) =~= pat@);
                assert(rest.skip(pat@.len() as int) =~= s@.skip(i + p.len()));
                assert(out@ + (rep@ + replaced(s@.skip(i + p.len()), pat@, rep@)) =~= (out@ + rep@)
                    + replaced(s@.skip(i + p.len()), pat@, rep@));
            }
            out.append(rep);
            i = i + p.len();
        } else {
            proof {
                assert(rest.take(pat@.len() as int)[j as int] != pat@[j as int]);
                assert(rest.skip(1) =~= s@.skip(i + 1));
                assert(out@ + (seq![rest[0]] + replaced(s@.skip(i + 1), pat@, rep@)) =~= out@.push(
                    rest[0],
                ) + replaced(s@.skip(i + 1), pat@, rep@));
            }
            out.push(text[i]);
            i = i + 1;
        }
    }
    let tail: String = text_of(&text, i, text.len());
    assert(s@.skip(i as int) =~= tail@);
    out.append(tail.as_str());
    out
}

/// The pattern stands in the text at position `i`.
pub open spec fn occurs_at(s: Seq<char>, pat: Seq<char>, i: int) -> bool {
    0 <= i <= s.len() - pat.len() && s.subrange(i, i + pat.len()) == pat
}

/// Text in which the pattern does not occur stays as it is.
pub proof fn replaced_keeps_other_text(s: Seq<char>, pat: Seq<char>, rep: Seq<char>)
    requires
        pat.len() > 0,
        forall|i: int| !occurs_at(s, pat, i),
    ensures
        replaced(s, pat, rep) == s,
    decreases s.len(),
{
    if s.len() >= pat.len() {
        assert(!occurs_at(s, pat, 0));
        assert(s.subrange(0, pat.len() as int) =~= s.take(pat.len() as int));
        let t = s.skip(1);
        assert forall|i: int| !occurs_at(t, pat, i) by {
            assert(!occurs_at(s, pat, i + 1));
            if 0 <= i <= t.len() - pat.len() {
                assert(t.subrange(i, i + pat.len()) =~= s.subrange(i + 1, i + 1 + pat.len()));
            }
        }
        replaced_keeps_other_text(t, pat, rep);
        assert(seq![s[0]] + t =~= s);
    }
}

/// Where the pattern stands, the replacement stands instead: replacing in `a`, the pattern and `b`
/// put together, with no earlier occurrence, gives `a`, the replacement and what replacing in `b`
/// gives.
pub proof fn replaced_at_occurrence(
    a: Seq<char>,
    b: Seq<char>,
    pat: Seq<char>,
    rep: Seq<char>,
)
    requires
        pat.len() > 0,
        forall|i: int| 0 <= i < a.len() ==> !occurs_at(a + pat + b, pat, i),
    ensures
        replaced(a + pat + b, pat, rep) == a + rep + replaced(b, pat, rep),
    decreases a.len(),
{
    let s = a + pat + b;
    if a.len() == 0 {
        assert(s.take(pat.len() as int) =~= pat);
        assert(s.skip(pat.len() as int) =~= b);
        assert(a + rep + replaced(b, pat, rep) =~= rep + replaced(b, pat, rep));
    } else {
        assert(!occurs_at(s, pat, 0));
        assert(s.subrange(0, pat.len() as int) =~= s.take(pat.len() as int));
        let a1 = a.skip(1);
        let s1 = a1 + pat + b;
        assert(s.skip(1) =~= s1);
        assert forall|i: int| 0 <= i < a1.len() implies !occurs_at(s1, pat, i) by {
            assert(!occurs_at(s, pat, i + 1));
            assert(s1.subrange(i, i + pat.len()) =~= s.subrange(i + 1, i + 1 + pat.len()));
        }
        replaced_at_occurrence(a1, b, pat, rep);
        assert(seq![s[0]] + (a1 + rep + replaced(b, pat, rep)) =~= a + rep + replaced(b, pat, rep));
    }
}

/// Replacing brings in no character but those of the text and of the replacement.
pub proof fn replaced_adds_nothing_else(s: Seq<char>, pat: Seq<char>, rep: Seq<char>, c: char)
    requires
        !s.contains(c),
        !rep.contains(c),
    ensures
        !replaced(s, pat, rep).contains(c),
    decreases s.len(),
{
    let r = replaced(s, pat, rep);
    if pat.len() > 0 && s.len() >= pat.len() {
        let (head, rest) = if s.take(pat.len() as int) == pat {
            (rep, s.skip(pat.len() as int))
        } else {
            (seq![s[0]], s.skip(1))
        };
        assert(!rest.contains(c)) by {
            assert forall|i: int| 0 <= i < rest.len() implies rest[i] != c by {
                assert(s.contains(s[i + s.len() - rest.len()]));
            }
        }
        replaced_adds_nothing_else(rest, pat, rep, c);
        let tail = replaced(rest, pat, rep);
        assert(s.contains(s[0]));
        assert forall|i: int| 0 <= i < r.len() implies r[i] != c by {
            if i < head.len() {
                assert(head.contains(head[i]));
            } else {
                assert(tail.contains(tail[i - head.len()]));
            }
        }
    }
}

// ── Paths ────────────────────────────────────────────────────────

/// A path put under a directory: an absolute path stands alone, another one follows the directory
/// behind one separator.
pub open spec fn joined(dir: Seq<char>, path: Seq<char>) -> Seq<char> {
    if path.len() > 0 && path[0] == '/' {
        path
    } else if dir.len() > 0 && dir.last() != '/' {
        dir.push('/') + path
    } else {
        dir + path
    }
}

/// Puts a path under a directory.
pub fn join_path(dir: &str, path: &str) -> (r: String)
    ensures
        r@ == joined(dir@, path@),
{
    let d: Vec<char> = chars_of(dir);
    let p: Vec<char> = chars_of(path);
    if p.len() > 0 && p[0] == '/' {
        return path.to_owned();
    }
    let mut out: String = dir.to_owned();
    if d.len() > 0 && d[d.len() - 1] != '/' {
        out.push('/');
    }
    out.append(path);
    out
}

/// The separator of paths.
pub const SEPARATOR: u8 = 0x2f;

/// A path put under a directory, both as bytes, which need not be text.
pub open spec fn joined_bytes(dir: Seq<u8>, path: Seq<u8>) -> Seq<u8> {
    if path.len() > 0 && path[0] == SEPARATOR {
        path
    } else if dir.len() > 0 && dir.last() != SEPARATOR {
        dir.push(SEPARATOR) + path
    } else {
        dir + path
    }
}

/// Puts a path under a directory, both as bytes.
pub fn join_bytes(dir: &[u8], path: &[u8]) -> (r: Vec<u8>)
    ensures
        r@ == joined_bytes(dir@, path@),
{
    let mut out: Vec<u8> = Vec::new();
    if path.len() > 0 && path[0] == SEPARATOR {
        out.extend_from_slice(path);
        assert(out@ =~= path@);
        return out;
    }
    out.extend_from_slice(dir);
    assert(out@ =~= dir@);
    if dir.len() > 0 && dir[dir.len() - 1] != SEPARATOR {
        out.push(SEPARATOR);
    }
    out.extend_from_slice(path);
    assert(out@ =~= joined_bytes(dir@, path@));
    out
}

/// A relative path put under a directory stays under it.
pub proof fn joined_stays_under(dir: Seq<char>, path: Seq<char>)
    requires
        !(path.len() > 0 && path[0] == '/'),
    ensures
        joined(dir, path).len() >= dir.len(),
        joined(dir, path).take(dir.len() as int) == dir,
{
    assert(joined(dir, path).take(dir.len() as int) =~= dir);
}

// ── The same, told character by character ────────────────────────

/// White space is what Unicode calls so: tab, line feed, vertical tab, form feed and carriage return,
/// the space and the no-break space, the next-line character, and the spaces and separators beyond
/// Latin.
pub proof fn white_space_in_detail(c: char)
    ensures
        is_space(c) <==> {
            ||| c == '\t' || c == '\n' || c == '\u{b}' || c == '\u{c}' || c == '\r' || c == ' '
            ||| c == '\u{85}' || c == '\u{a0}' || c == '\u{1680}'
            ||| '\u{2000}' <= c <= '\u{200a}'
            ||| c == '\u{2028}' || c == '\u{2029}' || c == '\u{202f}' || c == '\u{205f}'
            ||| c == '\u{3000}'
        },
{
}

/// The letters and digits of ASCII are alphanumeric, and nothing else of ASCII is. Beyond ASCII it is
/// as Unicode has it.
pub proof fn alphanumerics_in_detail(c: char)
    ensures
        '0' <= c <= '9' || 'a' <= c <= 'z' || 'A' <= c <= 'Z' ==> is_alphanumeric(c),
        c <= '\u{7f}' && is_alphanumeric(c) ==> '0' <= c <= '9' || 'a' <= c <= 'z' || 'A' <= c <= 'Z',
        c > '\u{7f}' ==> is_alphanumeric(c) == unicode_alphanumeric(c),
{
}

/// The first word at or after a position starts at the first character there that is no white space,
/// and goes up to the next white space or to the end. There is none if white space is all there is.
pub proof fn words_in_detail(s: Seq<char>, i: int, a: int, b: int)
    requires
        0 <= i <= a <= b <= s.len(),
        forall|j: int| i <= j < a ==> is_space(#[trigger] s[j]),
        forall|j: int| a <= j < b ==> !is_space(#[trigger] s[j]),
        b < s.len() ==> is_space(s[b]),
    ensures
        a < b ==> word_at(s, i) == Some(s.subrange(a, b)) && word_start(s, i) == a && word_end(s, a)
            == b,
        a == b == s.len() ==> word_at(s, i) is None,
    decreases b - i,
{
    if i < a {
        assert(is_space(s[i]));
        words_in_detail(s, i + 1, a, b);
    } else if a < b {
        assert(!is_space(s[a]));
        lemma_word_goes_on(s, a, b);
    }
}

proof fn lemma_word_goes_on(s: Seq<char>, i: int, b: int)
    requires
        0 <= i <= b <= s.len(),
        forall|j: int| i <= j < b ==> !is_space(#[trigger] s[j]),
        b < s.len() ==> is_space(s[b]),
    ensures
        word_end(s, i) == b,
    decreases b - i,
{
    if i < b {
        lemma_word_goes_on(s, i + 1, b);
    }
}

/// A digit behind a number makes it ten times as large, plus the digit, as long as that is below
/// 2^32; any other character behind it makes it no number. A lone digit is a number, nothing is not,
/// and neither is a plus sign alone.
pub proof fn numbers_in_detail(s: Seq<char>, n: u32, c: char)
    ensures
        '0' <= c <= '9' ==> parsed_u32(seq![c]) == Some((c as u32 - '0' as u32) as u32),
        parsed_u32(s) == Some(n) && '0' <= c <= '9' && n * 10 + (c as u32 - '0' as u32) < 0x1_0000_0000
            ==> parsed_u32(s.push(c)) == Some((n * 10 + (c as u32 - '0' as u32)) as u32),
        parsed_u32(s) == Some(n) && '0' <= c <= '9' && n * 10 + (c as u32 - '0' as u32)
            >= 0x1_0000_0000 ==> parsed_u32(s.push(c)) is None,
        s.len() > 0 && !('0' <= c <= '9') ==> parsed_u32(s.push(c)) is None,
        s.len() == 0 ==> parsed_u32(s) is None,
        parsed_u32(seq!['+']) is None,
        s.len() > 0 && s[0] != '+' ==> parsed_u32(seq!['+'] + s) == parsed_u32(s),
{
    let one = seq![c];
    assert(one.drop_last() =~= Seq::empty());
    reveal_with_fuel(digits_value, 2);
    let t = s.push(c);
    if s.len() > 0 {
        assert(t.last() == c);
        assert(t.drop_last() =~= s);
        assert(t.skip(1) =~= s.skip(1).push(c));
        assert(s.skip(1).push(c).drop_last() =~= s.skip(1));
        assert(t[0] == s[0]);
        let plus = s[0] == '+';
        let body = if plus {
            s.skip(1)
        } else {
            s
        };
        let longer = body.push(c);
        assert(longer.drop_last() =~= body);
        assert(longer.last() == c);
        if all_digits(body) && is_digit(c) {
            assert forall|i: int| 0 <= i < longer.len() implies is_digit(#[trigger] longer[i]) by {
                if i < body.len() {
                    assert(is_digit(body[i]));
                }
            }
        }
        if all_digits(longer) {
            assert(is_digit(longer[longer.len() - 1]));
        }
        assert((seq!['+'] + s).skip(1) =~= s);
    }
    assert(seq!['+'].skip(1) =~= Seq::empty());
}

/// What is trimmed off is of the class: the text is what was trimmed off its front, what is left, and
/// what was trimmed off its back.
pub proof fn trimming_takes_the_class_only(s: Seq<char>, class: CharClass) -> (ends: (
    Seq<char>,
    Seq<char>,
))
    ensures
        s == ends.0 + trimmed(s, class) + ends.1,
        forall|i: int| 0 <= i < ends.0.len() ==> class.holds(#[trigger] ends.0[i]),
        forall|i: int| 0 <= i < ends.1.len() ==> class.holds(#[trigger] ends.1[i]),
{
    let f = trim_front(s, class);
    let front = lemma_front_trimmed(s, class);
    let back = lemma_back_trimmed(f, class);
    assert(s =~= front + trimmed(s, class) + back);
    (front, back)
}

proof fn lemma_front_trimmed(s: Seq<char>, class: CharClass) -> (front: Seq<char>)
    ensures
        s == front + trim_front(s, class),
        forall|i: int| 0 <= i < front.len() ==> class.holds(#[trigger] front[i]),
    decreases s.len(),
{
    if s.len() > 0 && class.holds(s[0]) {
        let rest = lemma_front_trimmed(s.skip(1), class);
        let front = seq![s[0]] + rest;
        assert(s =~= seq![s[0]] + s.skip(1));
        assert(s =~= front + trim_front(s, class));
        front
    } else {
        assert(s =~= Seq::empty() + s);
        Seq::empty()
    }
}

proof fn lemma_back_trimmed(s: Seq<char>, class: CharClass) -> (back: Seq<char>)
    ensures
        s == trim_back(s, class) + back,
        forall|i: int| 0 <= i < back.len() ==> class.holds(#[trigger] back[i]),
    decreases s.len(),
{
    if s.len() > 0 && class.holds(s.last()) {
        let rest = lemma_back_trimmed(s.drop_last(), class);
        let back = rest.push(s.last());
        assert(s =~= s.drop_last().push(s.last()));
        assert(s =~= trim_back(s, class) + back);
        back
    } else {
        assert(s =~= s + Seq::empty());
        Seq::empty()
    }
}

/// Trimming white space takes white space, and trimming one character takes that character.
pub proof fn classes_in_detail(c: char, d: char)
    ensures
        CharClass::Space.holds(c) <==> is_space(c),
        CharClass::Only(d).holds(c) <==> c == d,
{
}

/// Characters of the class, a text that neither starts nor ends with one, and characters of the class
/// again are trimmed to the text in the middle.
pub proof fn trimming_leaves_the_middle(
    a: Seq<char>,
    s: Seq<char>,
    b: Seq<char>,
    class: CharClass,
)
    requires
        forall|i: int| 0 <= i < a.len() ==> class.holds(#[trigger] a[i]),
        forall|i: int| 0 <= i < b.len() ==> class.holds(#[trigger] b[i]),
        s.len() > 0 ==> !class.holds(s[0]) && !class.holds(s.last()),
    ensures
        trimmed(a + s + b, class) == s,
{
    lemma_trims_front(a, s + b, class);
    assert(a + s + b =~= a + (s + b));
    if s.len() > 0 {
        assert((s + b)[0] == s[0]);
        assert(trim_front(s + b, class) == s + b);
        lemma_trims_back(s, b, class);
    } else {
        assert(s + b =~= b);
        lemma_trims_front(b, Seq::empty(), class);
        assert(b + Seq::<char>::empty() =~= b);
        assert(s =~= Seq::empty());
    }
}

proof fn lemma_trims_front(a: Seq<char>, s: Seq<char>, class: CharClass)
    requires
        forall|i: int| 0 <= i < a.len() ==> class.holds(#[trigger] a[i]),
    ensures
        trim_front(a + s, class) == trim_front(s, class),
    decreases a.len(),
{
    if a.len() > 0 {
        let rest = a.skip(1);
        assert forall|i: int| 0 <= i < rest.len() implies class.holds(#[trigger] rest[i]) by {
            assert(class.holds(a[i + 1]));
        }
        assert((a + s)[0] == a[0] && class.holds(a[0]));
        assert((a + s).skip(1) =~= rest + s);
        lemma_trims_front(rest, s, class);
    } else {
        assert(a + s =~= s);
    }
}

proof fn lemma_trims_back(s: Seq<char>, b: Seq<char>, class: CharClass)
    requires
        s.len() > 0 && !class.holds(s.last()),
        forall|i: int| 0 <= i < b.len() ==> class.holds(#[trigger] b[i]),
    ensures
        trim_back(s + b, class) == s,
    decreases b.len(),
{
    if b.len() > 0 {
        let rest = b.drop_last();
        assert forall|i: int| 0 <= i < rest.len() implies class.holds(#[trigger] rest[i]) by {
            assert(class.holds(b[i]));
        }
        assert((s + b).last() == b.last() && class.holds(b[b.len() - 1]));
        assert((s + b).drop_last() =~= s + rest);
        lemma_trims_back(s, rest, class);
    } else {
        assert(s + b =~= s);
    }
}

/// A text is cut to a front of it. It stays whole if it takes no more bytes than the limit, as UTF-8
/// counts them; otherwise the front takes exactly as many as the limit, if there is such a front, and
/// there is no cut if there is none.
pub proof fn cuts_in_detail(s: Seq<char>, limit: nat, k: int)
    requires
        0 <= k <= s.len(),
    ensures
        encode_utf8(s).len() <= limit ==> cut(s, limit) == Some(s),
        encode_utf8(s).len() > limit && encode_utf8(s.take(k)).len() == limit ==> cut(s, limit)
            == Some(s.take(k)),
        encode_utf8(s).len() > limit ==> (cut(s, limit) matches Some(t) ==> encode_utf8(t).len()
            == limit && t.len() <= s.len() && s.take(t.len() as int) == t),
{
    byte_len_is_encoded_len(s);
    byte_len_is_encoded_len(s.take(k));
    if byte_len(s) > limit {
        if byte_len(s.take(k)) == limit {
            assert(splits_at(s, k, limit));
            let m = choose|m: int| splits_at(s, m, limit);
            if m < k {
                lemma_prefix_grows(s, m, k);
            }
            if k < m {
                lemma_prefix_grows(s, k, m);
            }
        }
        if let Some(t) = cut(s, limit) {
            byte_len_is_encoded_len(t);
        }
    }
}

/// That a pattern stands at a position means that its characters do, one after the other.
pub proof fn occurrences_in_detail(s: Seq<char>, pat: Seq<char>, i: int)
    ensures
        occurs_at(s, pat, i) <==> 0 <= i && i + pat.len() <= s.len() && (forall|k: int|
            0 <= k < pat.len() ==> s[i + k] == #[trigger] pat[k]),
{
    if 0 <= i && i + pat.len() <= s.len() {
        let part = s.subrange(i, i + pat.len());
        if forall|k: int| 0 <= k < pat.len() ==> s[i + k] == #[trigger] pat[k] {
            assert(part =~= pat);
        }
        if part == pat {
            assert forall|k: int| 0 <= k < pat.len() implies s[i + k] == #[trigger] pat[k] by {
                assert(part[k] == s[i + k]);
            }
        }
    }
}

/// A path that starts with a separator stands alone. Another one comes behind the directory: with one
/// separator between them, unless the directory is empty or ends with one.
pub proof fn paths_in_detail(dir: Seq<char>, path: Seq<char>)
    ensures
        path.len() > 0 && path[0] == '/' ==> joined(dir, path) == path,
        !(path.len() > 0 && path[0] == '/') && dir.len() > 0 && dir.last() != '/' ==> joined(
            dir,
            path,
        ) == dir + seq!['/'] + path,
        !(path.len() > 0 && path[0] == '/') && (dir.len() == 0 || dir.last() == '/') ==> joined(
            dir,
            path,
        ) == dir + path,
{
    assert(dir.push('/') =~= dir + seq!['/']);
}

/// Paths of bytes are joined as those of characters are.
pub proof fn byte_paths_in_detail(dir: Seq<u8>, path: Seq<u8>)
    ensures
        path.len() > 0 && path[0] == 0x2f ==> joined_bytes(dir, path) == path,
        !(path.len() > 0 && path[0] == 0x2f) && dir.len() > 0 && dir.last() != 0x2f
            ==> joined_bytes(dir, path) == dir + seq![0x2fu8] + path,
        !(path.len() > 0 && path[0] == 0x2f) && (dir.len() == 0 || dir.last() == 0x2f)
            ==> joined_bytes(dir, path) == dir + path,
{
    assert(dir.push(0x2f) =~= dir + seq![0x2fu8]);
}

/// A number below ten is written as its digit; any other as the number without its last digit, and
/// that digit.
pub proof fn decimals_in_detail(n: nat)
    ensures
        n < 10 ==> decimal(n) == seq![('0' as u32 + n) as char],
        n >= 10 ==> decimal(n) == decimal(n / 10) + decimal(n % 10),
{
    if n >= 10 {
        assert(decimal(n / 10) + decimal(n % 10) =~= decimal(n / 10).push(
            digit_char((n % 10) as int),
        ));
    }
}

} // verus!
