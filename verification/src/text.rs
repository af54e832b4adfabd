//! Text helpers: comparing words, white space, and decimal numbers.

use vstd::prelude::*;
use vstd::string::*;

verus! {

/// The code point of a character.
pub open spec fn code(c: char) -> int {
    c as u32 as int
}

/// The code point of a character, with the ASCII capitals folded onto
/// their small letters.
pub open spec fn folded(c: char) -> int {
    if 65 <= code(c) <= 90 {
        code(c) + 32
    } else {
        code(c)
    }
}

/// Whether a text is the given word when the case of ASCII letters is
/// set aside. The word is expected in small letters.
pub open spec fn is_word_ignoring_case(s: Seq<char>, word: Seq<char>) -> bool {
    &&& s.len() == word.len()
    &&& forall|i: int| 0 <= i < s.len() ==> folded(#[trigger] s[i]) == code(word[i])
}

/// Whether a character is white space (the Unicode property).
pub open spec fn is_space(c: char) -> bool {
    let v = code(c);
    ||| 9 <= v <= 13
    ||| v == 32
    ||| v == 0x85
    ||| v == 0xA0
    ||| v == 0x1680
    ||| 0x2000 <= v <= 0x200A
    ||| v == 0x2028
    ||| v == 0x2029
    ||| v == 0x202F
    ||| v == 0x205F
    ||| v == 0x3000
}

/// Whether a text holds nothing but white space.
pub open spec fn is_blank(s: Seq<char>) -> bool {
    forall|i: int| 0 <= i < s.len() ==> is_space(#[trigger] s[i])
}

/// The value of a decimal digit, if the character is one.
pub open spec fn digit_value(c: char) -> Option<nat> {
    if 48 <= code(c) <= 57 {
        Some((code(c) - 48) as nat)
    } else {
        None
    }
}

/// The character of a digit below ten.
pub open spec fn digit_char(d: nat) -> char {
    seq!['0', '1', '2', '3', '4', '5', '6', '7', '8', '9'][d as int]
}

/// The decimal numeral of a number, without sign or leading zeros.
pub open spec fn decimal(n: nat) -> Seq<char>
    decreases n,
{
    if n < 10 {
        seq![digit_char(n)]
    } else {
        decimal(n / 10).push(digit_char(n % 10))
    }
}

/// Whether every character of a text is a decimal digit.
pub open spec fn all_digits(s: Seq<char>) -> bool {
    forall|i: int| 0 <= i < s.len() ==> (#[trigger] digit_value(s[i])) is Some
}

/// The number that a text of digits writes, the empty text being zero.
pub open spec fn digits_value(s: Seq<char>) -> nat
    decreases s.len(),
{
    if s.len() == 0 {
        0
    } else {
        digits_value(s.drop_last()) * 10 + digit_value(s.last()).unwrap_or(0)
    }
}

/// A text without the plus sign that may lead it.
pub open spec fn unsigned_part(s: Seq<char>) -> Seq<char> {
    if s.len() > 0 && s[0] == '+' {
        s.subrange(1, s.len() as int)
    } else {
        s
    }
}

/// The number that a text stands for: digits, at least one, after an
/// optional plus sign, and no more than a `usize` holds.
pub open spec fn parsed_usize(s: Seq<char>) -> Option<usize> {
    let body = unsigned_part(s);
    if body.len() > 0 && all_digits(body) && digits_value(body) <= usize::MAX {
        Some(digits_value(body) as usize)
    } else {
        None
    }
}

/// A longer numeral is worth no less than its beginning.
pub proof fn lemma_digits_value_prefix(s: Seq<char>, k: int)
    requires
        0 <= k <= s.len(),
    ensures
        digits_value(s.subrange(0, k)) <= digits_value(s),
    decreases s.len(),
{
    if k == s.len() {
        assert(s.subrange(0, k) =~= s);
    } else {
        lemma_digits_value_prefix(s.drop_last(), k);
        assert(s.drop_last().subrange(0, k) =~= s.subrange(0, k));
    }
}

/// The numeral of a number is made of digits, does not start with a
/// sign, and writes that number.
pub proof fn lemma_decimal_round_trip(n: nat)
    ensures
        decimal(n).len() > 0,
        all_digits(decimal(n)),
        decimal(n)[0] != '+',
        digits_value(decimal(n)) == n,
    decreases n,
{
    assert forall|d: nat| d < 10 implies digit_value(#[trigger] digit_char(d)) == Some(d) by {
        assert(digit_value('0') == Some(0nat));
        assert(digit_value('1') == Some(1nat));
        assert(digit_value('2') == Some(2nat));
        assert(digit_value('3') == Some(3nat));
        assert(digit_value('4') == Some(4nat));
        assert(digit_value('5') == Some(5nat));
        assert(digit_value('6') == Some(6nat));
        assert(digit_value('7') == Some(7nat));
        assert(digit_value('8') == Some(8nat));
        assert(digit_value('9') == Some(9nat));
    }
    let s = decimal(n);
    if n < 10 {
        assert(s =~= seq![digit_char(n)]);
        assert(s.drop_last() =~= Seq::<char>::empty());
        assert(digits_value(s.drop_last()) == 0);
        assert(digit_value(s.last()) == Some(n));
        assert(s[0] != '+');
    } else {
        lemma_decimal_round_trip(n / 10);
        let head = decimal(n / 10);
        assert(s.drop_last() =~= head);
        assert(s.last() == digit_char(n % 10));
        assert(s[0] == head[0]);
        assert forall|i: int| 0 <= i < s.len() implies (#[trigger] digit_value(s[i])) is Some by {
            if i < head.len() {
                assert(s[i] == head[i]);
            }
        }
    }
}

/// Reading back the numeral of a `usize` gives the number.
pub proof fn lemma_parse_decimal(n: usize)
    ensures
        parsed_usize(decimal(n as nat)) == Some(n),
{
    lemma_decimal_round_trip(n as nat);
    assert(unsigned_part(decimal(n as nat)) == decimal(n as nat));
}

/// Whether two texts are the same.
pub fn same_text(a: &str, b: &str) -> (r: bool)
    ensures
        r == (a@ == b@),
{
    let n: usize = a.unicode_len();
    if n != b.unicode_len() {
        return false;
    }
    let mut i: usize = 0;
    while i < n
        invariant
            n == a@.len(),
            n == b@.len(),
            i <= n,
            forall|j: int| 0 <= j < i ==> a@[j] == b@[j],
        decreases n - i,
    {
        if a.get_char(i) != b.get_char(i) {
            return false;
        }
        i += 1;
    }
    assert(a@ =~= b@);
    true
}

/// Whether a text is the given word, whatever the case of its letters.
pub fn matches_word(s: &str, word: &str) -> (r: bool)
    ensures
        r == is_word_ignoring_case(s@, word@),
{
    let n: usize = s.unicode_len();
    if n != word.unicode_len() {
        return false;
    }
    let mut i: usize = 0;
    while i < n
        invariant
            n == s@.len(),
            n == word@.len(),
            i <= n,
            forall|j: int| 0 <= j < i ==> folded(#[trigger] s@[j]) == code(word@[j]),
        decreases n - i,
    {
        let c: u32 = s.get_char(i) as u32;
        let w: u32 = word.get_char(i) as u32;
        let f: u32 = if 65 <= c && c <= 90 {
            c + 32
        } else {
            c
        };
        if f != w {
            return false;
        }
        i += 1;
    }
    true
}

/// Whether a character is white space.
pub fn char_is_space(c: char) -> (r: bool)
    ensures
        r == is_space(c),
{
    let v: u32 = c as u32;
    (9 <= v && v <= 13) || v == 32 || v == 0x85 || v == 0xA0 || v == 0x1680 || (0x2000 <= v && v
        <= 0x200A) || v == 0x2028 || v == 0x2029 || v == 0x202F || v == 0x205F || v == 0x3000
}

/// Whether a text holds nothing but white space.
pub fn text_is_blank(s: &str) -> (r: bool)
    ensures
        r == is_blank(s@),
{
    let n: usize = s.unicode_len();
    let mut i: usize = 0;
    while i < n
        invariant
            n == s@.len(),
            i <= n,
            forall|j: int| 0 <= j < i ==> is_space(#[trigger] s@[j]),
        decreases n - i,
    {
        if !char_is_space(s.get_char(i)) {
            return false;
        }
        i += 1;
    }
    true
}

/// The one-character text of a digit.
fn digit_str(d: usize) -> (r: &'static str)
    requires
        d < 10,
    ensures
        r@ == seq![digit_char(d as nat)],
{
    proof {
        reveal_strlit("0");
        reveal_strlit("1");
        reveal_strlit("2");
        reveal_strlit("3");
        reveal_strlit("4");
        reveal_strlit("5");
        reveal_strlit("6");
        reveal_strlit("7");
        reveal_strlit("8");
        reveal_strlit("9");
    }
    let r = match d {
        0 => "0",
        1 => "1",
        2 => "2",
        3 => "3",
        4 => "4",
        5 => "5",
        6 => "6",
        7 => "7",
        8 => "8",
        _ => "9",
    };
    assert(r@ =~= seq![digit_char(d as nat)]);
    r
}

/// Writes a number as a decimal numeral.
pub fn format_usize(n: usize) -> (r: String)
    ensures
        r@ == decimal(n as nat),
    decreases n,
{
    if n < 10 {
        String::from_str(digit_str(n))
    } else {
        let mut s = format_usize(n / 10);
        s.append(digit_str(n % 10));
        assert(s@ =~= decimal((n / 10) as nat).push(digit_char((n % 10) as nat)));
        s
    }
}

/// Reads a decimal numeral: digits after an optional plus sign. Anything
/// else, and a number that a `usize` cannot hold, gives nothing.
pub fn parse_usize(s: &str) -> (r: Option<usize>)
    ensures
        r == parsed_usize(s@),
{
    let n: usize = s.unicode_len();
    let start: usize = if n > 0 && s.get_char(0) == '+' {
        1
    } else {
        0
    };
    if start == n {
        return None;
    }
    let ghost body = unsigned_part(s@);
    assert(body =~= s@.subrange(start as int, n as int));
    let mut acc: usize = 0;
    let mut i: usize = start;
    while i < n
        invariant
            n == s@.len(),
            start <= i <= n,
            body == unsigned_part(s@),
            body.len() == n - start,
            body.len() > 0,
            all_digits(body.subrange(0, i - start)),
            acc == digits_value(body.subrange(0, i - start)),
        decreases n - i,
    {
        let c: u32 = s.get_char(i) as u32;
        if c < 48 || c > 57 {
            assert(body[i - start] == s@[i as int]);
            assert(digit_value(body[i - start]) is None);
            assert(!all_digits(body));
            return None;
        }
        let d: usize = (c - 48) as usize;
        assert(body[i - start] == s@[i as int]);
        let ghost before = body.subrange(0, i - start);
        let ghost after = body.subrange(0, i + 1 - start);
        proof {
            assert(after.drop_last() =~= before);
            assert(after.last() == body[i - start]);
            assert(digit_value(after.last()) == Some(d as nat));
            assert(digits_value(after) == acc * 10 + d);
            assert forall|j: int| 0 <= j < after.len() implies (#[trigger] digit_value(
                after[j],
            )) is Some by {
                if j < before.len() {
                    assert(after[j] == before[j]);
                }
            }
            lemma_digits_value_prefix(body, i + 1 - start);
        }
        if acc > (usize::MAX - d) / 10 {
            assert(digits_value(after) > usize::MAX) by (nonlinear_arith)
                requires
                    digits_value(after) == acc * 10 + d,
                    acc > (usize::MAX - d) / 10,
                    d <= 9,
            ;
            assert(digits_value(body) > usize::MAX);
            return None;
        }
        assert(acc * 10 + d <= usize::MAX) by (nonlinear_arith)
            requires
                acc <= (usize::MAX - d) / 10,
                d <= 9,
        ;
        acc = acc * 10 + d;
        i += 1;
    }
    assert(body.subrange(0, n - start) =~= body);
    Some(acc)
}


/// The views of a sequence of texts.
pub open spec fn texts(v: Seq<String>) -> Seq<Seq<char>> {
    Seq::new(v.len(), |i: int| v[i]@)
}

/// The first position from `i` on that holds no white space, or the end.
pub open spec fn skip_spaces(s: Seq<char>, i: int) -> int
    decreases s.len() - i,
{
    if 0 <= i < s.len() && is_space(s[i]) {
        skip_spaces(s, i + 1)
    } else {
        i
    }
}

/// The first position from `i` on that holds white space, or the end.
pub open spec fn skip_word(s: Seq<char>, i: int) -> int
    decreases s.len() - i,
{
    if 0 <= i < s.len() && !is_space(s[i]) {
        skip_word(s, i + 1)
    } else {
        i
    }
}

/// The words of a text from position `i` on: the longest stretches
/// without white space, in order.
pub open spec fn words_from(s: Seq<char>, i: int) -> Seq<Seq<char>>
    decreases s.len() - i,
{
    let a = skip_spaces(s, i);
    let b = skip_word(s, a);
    if 0 <= i <= a < b <= s.len() {
        seq![s.subrange(a, b)] + words_from(s, b)
    } else {
        Seq::empty()
    }
}

/// The words of a text.
pub open spec fn words(s: Seq<char>) -> Seq<Seq<char>> {
    words_from(s, 0)
}

/// Splits a text at white space into its words.
pub fn split_words(input: &str) -> (out: Vec<String>)
    ensures
        texts(out@) == words(input@),
{
    let n: usize = input.unicode_len();
    let mut out: Vec<String> = Vec::new();
    let mut i: usize = 0;
    let ghost s = input@;
    assert(texts(out@) + words_from(s, 0) =~= words(s));
    loop
        invariant
            s == input@,
            n == s.len(),
            i <= n,
            texts(out@) + words_from(s, i as int) == words(s),
        decreases n - i,
    {
        let mut a: usize = i;
        while a < n && char_is_space(input.get_char(a))
            invariant
                s == input@,
                n == s.len(),
                i <= a <= n,
                skip_spaces(s, i as int) == skip_spaces(s, a as int),
            decreases n - a,
        {
            a += 1;
        }
        if a >= n {
            assert(words_from(s, i as int) =~= Seq::<Seq<char>>::empty());
            assert(texts(out@) + words_from(s, i as int) =~= texts(out@));
            return out;
        }
        let mut b: usize = a + 1;
        while b < n && !char_is_space(input.get_char(b))
            invariant
                s == input@,
                n == s.len(),
                a < b <= n,
                skip_word(s, a as int) == skip_word(s, b as int),
            decreases n - b,
        {
            b += 1;
        }
        let word = String::from_str(input.substring_char(a, b));
        let ghost before = texts(out@);
        out.push(word);
        proof {
            assert(skip_spaces(s, i as int) == a);
            assert(skip_word(s, a as int) == b);
            assert(words_from(s, i as int) == seq![s.subrange(a as int, b as int)] + words_from(
                s,
                b as int,
            ));
            assert(texts(out@) =~= before + seq![s.subrange(a as int, b as int)]);
            assert(texts(out@) + words_from(s, b as int) =~= before + words_from(s, i as int));
        }
        i = b;
    }
}


/// The end of a text once the white space that trails it, within the
/// first `n` characters, is cut off.
pub open spec fn trim_end_at(s: Seq<char>, n: int) -> int
    decreases n,
{
    if 0 < n <= s.len() && is_space(s[n - 1]) {
        trim_end_at(s, n - 1)
    } else {
        n
    }
}

/// A text without the white space that leads and trails it.
pub open spec fn trimmed(s: Seq<char>) -> Seq<char> {
    let a = skip_spaces(s, 0);
    let b = trim_end_at(s, s.len() as int);
    if 0 <= a < b <= s.len() {
        s.subrange(a, b)
    } else {
        Seq::empty()
    }
}

/// Cuts the white space off both ends of a text.
pub fn trim(input: &str) -> (r: &str)
    ensures
        r@ == trimmed(input@),
{
    let n: usize = input.unicode_len();
    let ghost s = input@;
    let mut a: usize = 0;
    while a < n && char_is_space(input.get_char(a))
        invariant
            s == input@,
            n == s.len(),
            a <= n,
            skip_spaces(s, 0) == skip_spaces(s, a as int),
        decreases n - a,
    {
        a += 1;
    }
    let mut b: usize = n;
    while b > a && char_is_space(input.get_char(b - 1))
        invariant
            s == input@,
            n == s.len(),
            a <= b <= n,
            trim_end_at(s, n as int) == trim_end_at(s, b as int),
        decreases b,
    {
        b -= 1;
    }
    assert(skip_spaces(s, 0) == a);
    if a == b {
        assert(trim_end_at(s, b as int) <= b) by {
            lemma_trim_end_at_bound(s, b as int);
        }
        let r = input.substring_char(a, a);
        assert(r@ =~= Seq::<char>::empty());
        r
    } else {
        assert(trim_end_at(s, b as int) == b);
        input.substring_char(a, b)
    }
}

/// Cutting off trailing white space never lengthens a text.
pub proof fn lemma_trim_end_at_bound(s: Seq<char>, n: int)
    ensures
        trim_end_at(s, n) <= n,
    decreases n,
{
    if 0 < n <= s.len() && is_space(s[n - 1]) {
        lemma_trim_end_at_bound(s, n - 1);
    }
}

/// Calls `String::from_utf8`: the text of the bytes where they are
/// UTF-8, nothing where they are not.
#[verifier::external_body]
pub(crate) fn text_of_bytes(bytes: Vec<u8>) -> (r: Option<String>)
    ensures
        match r {
            Some(text) => vstd::utf8::valid_utf8(bytes@) && text@ == vstd::utf8::decode_utf8(bytes@),
            None => !vstd::utf8::valid_utf8(bytes@),
        },
{
    String::from_utf8(bytes).ok()
}

} // verus!
