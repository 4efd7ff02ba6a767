//! Plain text helpers: white space, numbers, joining and splitting.

use vstd::prelude::*;

verus! {

/// `String::push` appends one character at the end.
pub assume_specification[ String::push ](s: &mut String, c: char)
    ensures
        final(s)@ == old(s)@.push(c),
;

/// The texts of a sequence of strings.
pub open spec fn texts(v: Seq<String>) -> Seq<Seq<char>> {
    v.map_values(|s: String| s@)
}

/// The characters with the Unicode property White_Space.
pub open spec fn is_space(c: char) -> bool {
    ||| '\u{9}' <= c <= '\u{d}'
    ||| c == ' '
    ||| c == '\u{85}'
    ||| c == '\u{a0}'
    ||| c == '\u{1680}'
    ||| '\u{2000}' <= c <= '\u{200a}'
    ||| c == '\u{2028}'
    ||| c == '\u{2029}'
    ||| c == '\u{202f}'
    ||| c == '\u{205f}'
    ||| c == '\u{3000}'
}

/// `s` without the white space at its end.
pub open spec fn without_trailing_space(s: Seq<char>) -> Seq<char>
    decreases s.len(),
{
    if s.len() > 0 && is_space(s.last()) {
        without_trailing_space(s.drop_last())
    } else {
        s
    }
}

/// `s` without the white space at its start.
pub open spec fn without_leading_space(s: Seq<char>) -> Seq<char>
    decreases s.len(),
{
    if s.len() > 0 && is_space(s[0]) {
        without_leading_space(s.drop_first())
    } else {
        s
    }
}

/// `s` without the white space at both ends.
pub open spec fn trimmed(s: Seq<char>) -> Seq<char> {
    without_trailing_space(without_leading_space(s))
}

/// Whether `s` holds nothing but white space.
pub open spec fn blank(s: Seq<char>) -> bool {
    forall|i: int| 0 <= i < s.len() ==> is_space(#[trigger] s[i])
}

/// Whether `c` is white space.
pub fn is_whitespace(c: char) -> (space: bool)
    ensures
        space == is_space(c),
{
    ('\u{9}' <= c && c <= '\u{d}') || c == ' ' || c == '\u{85}' || c == '\u{a0}' || c == '\u{1680}'
        || ('\u{2000}' <= c && c <= '\u{200a}') || c == '\u{2028}' || c == '\u{2029}' || c
        == '\u{202f}' || c == '\u{205f}' || c == '\u{3000}'
}

/// The characters of `s`.
pub fn chars_of(s: &str) -> (chars: Vec<char>)
    ensures
        chars@ == s@,
{
    let mut chars: Vec<char> = Vec::new();
    for c in iter: s.chars()
        invariant
            chars@ == s@.take(iter.index()),
            iter.seq() == s@,
    {
        chars.push(c);
    }
    chars
}

/// The string that holds `chars`.
pub fn string_of(chars: &[char]) -> (s: String)
    ensures
        s@ == chars@,
{
    let mut s = String::new();
    for i in 0..chars.len()
        invariant
            s@ == chars@.take(i as int),
    {
        s.push(chars[i]);
    }
    s
}

/// Whether `s` holds nothing but white space.
pub fn is_blank(s: &str) -> (b: bool)
    ensures
        b == blank(s@),
{
    for c in iter: s.chars()
        invariant
            iter.seq() == s@,
            forall|i: int| 0 <= i < iter.index() ==> is_space(#[trigger] s@[i]),
    {
        if !is_whitespace(c) {
            assert(!is_space(s@[iter.index()]));
            return false;
        }
    }
    true
}

proof fn lemma_trailing_cut(s: Seq<char>, end: int)
    requires
        0 <= end <= s.len(),
        end > 0 ==> !is_space(s[end - 1]),
        forall|i: int| end <= i < s.len() ==> is_space(#[trigger] s[i]),
    ensures
        without_trailing_space(s) == s.take(end),
    decreases s.len(),
{
    if s.len() > end {
        lemma_trailing_cut(s.drop_last(), end);
        assert(s.drop_last().take(end) == s.take(end));
    } else {
        assert(s.take(end) == s);
    }
}

proof fn lemma_leading_cut(s: Seq<char>, start: int)
    requires
        0 <= start <= s.len(),
        start < s.len() ==> !is_space(s[start]),
        forall|i: int| 0 <= i < start ==> is_space(#[trigger] s[i]),
    ensures
        without_leading_space(s) == s.skip(start),
    decreases s.len(),
{
    if start > 0 {
        let rest = s.drop_first();
        assert forall|i: int| 0 <= i < start - 1 implies is_space(#[trigger] rest[i]) by {
            assert(is_space(s[i + 1]));
        }
        lemma_leading_cut(rest, start - 1);
        assert(rest.skip(start - 1) == s.skip(start));
    } else {
        assert(s.skip(0) == s);
    }
}

/// `s` without the white space at its end.
pub fn trim_end(s: &str) -> (t: String)
    ensures
        t@ == without_trailing_space(s@),
{
    let mut chars = chars_of(s);
    while chars.len() > 0 && is_whitespace(chars[chars.len() - 1])
        invariant
            without_trailing_space(chars@) == without_trailing_space(s@),
        decreases chars.len(),
    {
        let _ = chars.pop();
    }
    string_of(chars.as_slice())
}

/// `s` without the white space at both ends.
pub fn trim(s: &str) -> (t: String)
    ensures
        t@ == trimmed(s@),
{
    let chars = chars_of(s);
    let mut start: usize = 0;
    while start < chars.len() && is_whitespace(chars[start])
        invariant
            start <= chars.len(),
            forall|i: int| 0 <= i < start ==> is_space(#[trigger] chars@[i]),
        decreases chars.len() - start,
    {
        start += 1;
    }
    proof {
        lemma_leading_cut(chars@, start as int);
    }
    let mut end: usize = chars.len();
    while end > start && is_whitespace(chars[end - 1])
        invariant
            start <= end <= chars.len(),
            forall|i: int| end <= i < chars.len() ==> is_space(#[trigger] chars@[i]),
        decreases end,
    {
        end -= 1;
    }
    proof {
        let rest = chars@.skip(start as int);
        assert forall|i: int| end - start <= i < rest.len() implies is_space(#[trigger] rest[i]) by {
            assert(is_space(chars@[i + start]));
        }
        lemma_trailing_cut(rest, end - start);
        assert(rest.take(end - start) == chars@.subrange(start as int, end as int));
    }
    string_of(vstd::slice::slice_subrange(chars.as_slice(), start, end))
}

/// The digit for `d`.
pub open spec fn digit(d: nat) -> char {
    (48 + d) as char
}

/// `n` in decimal.
pub open spec fn dec(n: nat) -> Seq<char>
    decreases n,
{
    if n < 10 {
        seq![digit(n)]
    } else {
        dec(n / 10).push(digit(n % 10))
    }
}

/// `n` in decimal, with a sign where it is negative.
pub open spec fn signed_dec(n: int) -> Seq<char> {
    if n < 0 {
        seq!['-'] + dec((-n) as nat)
    } else {
        dec(n as nat)
    }
}

/// `n` in decimal.
pub fn decimal(n: u64) -> (s: String)
    ensures
        s@ == dec(n as nat),
    decreases n,
{
    let mut s = if n < 10 {
        String::new()
    } else {
        decimal(n / 10)
    };
    let d: u8 = 48 + (n % 10) as u8;
    s.push(d as char);
    s
}

/// `n` in decimal, with a sign where it is negative.
pub fn signed_decimal(n: i32) -> (s: String)
    ensures
        s@ == signed_dec(n as int),
{
    if n < 0 {
        let mut s = String::new();
        s.push('-');
        let magnitude: u64 = (-(n as i64)) as u64;
        s.append(decimal(magnitude).as_str());
        assert(s@ == signed_dec(n as int));
        s
    } else {
        decimal(n as u64)
    }
}

/// The parts with `sep` between each two of them.
pub open spec fn joined(parts: Seq<Seq<char>>, sep: Seq<char>) -> Seq<char>
    decreases parts.len(),
{
    if parts.len() == 0 {
        seq![]
    } else if parts.len() == 1 {
        parts[0]
    } else {
        joined(parts.drop_last(), sep) + sep + parts.last()
    }
}

/// The parts with `sep` between each two of them.
pub fn join(parts: &Vec<String>, sep: &str) -> (s: String)
    ensures
        s@ == joined(texts(parts@), sep@),
{
    let mut s = String::new();
    for i in 0..parts.len()
        invariant
            s@ == joined(texts(parts@).take(i as int), sep@),
    {
        proof {
            assert(texts(parts@).take(i + 1).drop_last() == texts(parts@).take(i as int));
        }
        if i > 0 {
            s.append(sep);
        }
        s.append(parts[i].as_str());
    }
    assert(texts(parts@).take(parts.len() as int) == texts(parts@));
    s
}

/// The pieces of `s` between the separators: always one more than there are separators.
pub open spec fn split_at_char(s: Seq<char>, sep: char) -> Seq<Seq<char>>
    decreases s.len(),
{
    if s.len() == 0 {
        seq![seq![]]
    } else {
        let pieces = split_at_char(s.drop_last(), sep);
        if s.last() == sep {
            pieces.push(seq![])
        } else {
            pieces.drop_last().push(pieces.last().push(s.last()))
        }
    }
}

proof fn lemma_split_nonempty(s: Seq<char>, sep: char)
    ensures
        split_at_char(s, sep).len() > 0,
    decreases s.len(),
{
    if s.len() > 0 {
        lemma_split_nonempty(s.drop_last(), sep);
    }
}

/// The pieces of `s` between the separators.
pub fn split(s: &str, sep: char) -> (pieces: Vec<String>)
    ensures
        texts(pieces@) == split_at_char(s@, sep),
        pieces@.len() > 0,
{
    let mut pieces: Vec<String> = Vec::new();
    let mut piece = String::new();
    for c in iter: s.chars()
        invariant
            iter.seq() == s@,
            texts(pieces@).push(piece@) == split_at_char(s@.take(iter.index()), sep),
    {
        let ghost before = split_at_char(s@.take(iter.index()), sep);
        proof {
            assert(s@.take(iter.index() + 1).drop_last() == s@.take(iter.index()));
            assert(before.drop_last() == texts(pieces@));
            assert(before.last() == piece@);
        }
        if c == sep {
            let ghost old_pieces = pieces@;
            pieces.push(piece);
            piece = String::new();
            proof {
                assert(texts(pieces@) == texts(old_pieces).push(before.last()));
            }
        } else {
            piece.push(c);
        }
    }
    assert(s@.take(s@.len() as int) == s@);
    let ghost old_pieces = pieces@;
    let ghost last = piece@;
    pieces.push(piece);
    assert(texts(pieces@) == texts(old_pieces).push(last));
    pieces
}

/// Whether `c` is a decimal digit.
pub open spec fn is_digit(c: char) -> bool {
    '0' <= c <= '9'
}

/// Whether `s` holds decimal digits only.
pub open spec fn all_digits(s: Seq<char>) -> bool {
    forall|i: int| 0 <= i < s.len() ==> is_digit(#[trigger] s[i])
}

/// The number that the digits `s` write.
pub open spec fn value(s: Seq<char>) -> nat
    decreases s.len(),
{
    if s.len() == 0 {
        0
    } else {
        value(s.drop_last()) * 10 + (s.last() as nat - 48) as nat
    }
}

/// The number below 1000 that `s` is the decimal form of, if it is one: digits only, with no zero
/// in front.
pub open spec fn small_number(s: Seq<char>) -> Option<nat> {
    if 1 <= s.len() <= 3 && all_digits(s) && (s.len() == 1 || s[0] != '0') {
        Some(value(s))
    } else {
        None
    }
}

/// The byte that `s` writes: an optional plus sign and digits, of a value below 256.
pub open spec fn byte_value(s: Seq<char>) -> Option<u8> {
    let digits = if s.len() > 0 && s[0] == '+' {
        s.skip(1)
    } else {
        s
    };
    if digits.len() > 0 && all_digits(digits) && value(digits) <= 255 {
        Some(value(digits) as u8)
    } else {
        None
    }
}

proof fn lemma_value_grows(s: Seq<char>, n: int)
    requires
        0 <= n <= s.len(),
        all_digits(s),
    ensures
        value(s.take(n)) <= value(s),
    decreases s.len() - n,
{
    if n < s.len() {
        assert(s.take(n + 1).drop_last() == s.take(n));
        assert(is_digit(s[n]));
        lemma_value_grows(s, n + 1);
    } else {
        assert(s.take(n) == s);
    }
}

/// The number that `digits` write where it is at most `max`; `None` where it is more, or where
/// something else than a digit occurs.
fn bounded_value(digits: &[char], max: u32) -> (n: Option<u32>)
    requires
        max <= 0xffff,
    ensures
        n == (if all_digits(digits@) && value(digits@) <= max {
            Some(value(digits@) as u32)
        } else {
            None
        }),
{
    let mut n: u32 = 0;
    for i in 0..digits.len()
        invariant
            max <= 0xffff,
            all_digits(digits@.take(i as int)),
            n == value(digits@.take(i as int)),
            n <= max,
    {
        let c = digits[i];
        proof {
            assert(digits@.take(i + 1).drop_last() == digits@.take(i as int));
        }
        if c < '0' || c > '9' {
            assert(!is_digit(digits@[i as int]));
            return None;
        }
        n = n * 10 + (c as u32 - 48);
        assert(n == value(digits@.take(i + 1)));
        if n > max {
            proof {
                if all_digits(digits@) {
                    lemma_value_grows(digits@, i + 1);
                }
            }
            return None;
        }
        assert forall|j: int| 0 <= j < i + 1 implies is_digit(
            #[trigger] digits@.take(i + 1)[j],
        ) by {
            if j < i {
                assert(is_digit(digits@.take(i as int)[j]));
            }
        }
    }
    assert(digits@.take(digits.len() as int) == digits@);
    Some(n)
}

proof fn lemma_three_digits(s: Seq<char>)
    requires
        s.len() <= 3,
        all_digits(s),
    ensures
        value(s) <= 999,
{
    reveal_with_fuel(value, 4);
    if s.len() > 0 {
        assert(is_digit(s[s.len() - 1]));
    }
    if s.len() > 1 {
        assert(is_digit(s[s.len() - 2]));
    }
    if s.len() > 2 {
        assert(is_digit(s[s.len() - 3]));
    }
}

/// The number below 1000 that `s` is the decimal form of.
pub fn parse_small(s: &str) -> (n: Option<u32>)
    ensures
        n is Some == small_number(s@) is Some,
        n matches Some(v) ==> v as nat == small_number(s@)->0 && v <= 999,
{
    let chars = chars_of(s);
    if chars.len() == 0 || chars.len() > 3 || (chars.len() > 1 && chars[0] == '0') {
        return None;
    }
    proof {
        if all_digits(s@) {
            lemma_three_digits(s@);
        }
    }
    bounded_value(chars.as_slice(), 999)
}

/// The byte that `s` writes: an optional plus sign and digits.
pub fn parse_byte(s: &str) -> (n: Option<u8>)
    ensures
        n == byte_value(s@),
{
    let chars = chars_of(s);
    let start: usize = if chars.len() > 0 && chars[0] == '+' {
        1
    } else {
        0
    };
    let digits = vstd::slice::slice_subrange(chars.as_slice(), start, chars.len());
    proof {
        assert(s@.skip(0) == s@);
        assert(digits@ == s@.skip(start as int));
    }
    if digits.len() == 0 {
        return None;
    }
    match bounded_value(digits, 255) {
        Some(n) => Some(n as u8),
        None => None,
    }
}

/// Trimming a blank text leaves nothing.
pub proof fn lemma_trim_blank(s: Seq<char>)
    requires
        blank(s),
    ensures
        trimmed(s) == Seq::<char>::empty(),
        without_leading_space(s) == Seq::<char>::empty(),
        without_trailing_space(s) == Seq::<char>::empty(),
{
    lemma_leading_cut(s, s.len() as int);
    lemma_trailing_cut(s, 0);
    assert(s.skip(s.len() as int) == Seq::<char>::empty());
    assert(s.take(0) == Seq::<char>::empty());
    assert(without_trailing_space(Seq::<char>::empty()) == Seq::<char>::empty());
}

proof fn lemma_trailing_blank(s: Seq<char>, t: Seq<char>)
    requires
        blank(t),
    ensures
        without_trailing_space(s + t) == without_trailing_space(s),
    decreases t.len(),
{
    if t.len() > 0 {
        let shorter = t.drop_last();
        assert forall|i: int| 0 <= i < shorter.len() implies is_space(#[trigger] shorter[i]) by {
            assert(is_space(t[i]));
        }
        lemma_trailing_blank(s, shorter);
        assert((s + t).drop_last() == s + shorter);
        assert((s + t).last() == t[t.len() - 1]);
    } else {
        assert(s + t == s);
    }
}

proof fn lemma_leading_append(s: Seq<char>, t: Seq<char>)
    requires
        !blank(s),
    ensures
        without_leading_space(s + t) == without_leading_space(s) + t,
    decreases s.len(),
{
    if s.len() > 0 && is_space(s[0]) {
        let rest = s.drop_first();
        if blank(rest) {
            assert forall|i: int| 0 <= i < s.len() implies is_space(#[trigger] s[i]) by {
                if i > 0 {
                    assert(is_space(rest[i - 1]));
                }
            }
        }
        lemma_leading_append(rest, t);
        assert((s + t).drop_first() == rest + t);
    } else {
        assert(s.len() > 0);
    }
}

/// White space after a text does not change what trimming leaves of it.
pub proof fn lemma_trim_ignores_end(s: Seq<char>, t: Seq<char>)
    requires
        blank(t),
    ensures
        trimmed(s + t) == trimmed(s),
{
    if blank(s) {
        assert forall|i: int| 0 <= i < (s + t).len() implies is_space(#[trigger] (s + t)[i]) by {
            if i < s.len() {
                assert(is_space(s[i]));
            } else {
                assert(is_space(t[i - s.len()]));
            }
        }
        lemma_trim_blank(s);
        lemma_trim_blank(s + t);
    } else {
        lemma_leading_append(s, t);
        lemma_trailing_blank(without_leading_space(s), t);
    }
}

/// Trimming leaves something of a text that is not blank.
pub proof fn lemma_trim_nonblank(s: Seq<char>)
    ensures
        trimmed(s).len() == 0 <==> blank(s),
{
    if blank(s) {
        lemma_trim_blank(s);
    } else {
        lemma_leading_kept(s);
        lemma_trailing_kept(without_leading_space(s));
    }
}

proof fn lemma_leading_kept(s: Seq<char>)
    requires
        !blank(s),
    ensures
        !blank(without_leading_space(s)),
    decreases s.len(),
{
    if s.len() > 0 && is_space(s[0]) {
        let rest = s.drop_first();
        if blank(rest) {
            assert forall|i: int| 0 <= i < s.len() implies is_space(#[trigger] s[i]) by {
                if i > 0 {
                    assert(is_space(rest[i - 1]));
                }
            }
        }
        lemma_leading_kept(rest);
    }
}

proof fn lemma_trailing_kept(s: Seq<char>)
    requires
        !blank(s),
    ensures
        without_trailing_space(s).len() > 0,
    decreases s.len(),
{
    if s.len() > 0 && is_space(s.last()) {
        let front = s.drop_last();
        if blank(front) {
            assert forall|i: int| 0 <= i < s.len() implies is_space(#[trigger] s[i]) by {
                if i < s.len() - 1 {
                    assert(is_space(front[i]));
                }
            }
        }
        lemma_trailing_kept(front);
    }
}

/// A number in decimal is made of digits.
pub proof fn lemma_dec_digits(n: nat)
    ensures
        all_digits(dec(n)),
        dec(n).len() > 0,
    decreases n,
{
    if n >= 10 {
        lemma_dec_digits(n / 10);
        let front = dec(n / 10);
        assert forall|i: int| 0 <= i < dec(n).len() implies is_digit(#[trigger] dec(n)[i]) by {
            if i < front.len() {
                assert(is_digit(front[i]));
            }
        }
    }
}

/// A number in decimal is read back as it was.
pub proof fn lemma_dec_value(n: nat)
    ensures
        value(dec(n)) == n,
    decreases n,
{
    if n < 10 {
        assert(dec(n).drop_last() == Seq::<char>::empty());
        assert(value(Seq::<char>::empty()) == 0);
    } else {
        lemma_dec_value(n / 10);
        assert(dec(n).drop_last() == dec(n / 10));
    }
}

proof fn lemma_dec_start(n: nat)
    requires
        n > 0,
    ensures
        dec(n)[0] != '0',
    decreases n,
{
    if n >= 10 {
        lemma_dec_start(n / 10);
        lemma_dec_digits(n / 10);
    }
}

/// A number below 1000 in decimal is read back as it was.
pub proof fn lemma_small_dec(n: nat)
    requires
        n < 1000,
    ensures
        dec(n).len() > 0,
        small_number(dec(n)) == Some(n),
{
    lemma_dec_digits(n);
    lemma_dec_value(n);
    reveal_with_fuel(dec, 3);
    if n > 0 {
        lemma_dec_start(n);
    }
}

/// A byte in decimal is read back as it was.
pub proof fn lemma_byte_dec(n: u8)
    ensures
        byte_value(dec(n as nat)) == Some(n),
{
    lemma_dec_digits(n as nat);
    lemma_dec_value(n as nat);
    assert(is_digit(dec(n as nat)[0]));
}

proof fn lemma_split_plain(s: Seq<char>, sep: char)
    requires
        !s.contains(sep),
    ensures
        split_at_char(s, sep) == seq![s],
    decreases s.len(),
{
    if s.len() > 0 {
        let front = s.drop_last();
        assert forall|i: int| 0 <= i < front.len() implies front[i] != sep by {
            assert(s.contains(s[i]));
        }
        lemma_split_plain(front, sep);
        assert(s.contains(s.last()));
        assert(front.push(s.last()) == s);
    } else {
        assert(s == Seq::<char>::empty());
    }
}

proof fn lemma_split_append(s: Seq<char>, t: Seq<char>, sep: char)
    requires
        !t.contains(sep),
    ensures
        split_at_char(s + seq![sep] + t, sep) == split_at_char(s, sep).push(t),
    decreases t.len(),
{
    let all = s + seq![sep] + t;
    if t.len() == 0 {
        assert(all.drop_last() == s);
        assert(t == Seq::<char>::empty());
    } else {
        let front = t.drop_last();
        assert forall|i: int| 0 <= i < front.len() implies front[i] != sep by {
            assert(t.contains(t[i]));
        }
        lemma_split_append(s, front, sep);
        assert(all.drop_last() == s + seq![sep] + front);
        assert(t.contains(t.last()));
        assert(front.push(t.last()) == t);
    }
}

/// Splitting undoes joining, where the separator occurs in no part.
pub proof fn lemma_split_joined(parts: Seq<Seq<char>>, sep: char)
    requires
        parts.len() > 0,
        forall|i: int| 0 <= i < parts.len() ==> !(#[trigger] parts[i]).contains(sep),
    ensures
        split_at_char(joined(parts, seq![sep]), sep) == parts,
    decreases parts.len(),
{
    if parts.len() == 1 {
        lemma_split_plain(parts[0], sep);
    } else {
        let front = parts.drop_last();
        assert forall|i: int| 0 <= i < front.len() implies !(#[trigger] front[i]).contains(sep) by {
            assert(!parts[i].contains(sep));
        }
        lemma_split_joined(front, sep);
        assert(!parts[parts.len() - 1].contains(sep));
        lemma_split_append(joined(front, seq![sep]), parts.last(), sep);
        assert(front.push(parts.last()) == parts);
    }
}

// Laws.

/// White space is what Unicode counts as such: twenty-five characters, by their numbers.
pub proof fn law_white_space(c: char)
    ensures
        is_space(c) <==> {
            let n = c as u32;
            ||| 9 <= n <= 13
            ||| n == 32
            ||| n == 133
            ||| n == 160
            ||| n == 5760
            ||| 8192 <= n <= 8202
            ||| n == 8232
            ||| n == 8233
            ||| n == 8239
            ||| n == 8287
            ||| n == 12288
        },
{
}

/// Cutting the white space at the end leaves the start of the text, up to its last character that
/// is not white space.
pub proof fn law_trailing_space_is_cut(s: Seq<char>)
    ensures
        ({
            let kept = without_trailing_space(s);
            &&& kept.len() <= s.len()
            &&& kept == s.take(kept.len() as int)
            &&& kept.len() > 0 ==> !is_space(kept.last())
            &&& forall|i: int| kept.len() <= i < s.len() ==> is_space(#[trigger] s[i])
        }),
    decreases s.len(),
{
    if s.len() > 0 && is_space(s.last()) {
        let front = s.drop_last();
        law_trailing_space_is_cut(front);
        let kept = without_trailing_space(s);
        assert(front.take(kept.len() as int) == s.take(kept.len() as int));
        assert forall|i: int| kept.len() <= i < s.len() implies is_space(#[trigger] s[i]) by {
            if i < front.len() {
                assert(front[i] == s[i]);
            }
        }
    } else {
        assert(s.take(s.len() as int) == s);
    }
}

/// Cutting the white space at the start leaves the end of the text, from its first character that
/// is not white space on.
pub proof fn law_leading_space_is_cut(s: Seq<char>)
    ensures
        ({
            let kept = without_leading_space(s);
            let start = s.len() - kept.len();
            &&& 0 <= start
            &&& kept == s.skip(start)
            &&& kept.len() > 0 ==> !is_space(kept[0])
            &&& forall|i: int| 0 <= i < start ==> is_space(#[trigger] s[i])
        }),
    decreases s.len(),
{
    if s.len() > 0 && is_space(s[0]) {
        let rest = s.drop_first();
        law_leading_space_is_cut(rest);
        let start = s.len() - without_leading_space(s).len();
        assert(rest.skip(start - 1) == s.skip(start));
        assert forall|i: int| 0 <= i < start implies is_space(#[trigger] s[i]) by {
            if i > 0 {
                assert(rest[i - 1] == s[i]);
            }
        }
    } else {
        assert(s.skip(0) == s);
    }
}

/// Trimming leaves a part of the text that neither begins nor ends with white space, and nothing
/// but white space is cut off.
pub proof fn law_trimming(s: Seq<char>)
    ensures
        ({
            let kept = trimmed(s);
            &&& kept.len() > 0 ==> !is_space(kept[0]) && !is_space(kept.last())
            &&& exists|start: int|
                0 <= start && start + kept.len() <= s.len() && #[trigger] s.subrange(
                    start,
                    start + kept.len(),
                ) == kept && blank(s.take(start)) && blank(s.skip(start + kept.len()))
        }),
{
    law_leading_space_is_cut(s);
    let rest = without_leading_space(s);
    law_trailing_space_is_cut(rest);
    let kept = trimmed(s);
    let start = s.len() - rest.len();
    assert(s.subrange(start, start + kept.len()) == kept);
    assert forall|i: int| 0 <= i < s.skip(start + kept.len()).len() implies is_space(
        #[trigger] s.skip(start + kept.len())[i],
    ) by {
        assert(rest[kept.len() + i] == s[start + kept.len() + i]);
    }
}

/// Numbers are written in base ten: the digits from `0` to `9` stand for themselves, and each
/// further digit is worth ten times less than the one before it.
pub proof fn law_decimal(n: nat, d: nat)
    requires
        d < 10,
    ensures
        dec(d) == seq![(0x30 + d) as char],
        n > 0 ==> dec(10 * n + d) == dec(n) + seq![(0x30 + d) as char],
{
    if n > 0 {
        assert((10 * n + d) / 10 == n && (10 * n + d) % 10 == d);
        assert(dec(n).push(digit(d)) == dec(n) + seq![(0x30 + d) as char]);
    }
}

/// What is written of a number is read back as that number, and there is no other way to write it
/// without zeros in front.
pub proof fn law_decimal_reads_back(n: nat)
    ensures
        value(dec(n)) == n,
        dec(n).len() > 1 ==> dec(n)[0] != '0',
        n < 1000 ==> small_number(dec(n)) == Some(n),
        n <= 255 ==> byte_value(dec(n)) == Some(n as u8),
        n > 255 ==> byte_value(dec(n)) is None,
{
    lemma_dec_value(n);
    lemma_dec_digits(n);
    if n > 0 {
        lemma_dec_start(n);
    }
    if n < 1000 {
        lemma_small_dec(n);
    }
    assert(is_digit(dec(n)[0]));
}

/// Reading a number takes each further digit as ten times less than what stands before it.
pub proof fn law_digits_have_their_value(s: Seq<char>, c: char)
    requires
        '0' <= c <= '9',
    ensures
        value(seq![c]) == c as u32 - 0x30,
        value(s.push(c)) == 10 * value(s) + (c as u32 - 0x30),
{
    assert(seq![c].drop_last() == Seq::<char>::empty());
    assert(value(Seq::<char>::empty()) == 0);
    assert(s.push(c).drop_last() == s);
}

/// A negative number is written with a minus sign before its size, any other without a sign.
pub proof fn law_sign(n: nat)
    ensures
        signed_dec(n as int) == dec(n),
        n > 0 ==> signed_dec(-(n as int)) == seq!['-'] + dec(n),
{
}

/// Between each two parts that are joined stands the separator, and nothing else.
pub proof fn law_joining(parts: Seq<Seq<char>>, part: Seq<char>, sep: Seq<char>)
    ensures
        joined(Seq::<Seq<char>>::empty(), sep) == Seq::<char>::empty(),
        joined(seq![part], sep) == part,
        parts.len() > 0 ==> joined(parts.push(part), sep) == joined(parts, sep) + sep + part,
{
    assert(parts.push(part).drop_last() == parts);
}

/// The pieces into which a text is split hold no separator, and joined by it they are the text.
pub proof fn law_splitting(s: Seq<char>, sep: char)
    ensures
        split_at_char(s, sep).len() > 0,
        joined(split_at_char(s, sep), seq![sep]) == s,
        forall|i: int|
            0 <= i < split_at_char(s, sep).len() ==> !(#[trigger] split_at_char(s, sep)[i]).contains(
                sep,
            ),
    decreases s.len(),
{
    if s.len() > 0 {
        let front = s.drop_last();
        law_splitting(front, sep);
        let pieces = split_at_char(front, sep);
        let all = split_at_char(s, sep);
        if s.last() == sep {
            assert(all.drop_last() == pieces);
            assert(joined(pieces, seq![sep]) + seq![sep] + Seq::<char>::empty() == s);
        } else {
            let last = pieces.last().push(s.last());
            assert(all.drop_last() == pieces.drop_last());
            assert(all.last() == last);
            if pieces.len() == 1 {
                assert(pieces[0] == front);
                assert(last == s);
            } else {
                let before = joined(pieces.drop_last(), seq![sep]) + seq![sep];
                assert(before + last == (before + pieces.last()).push(s.last()));
                assert(s == front.push(s.last()));
            }
            assert forall|i: int| 0 <= i < all.len() implies !(#[trigger] all[i]).contains(sep) by {
                if i < all.len() - 1 {
                    assert(all[i] == pieces[i]);
                } else {
                    assert(pieces[pieces.len() - 1] == pieces.last());
                    assert forall|k: int| 0 <= k < last.len() implies last[k] != sep by {
                        if k < pieces.last().len() {
                            assert(pieces.last().contains(pieces.last()[k]));
                        }
                    }
                }
            }
        }
    } else {
        assert(split_at_char(s, sep)[0] == Seq::<char>::empty());
        assert(s == Seq::<char>::empty());
    }
}

/// A number below a thousand is read from its decimal form and from nothing else.
pub proof fn law_small_numbers(s: Seq<char>, n: nat)
    ensures
        small_number(s) == Some(n) ==> s == dec(n) && n < 1000,
{
    if small_number(s) == Some(n) {
        lemma_three_digits(s);
        lemma_only_decimal(s);
    }
}

proof fn lemma_only_decimal(s: Seq<char>)
    requires
        s.len() > 0,
        all_digits(s),
        s.len() > 1 ==> s[0] != '0',
    ensures
        s == dec(value(s)),
        s.len() > 1 ==> value(s) >= 10,
    decreases s.len(),
{
    let front = s.drop_last();
    let c = s.last();
    assert(is_digit(s[s.len() - 1]));
    assert(s == front.push(c));
    if s.len() == 1 {
        assert(front == Seq::<char>::empty());
        assert(value(front) == 0);
        assert(s == seq![c]);
        assert(digit((c as nat - 48) as nat) == c);
    } else {
        assert forall|i: int| 0 <= i < front.len() implies is_digit(#[trigger] front[i]) by {
            assert(is_digit(s[i]));
        }
        lemma_only_decimal(front);
        if front.len() == 1 {
            assert(front.drop_last() == Seq::<char>::empty());
            assert(value(front.drop_last()) == 0);
            assert(is_digit(s[0]));
            assert(front.last() == s[0]);
        }
        let d = (c as nat - 48) as nat;
        assert(value(s) == value(front) * 10 + d);
        assert(value(s) / 10 == value(front) && value(s) % 10 == d);
        assert(digit(d) == c);
    }
}

/// A byte is read from digits whose value is below 256, with or without a plus sign before them,
/// and from nothing else.
pub proof fn law_bytes_are_read(s: Seq<char>)
    ensures
        byte_value(s) is Some <==> {
            ||| s.len() > 0 && all_digits(s) && value(s) < 256
            ||| s.len() > 1 && s[0] == '+' && all_digits(s.skip(1)) && value(s.skip(1)) < 256
        },
        all_digits(s) && byte_value(s) is Some ==> byte_value(s)->0 == value(s),
        s.len() > 0 && s[0] == '+' && byte_value(s) is Some ==> byte_value(s)->0 == value(s.skip(1)),
{
    if s.len() > 0 && s[0] == '+' {
        assert(!is_digit(s[0]));
    }
}

} // verus!
