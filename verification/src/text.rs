//! Text helpers with exact contracts: number rendering and parsing, trimming, splitting and
//! ASCII case folding over the character sequence of a string.
use vstd::prelude::*;

verus! {

/// `String::push` appends one character.
pub assume_specification[ std::string::String::push ](this: &mut std::string::String, c: char)
    ensures
        final(this)@ == old(this)@.push(c),
;

/// The characters of a string, in order.
pub fn to_chars(text: &str) -> (chars: Vec<char>)
    ensures
        chars@ == text@,
{
    let mut chars: Vec<char> = Vec::new();
    for c in iter: text.chars()
        invariant
            iter.seq() == text@,
            chars@ == text@.take(iter.index() as int),
    {
        chars.push(c);
    }
    proof {
        assert(text@.take(text@.len() as int) == text@);
    }
    chars
}

/// The string made of `chars[from..to]`.
pub fn from_chars(chars: &Vec<char>, from: usize, to: usize) -> (text: String)
    requires
        from <= to <= chars@.len(),
    ensures
        text@ == chars@.subrange(from as int, to as int),
{
    let mut text = String::new();
    let mut i: usize = from;
    while i < to
        invariant
            from <= i <= to <= chars@.len(),
            text@ == chars@.subrange(from as int, i as int),
        decreases to - i,
    {
        text.push(chars[i]);
        i = i + 1;
        proof {
            assert(chars@.subrange(from as int, i as int) == chars@.subrange(
                from as int,
                i - 1,
            ).push(chars@[i - 1]));
        }
    }
    text
}

/// Whether two strings hold the same characters.
pub fn same_text(a: &str, b: &str) -> (same: bool)
    ensures
        same == (a@ == b@),
{
    let x = a.to_owned();
    let y = b.to_owned();
    x == y
}

/// The two strings one after the other.
pub fn join2(a: &str, b: &str) -> (text: String)
    ensures
        text@ == a@ + b@,
{
    let mut text = a.to_owned();
    text.append(b);
    text
}

/// The three strings one after the other.
pub fn join3(a: &str, b: &str, c: &str) -> (text: String)
    ensures
        text@ == a@ + b@ + c@,
{
    let mut text = join2(a, b);
    text.append(c);
    text
}

/// The five strings one after the other.
pub fn join5(a: &str, b: &str, c: &str, d: &str, e: &str) -> (text: String)
    ensures
        text@ == a@ + b@ + c@ + d@ + e@,
{
    let mut text = join3(a, b, c);
    text.append(d);
    text.append(e);
    text
}

// Numbers

/// The character of a digit in bases up to sixteen, upper case.
pub open spec fn digit(value: nat) -> char {
    if value < 10 {
        (48 + value) as char
    } else {
        (55 + value) as char
    }
}

/// A number in positional notation, most significant digit first, without leading zeros.
pub open spec fn in_base(value: nat, base: nat) -> Seq<char>
    decreases value,
    when base >= 2
{
    if value < base {
        seq![digit(value)]
    } else {
        proof {
            assert(value / base < value) by (nonlinear_arith)
                requires
                    value >= base,
                    base >= 2,
            ;
        }
        in_base(value / base, base).push(digit(value % base))
    }
}

/// A number in decimal.
pub open spec fn decimal_text(value: nat) -> Seq<char> {
    in_base(value, 10)
}

/// The lowest `width` digits of a number, most significant first, with leading zeros.
pub open spec fn padded(value: nat, base: nat, width: nat) -> Seq<char>
    decreases width,
{
    if width == 0 {
        Seq::empty()
    } else {
        padded(value / base, base, (width - 1) as nat).push(digit(value % base))
    }
}

fn digit_of(value: u64) -> (c: char)
    requires
        value < 16,
    ensures
        c == digit(value as nat),
{
    if value < 10 {
        (48u8 + value as u8) as char
    } else {
        (55u8 + value as u8) as char
    }
}

fn reversed(chars: &Vec<char>) -> (text: String)
    ensures
        text@ == chars@.reverse(),
{
    let mut text = String::new();
    let mut i: usize = chars.len();
    while i > 0
        invariant
            i <= chars@.len(),
            text@ == chars@.reverse().take(chars@.len() - i),
        decreases i,
    {
        i = i - 1;
        text.push(chars[i]);
        proof {
            let done = chars@.len() - i;
            assert(chars@.reverse().take(done) == chars@.reverse().take(done - 1).push(chars@[i as int]));
        }
    }
    proof {
        assert(chars@.reverse().take(chars@.len() as int) == chars@.reverse());
    }
    text
}

fn render(value: u64, base: u64) -> (text: String)
    requires
        2 <= base <= 16,
    ensures
        text@ == in_base(value as nat, base as nat),
{
    let mut low: Vec<char> = Vec::new();
    let mut rest: u64 = value;
    while rest >= base
        invariant
            2 <= base <= 16,
            in_base(value as nat, base as nat) == in_base(rest as nat, base as nat) + low@.reverse(),
        decreases rest,
    {
        low.push(digit_of(rest % base));
        proof {
            let before = low@.drop_last();
            assert(low@.reverse() == seq![digit((rest % base) as nat)] + before.reverse());
            assert(in_base(rest as nat, base as nat) + before.reverse() == in_base(
                (rest / base) as nat,
                base as nat,
            ) + low@.reverse());
            assert(rest / base < rest) by (nonlinear_arith)
                requires
                    rest >= base,
                    base >= 2,
            ;
        }
        rest = rest / base;
    }
    low.push(digit_of(rest));
    proof {
        let before = low@.drop_last();
        assert(low@.reverse() == seq![digit(rest as nat)] + before.reverse());
    }
    reversed(&low)
}

/// A number in decimal.
pub fn decimal(value: u64) -> (text: String)
    ensures
        text@ == decimal_text(value as nat),
{
    render(value, 10)
}

/// A number in upper-case hexadecimal.
pub fn hex(value: u64) -> (text: String)
    ensures
        text@ == in_base(value as nat, 16),
{
    render(value, 16)
}

/// The lowest `width` hexadecimal digits of a number, upper case.
pub fn hex_padded(value: u64, width: usize) -> (text: String)
    ensures
        text@ == padded(value as nat, 16, width as nat),
{
    let mut low: Vec<char> = Vec::new();
    let mut rest: u64 = value;
    let mut left: usize = width;
    while left > 0
        invariant
            padded(value as nat, 16, width as nat) == padded(rest as nat, 16, left as nat)
                + low@.reverse(),
        decreases left,
    {
        low.push(digit_of(rest % 16));
        proof {
            let before = low@.drop_last();
            assert(low@.reverse() == seq![digit((rest % 16) as nat)] + before.reverse());
            assert(padded(rest as nat, 16, left as nat) + before.reverse() == padded(
                (rest / 16) as nat,
                16,
                (left - 1) as nat,
            ) + low@.reverse());
        }
        rest = rest / 16;
        left = left - 1;
    }
    proof {
        assert(padded(rest as nat, 16, 0) + low@.reverse() == low@.reverse());
    }
    reversed(&low)
}

/// The value of a digit character in bases up to sixteen, of either case.
pub open spec fn digit_value(c: char) -> Option<nat> {
    if '0' <= c <= '9' {
        Some((c as nat - 48) as nat)
    } else if 'A' <= c <= 'F' {
        Some((c as nat - 55) as nat)
    } else if 'a' <= c <= 'f' {
        Some((c as nat - 87) as nat)
    } else {
        None
    }
}

/// The number that a non-empty run of digits denotes.
pub open spec fn number_in(text: Seq<char>, base: nat) -> Option<nat>
    decreases text.len(),
{
    match digit_value(text.last()) {
        Some(low) if text.len() > 0 && low < base => if text.len() == 1 {
            Some(low)
        } else {
            match number_in(text.drop_last(), base) {
                Some(high) => Some(high * base + low),
                None => None,
            }
        },
        _ => None,
    }
}

/// The number that a text denotes, where it fits 64 bits.
pub open spec fn u64_in(text: Seq<char>, base: nat) -> Option<u64> {
    match number_in(text, base) {
        Some(n) if n <= u64::MAX => Some(n as u64),
        _ => None,
    }
}

fn value_of(c: char) -> (value: Option<u64>)
    ensures
        match value {
            Some(v) => digit_value(c) == Some(v as nat) && v < 16,
            None => digit_value(c) is None,
        },
{
    if '0' <= c && c <= '9' {
        Some(c as u64 - 48)
    } else if 'A' <= c && c <= 'F' {
        Some(c as u64 - 55)
    } else if 'a' <= c && c <= 'f' {
        Some(c as u64 - 87)
    } else {
        None
    }
}

proof fn lemma_number_prefix(text: Seq<char>, base: nat, len: nat)
    requires
        1 <= len <= text.len(),
        base >= 2,
    ensures
        number_in(text.take(len as int), base) is None ==> number_in(text, base) is None,
        number_in(text, base) is Some ==> number_in(text.take(len as int), base)->0 <= number_in(text, base)->0,
    decreases text.len(),
{
    if len == text.len() {
        assert(text.take(len as int) == text);
    } else {
        lemma_number_prefix(text.drop_last(), base, len);
        assert(text.drop_last().take(len as int) == text.take(len as int));
        if number_in(text, base) is Some {
            let high = number_in(text.drop_last(), base)->0;
            assert(high <= high * base) by (nonlinear_arith)
                requires
                    base >= 2,
                    high >= 0,
            ;
        }
    }
}

fn read_number(text: &str, base: u64) -> (value: Option<u64>)
    requires
        2 <= base <= 16,
    ensures
        value == u64_in(text@, base as nat),
{
    let chars = to_chars(text);
    if chars.len() == 0 {
        return None;
    }
    let mut value: u64 = 0;
    let mut i: usize = 0;
    while i < chars.len()
        invariant
            2 <= base <= 16,
            i <= chars@.len(),
            chars@ == text@,
            i == 0 ==> value == 0,
            i > 0 ==> number_in(text@.take(i as int), base as nat) == Some(value as nat),
        decreases chars.len() - i,
    {
        let ghost prefix = text@.take(i + 1);
        proof {
            assert(prefix.drop_last() == text@.take(i as int));
            assert(prefix.last() == chars@[i as int]);
            lemma_number_prefix(text@, base as nat, (i + 1) as nat);
        }
        match value_of(chars[i]) {
            Some(low) if low < base => {
                match value.checked_mul(base) {
                    Some(high) => {
                        match high.checked_add(low) {
                            Some(next) => {
                                proof {
                                    if i > 0 {
                                        assert(number_in(prefix, base as nat) == Some((value * base + low) as nat));
                                    } else {
                                        assert(value * base == 0) by (nonlinear_arith)
                                            requires
                                                value == 0,
                                        ;
                                        assert(number_in(prefix, base as nat) == Some(low as nat));
                                    }
                                }
                                value = next;
                            },
                            None => {
                                return None;
                            },
                        }
                    },
                    None => {
                        proof {
                            if i == 0 {
                                assert(value * base == 0) by (nonlinear_arith)
                                    requires
                                        value == 0,
                                ;
                            }
                        }
                        return None;
                    },
                }
            },
            _ => {
                return None;
            },
        }
        i = i + 1;
    }
    proof {
        assert(text@.take(i as int) == text@);
    }
    Some(value)
}

/// The number that a run of decimal digits denotes; `None` where the text is empty, holds
/// anything but digits, or denotes a number past 64 bits.
pub fn parse_decimal(text: &str) -> (value: Option<u64>)
    ensures
        value == u64_in(text@, 10),
{
    read_number(text, 10)
}

/// The number that a run of hexadecimal digits of either case denotes.
pub fn parse_hex(text: &str) -> (value: Option<u64>)
    ensures
        value == u64_in(text@, 16),
{
    read_number(text, 16)
}

/// Reading back a rendered number gives the number.
pub proof fn number_round_trip(value: nat, base: nat)
    requires
        2 <= base <= 16,
    ensures
        number_in(in_base(value, base), base) == Some(value),
    decreases value,
{
    let text = in_base(value, base);
    if value >= base {
        number_round_trip(value / base, base);
        assert(text.drop_last() == in_base(value / base, base));
        assert(text.last() == digit(value % base));
        assert(value == (value / base) * base + value % base) by (nonlinear_arith)
            requires
                base >= 2,
        ;
        assert(value % base < base) by (nonlinear_arith)
            requires
                base >= 2,
        ;
        assert(digit_value(digit(value % base)) == Some(value % base));
        assert(in_base(value / base, base).len() > 0);
    } else {
        assert(text.last() == digit(value));
        assert(digit_value(digit(value)) == Some(value));
    }
}

// Trimming

/// The characters with the Unicode property `White_Space`.
pub open spec fn is_space(c: char) -> bool {
    let n = c as nat;
    ||| 9 <= n <= 13
    ||| n == 32
    ||| n == 0x85
    ||| n == 0xA0
    ||| n == 0x1680
    ||| 0x2000 <= n <= 0x200A
    ||| n == 0x2028
    ||| n == 0x2029
    ||| n == 0x202F
    ||| n == 0x205F
    ||| n == 0x3000
}

/// The text without leading white space.
pub open spec fn trim_start(text: Seq<char>) -> Seq<char>
    decreases text.len(),
{
    if text.len() > 0 && is_space(text[0]) {
        trim_start(text.drop_first())
    } else {
        text
    }
}

/// The text without trailing white space.
pub open spec fn trim_end(text: Seq<char>) -> Seq<char>
    decreases text.len(),
{
    if text.len() > 0 && is_space(text.last()) {
        trim_end(text.drop_last())
    } else {
        text
    }
}

/// The text without white space at either end.
pub open spec fn trimmed(text: Seq<char>) -> Seq<char> {
    trim_end(trim_start(text))
}

/// Whether a character is white space.
pub fn is_white(c: char) -> (b: bool)
    ensures
        b == is_space(c),
{
    let n = c as u32;
    (9 <= n && n <= 13) || n == 32 || n == 0x85 || n == 0xA0 || n == 0x1680 || (0x2000 <= n && n
        <= 0x200A) || n == 0x2028 || n == 0x2029 || n == 0x202F || n == 0x205F || n == 0x3000
}

/// The text without white space at either end.
pub fn trim(text: &str) -> (out: String)
    ensures
        out@ == trimmed(text@),
{
    let chars = to_chars(text);
    let mut from: usize = 0;
    proof {
        assert(text@.skip(0) == text@);
    }
    while from < chars.len() && is_white(chars[from])
        invariant
            from <= chars@.len(),
            chars@ == text@,
            trim_start(text@) == trim_start(text@.skip(from as int)),
        decreases chars.len() - from,
    {
        proof {
            assert(text@.skip(from as int).drop_first() == text@.skip(from + 1));
        }
        from = from + 1;
    }
    let mut to: usize = chars.len();
    proof {
        assert(text@.skip(from as int) == text@.subrange(from as int, to as int));
        assert(trim_start(text@) == text@.subrange(from as int, to as int));
    }
    while to > from && is_white(chars[to - 1])
        invariant
            from <= to <= chars@.len(),
            chars@ == text@,
            trimmed(text@) == trim_end(text@.subrange(from as int, to as int)),
        decreases to,
    {
        proof {
            assert(text@.subrange(from as int, to as int).drop_last() == text@.subrange(
                from as int,
                to - 1,
            ));
        }
        to = to - 1;
    }
    from_chars(&chars, from, to)
}

// Case folding

/// The ASCII lower-case form of a character.
pub open spec fn fold(c: char) -> char {
    if 'A' <= c <= 'Z' {
        (c as nat + 32) as char
    } else {
        c
    }
}

/// The text with its ASCII letters in lower case.
pub open spec fn folded(text: Seq<char>) -> Seq<char> {
    text.map_values(|c: char| fold(c))
}

fn fold_char(c: char) -> (out: char)
    ensures
        out == fold(c),
{
    if 'A' <= c && c <= 'Z' {
        (c as u8 + 32) as char
    } else {
        c
    }
}

/// The text with its ASCII letters in lower case, as characters.
pub fn fold_chars(text: &str) -> (chars: Vec<char>)
    ensures
        chars@ == folded(text@),
{
    let source = to_chars(text);
    let mut chars: Vec<char> = Vec::new();
    let mut i: usize = 0;
    while i < source.len()
        invariant
            i <= source@.len(),
            source@ == text@,
            chars@ == folded(text@).take(i as int),
        decreases source.len() - i,
    {
        chars.push(fold_char(source[i]));
        i = i + 1;
        proof {
            assert(folded(text@).take(i as int) == folded(text@).take(i - 1).push(fold(text@[i - 1])));
        }
    }
    proof {
        assert(folded(text@).take(i as int) == folded(text@));
    }
    chars
}

/// Two lower-case hexadecimal digits.
pub open spec fn hex_pair(byte: u8) -> Seq<char> {
    folded(padded(byte as nat, 16, 2))
}

/// Two lower-case hexadecimal digits; see [`hex_pair`].
pub fn render_hex_pair(byte: u8) -> (out: String)
    ensures
        out@ == hex_pair(byte),
{
    let pair = hex_padded(byte as u64, 2);
    let digits = fold_chars(pair.as_str());
    proof {
        assert(digits@.subrange(0, digits@.len() as int) =~= digits@);
    }
    from_chars(&digits, 0, digits.len())
}

/// Whether two texts agree up to ASCII case.
pub fn same_folded(a: &str, b: &str) -> (same: bool)
    ensures
        same == (folded(a@) == folded(b@)),
{
    let x = fold_chars(a);
    let y = fold_chars(b);
    same_chars(&x, &y)
}

/// Whether two character vectors are equal.
pub fn same_chars(a: &Vec<char>, b: &Vec<char>) -> (same: bool)
    ensures
        same == (a@ == b@),
{
    if a.len() != b.len() {
        return false;
    }
    let mut i: usize = 0;
    while i < a.len()
        invariant
            i <= a@.len(),
            a@.len() == b@.len(),
            a@.take(i as int) == b@.take(i as int),
        decreases a.len() - i,
    {
        if a[i] != b[i] {
            return false;
        }
        i = i + 1;
        proof {
            assert(a@.take(i as int) == a@.take(i - 1).push(a@[i - 1]));
            assert(b@.take(i as int) == b@.take(i - 1).push(b@[i - 1]));
        }
    }
    proof {
        assert(a@.take(i as int) == a@);
        assert(b@.take(i as int) == b@);
    }
    true
}

// Splitting

/// The first place of a character in a text, or the text's length.
pub open spec fn find_char(text: Seq<char>, c: char) -> int
    decreases text.len(),
{
    if text.len() == 0 {
        0
    } else if text[0] == c {
        0
    } else {
        1 + find_char(text.drop_first(), c)
    }
}

/// The parts of a text between the places of a separator, one more part than separators.
pub open spec fn split(text: Seq<char>, separator: char) -> Seq<Seq<char>>
    decreases text.len(),
{
    if text.len() == 0 {
        seq![Seq::<char>::empty()]
    } else if text.last() == separator {
        split(text.drop_last(), separator).push(Seq::<char>::empty())
    } else {
        let before = split(text.drop_last(), separator);
        before.drop_last().push(before.last().push(text.last()))
    }
}

/// The views of a sequence of strings.
pub open spec fn texts(strings: Seq<String>) -> Seq<Seq<char>> {
    strings.map_values(|s: String| s@)
}

pub proof fn lemma_split_nonempty(text: Seq<char>, separator: char)
    ensures
        split(text, separator).len() >= 1,
    decreases text.len(),
{
    if text.len() > 0 {
        lemma_split_nonempty(text.drop_last(), separator);
    }
}

/// The parts of a text between the places of a separator.
pub fn split_on(text: &str, separator: char) -> (parts: Vec<String>)
    ensures
        texts(parts@) == split(text@, separator),
{
    let chars = to_chars(text);
    let mut parts: Vec<String> = Vec::new();
    let mut current = String::new();
    let mut i: usize = 0;
    proof {
        assert(split(text@.take(0), separator) == texts(parts@).push(current@));
    }
    while i < chars.len()
        invariant
            i <= chars@.len(),
            chars@ == text@,
            split(text@.take(i as int), separator) == texts(parts@).push(current@),
        decreases chars.len() - i,
    {
        let ghost prefix = text@.take(i + 1);
        let ghost done = texts(parts@);
        let ghost word = current@;
        proof {
            assert(prefix.drop_last() == text@.take(i as int));
            assert(prefix.last() == chars@[i as int]);
            lemma_split_nonempty(prefix.drop_last(), separator);
            assert(done.push(word).drop_last() == done);
        }
        if chars[i] == separator {
            parts.push(current);
            current = String::new();
            proof {
                assert(texts(parts@) == done.push(word));
            }
        } else {
            current.push(chars[i]);
        }
        i = i + 1;
    }
    proof {
        assert(text@.take(i as int) == text@);
    }
    let ghost done = texts(parts@);
    let ghost word = current@;
    parts.push(current);
    proof {
        assert(texts(parts@) == done.push(word));
    }
    parts
}

/// The strings with a separator between each two.
pub open spec fn joined(parts: Seq<Seq<char>>, separator: Seq<char>) -> Seq<char>
    decreases parts.len(),
{
    if parts.len() == 0 {
        Seq::empty()
    } else if parts.len() == 1 {
        parts[0]
    } else {
        joined(parts.drop_last(), separator) + separator + parts.last()
    }
}

/// The strings with a separator between each two.
pub fn join(parts: &Vec<String>, separator: &str) -> (text: String)
    ensures
        text@ == joined(texts(parts@), separator@),
{
    let mut text = String::new();
    let mut i: usize = 0;
    while i < parts.len()
        invariant
            i <= parts@.len(),
            text@ == joined(texts(parts@).take(i as int), separator@),
        decreases parts.len() - i,
    {
        if i > 0 {
            text.append(separator);
        }
        text.append(parts[i].as_str());
        proof {
            assert(texts(parts@).take(i + 1).drop_last() == texts(parts@).take(i as int));
            assert(texts(parts@).take(i + 1).last() == parts@[i as int]@);
            if i == 0 {
                assert(text@ == parts@[0]@);
            }
        }
        i = i + 1;
    }
    proof {
        assert(texts(parts@).take(i as int) == texts(parts@));
    }
    text
}

/// The same strings again.
pub fn clone_texts(strings: &Vec<String>) -> (copy: Vec<String>)
    ensures
        texts(copy@) == texts(strings@),
{
    let mut copy: Vec<String> = Vec::new();
    let mut i: usize = 0;
    while i < strings.len()
        invariant
            i <= strings@.len(),
            texts(copy@) == texts(strings@).take(i as int),
        decreases strings.len() - i,
    {
        let ghost before = texts(copy@);
        copy.push(strings[i].clone());
        proof {
            assert(texts(copy@) == before.push(strings@[i as int]@));
            assert(texts(strings@).take(i + 1) == texts(strings@).take(i as int).push(strings@[i as int]@));
        }
        i = i + 1;
    }
    proof {
        assert(texts(strings@).take(i as int) == texts(strings@));
    }
    copy
}

/// Whether a text is among the strings.
pub fn contains_text(strings: &Vec<String>, text: &str) -> (found: bool)
    ensures
        found == texts(strings@).contains(text@),
{
    let mut i: usize = 0;
    while i < strings.len()
        invariant
            i <= strings@.len(),
            forall|j: int| 0 <= j < i ==> texts(strings@)[j] != text@,
        decreases strings.len() - i,
    {
        if same_text(strings[i].as_str(), text) {
            proof {
                assert(texts(strings@)[i as int] == text@);
            }
            return true;
        }
        i = i + 1;
    }
    false
}

/// The view of an optional string.
pub open spec fn text_option(text: Option<String>) -> Option<Seq<char>> {
    match text {
        Some(t) => Some(t@),
        None => None,
    }
}

/// The same optional string again.
pub fn clone_text_option(text: &Option<String>) -> (copy: Option<String>)
    ensures
        text_option(copy) == text_option(*text),
{
    match text {
        Some(t) => Some(t.clone()),
        None => None,
    }
}


/// A text without the separator is its own only part.
pub proof fn split_without_separator(part: Seq<char>, separator: char)
    requires
        !part.contains(separator),
    ensures
        split(part, separator) == seq![part],
    decreases part.len(),
{
    if part.len() > 0 {
        let shorter = part.drop_last();
        assert forall|i: int| 0 <= i < shorter.len() implies shorter[i] != separator by {
            assert(part[i] != separator);
        }
        split_without_separator(shorter, separator);
        assert(part.last() != separator);
        let before = split(shorter, separator);
        assert(before.drop_last() =~= Seq::<Seq<char>>::empty());
        assert(before.last().push(part.last()) =~= part);
        assert(split(part, separator) =~= seq![part]);
    } else {
        assert(part =~= Seq::<char>::empty());
    }
}

/// What follows the last separator is the last part.
pub proof fn split_after_separator(before: Seq<char>, separator: char, part: Seq<char>)
    requires
        !part.contains(separator),
    ensures
        split(before + seq![separator] + part, separator) == split(before, separator).push(part),
    decreases part.len(),
{
    let whole = before + seq![separator] + part;
    if part.len() == 0 {
        assert(whole.drop_last() =~= before);
        assert(whole.last() == separator);
        assert(part =~= Seq::<char>::empty());
    } else {
        let shorter = part.drop_last();
        assert forall|i: int| 0 <= i < shorter.len() implies shorter[i] != separator by {
            assert(part[i] != separator);
        }
        split_after_separator(before, separator, shorter);
        assert(whole.drop_last() =~= before + seq![separator] + shorter);
        assert(whole.last() == part.last());
        assert(part.last() != separator);
        let parts = split(before, separator).push(shorter);
        assert(parts.drop_last() =~= split(before, separator));
        assert(shorter.push(part.last()) =~= part);
    }
}

/// What stands before the first separator is the first part.
pub proof fn split_before_separator(before: Seq<char>, separator: char, rest: Seq<char>)
    requires
        !before.contains(separator),
    ensures
        split(before + seq![separator] + rest, separator).len() >= 2,
        split(before + seq![separator] + rest, separator)[0] == before,
    decreases rest.len(),
{
    let whole = before + seq![separator] + rest;
    if rest.len() == 0 {
        assert(whole.drop_last() =~= before);
        split_without_separator(before, separator);
    } else {
        split_before_separator(before, separator, rest.drop_last());
        assert(whole.drop_last() =~= before + seq![separator] + rest.drop_last());
    }
}

/// No part holds the separator, and every part's characters are the text's.
pub proof fn split_parts(whole: Seq<char>, separator: char)
    ensures
        split(whole, separator).len() >= 1,
        forall|i: int|
            0 <= i < split(whole, separator).len() ==> !(#[trigger] split(
                whole,
                separator,
            )[i]).contains(separator),
        forall|i: int, c: char|
            0 <= i < split(whole, separator).len() && (#[trigger] split(
                whole,
                separator,
            )[i].contains(c)) ==> whole.contains(c),
    decreases whole.len(),
{
    let parts = split(whole, separator);
    if whole.len() > 0 {
        split_parts(whole.drop_last(), separator);
        let before = split(whole.drop_last(), separator);
        let last = before.len() - 1;
        assert forall|i: int| 0 <= i < parts.len() implies !(#[trigger] parts[i]).contains(
            separator,
        ) by {
            if whole.last() == separator {
                if i < before.len() {
                    assert(parts[i] == before[i]);
                }
            } else if i < last {
                assert(parts[i] == before[i]);
            } else {
                assert(parts[i] =~= before[last].push(whole.last()));
                assert(!before[last].contains(separator));
                if parts[i].contains(separator) {
                    let k = choose|k: int| 0 <= k < parts[i].len() && parts[i][k] == separator;
                    assert(before[last][k] == separator);
                }
            }
        }
        assert forall|i: int, c: char|
            0 <= i < parts.len() && (#[trigger] parts[i].contains(c)) implies whole.contains(c) by {
            let k = choose|k: int| 0 <= k < parts[i].len() && parts[i][k] == c;
            let shorter = whole.drop_last();
            if whole.last() != separator && i == last && k == before[last].len() {
                assert(whole[whole.len() - 1] == c);
            } else {
                if whole.last() == separator {
                    assert(parts[i] == before[i]);
                    assert(before[i].contains(c));
                } else {
                    assert(before[i][k] == c);
                    assert(before[i].contains(c));
                }
                assert(shorter.contains(c));
                let m = choose|m: int| 0 <= m < shorter.len() && shorter[m] == c;
                assert(whole[m] == c);
            }
        }
    }
}

/// The first part starts where the text starts.
pub proof fn split_first_part(whole: Seq<char>, separator: char)
    ensures
        split(whole, separator).len() >= 1,
        split(whole, separator)[0].len() > 0 ==> whole.len() > 0 && split(whole, separator)[0][0]
            == whole[0],
    decreases whole.len(),
{
    if whole.len() > 0 {
        split_first_part(whole.drop_last(), separator);
        let before = split(whole.drop_last(), separator);
        if whole.last() != separator && before.len() == 1 {
            if before[0].len() == 0 {
                lemma_split_single_empty(whole.drop_last(), separator);
            }
        }
    }
}

proof fn lemma_split_single_empty(whole: Seq<char>, separator: char)
    requires
        split(whole, separator).len() == 1,
        split(whole, separator)[0].len() == 0,
    ensures
        whole.len() == 0,
    decreases whole.len(),
{
    if whole.len() > 0 {
        lemma_split_nonempty(whole.drop_last(), separator);
    }
}

/// Trimming leaves alone a text that neither starts nor ends with white space.
pub proof fn trimmed_is_itself(whole: Seq<char>)
    requires
        whole.len() > 0,
        !is_space(whole[0]),
        !is_space(whole.last()),
    ensures
        trimmed(whole) == whole,
{
}

/// A trimmed text does not start with white space.
pub proof fn trimmed_starts_solid(whole: Seq<char>)
    ensures
        trimmed(whole).len() > 0 ==> !is_space(trimmed(whole)[0]),
{
    lemma_trim_start(whole);
    lemma_trim_end(trim_start(whole));
}

proof fn lemma_trim_start(whole: Seq<char>)
    ensures
        trim_start(whole).len() > 0 ==> !is_space(trim_start(whole)[0]),
    decreases whole.len(),
{
    if whole.len() > 0 && is_space(whole[0]) {
        lemma_trim_start(whole.drop_first());
    }
}

proof fn lemma_trim_end(whole: Seq<char>)
    ensures
        trim_end(whole).len() > 0 ==> whole.len() > 0 && trim_end(whole)[0] == whole[0],
    decreases whole.len(),
{
    if whole.len() > 0 && is_space(whole.last()) {
        lemma_trim_end(whole.drop_last());
    }
}

/// Trimming takes nothing in: its characters are the text's.
pub proof fn trimmed_holds_no_more(whole: Seq<char>, c: char)
    requires
        trimmed(whole).contains(c),
    ensures
        whole.contains(c),
{
    lemma_trim_start_part(whole, c);
    lemma_trim_end_part(trim_start(whole), c);
}

proof fn lemma_trim_start_part(whole: Seq<char>, c: char)
    ensures
        trim_start(whole).contains(c) ==> whole.contains(c),
    decreases whole.len(),
{
    if whole.len() > 0 && is_space(whole[0]) {
        lemma_trim_start_part(whole.drop_first(), c);
        if whole.drop_first().contains(c) {
            let k = choose|k: int| 0 <= k < whole.drop_first().len() && whole.drop_first()[k] == c;
            assert(whole[k + 1] == c);
        }
    }
}

proof fn lemma_trim_end_part(whole: Seq<char>, c: char)
    ensures
        trim_end(whole).contains(c) ==> whole.contains(c),
    decreases whole.len(),
{
    if whole.len() > 0 && is_space(whole.last()) {
        lemma_trim_end_part(whole.drop_last(), c);
        if whole.drop_last().contains(c) {
            let k = choose|k: int| 0 <= k < whole.drop_last().len() && whole.drop_last()[k] == c;
            assert(whole[k] == c);
        }
    }
}

/// A number in decimal is a non-empty run of decimal digits.
pub proof fn decimal_is_digits(value: nat)
    ensures
        decimal_text(value).len() >= 1,
        forall|i: int|
            0 <= i < decimal_text(value).len() ==> '0' <= #[trigger] decimal_text(value)[i]
                <= '9',
    decreases value,
{
    if value >= 10 {
        decimal_is_digits(value / 10);
        let high = decimal_text(value / 10);
        assert forall|i: int| 0 <= i < decimal_text(value).len() implies '0' <= (
        #[trigger] decimal_text(value)[i]) <= '9' by {
            if i < high.len() {
                assert(decimal_text(value)[i] == high[i]);
            }
        }
    }
}

} // verus!
