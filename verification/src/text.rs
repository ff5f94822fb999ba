//! Text primitives: the pieces of string handling that the rest of the library is written in.
//!
//! A text is modelled by its sequence of characters.
use vstd::prelude::*;

verus! {

/// `String::push`: appends one character to the end of the text.
pub assume_specification[ String::push ](s: &mut String, c: char)
    ensures
        final(s)@ == old(s)@.push(c),
;

/// The texts behind a sequence of strings.
pub open spec fn texts(list: Seq<String>) -> Seq<Seq<char>> {
    list.map_values(|s: String| s@)
}

/// The text behind an optional string.
pub open spec fn opt_text(value: Option<String>) -> Option<Seq<char>> {
    match value {
        Some(s) => Some(s@),
        None => None,
    }
}

/// The texts behind optional strings.
pub open spec fn opt_texts(list: Seq<Option<String>>) -> Seq<Option<Seq<char>>> {
    list.map_values(|s: Option<String>| opt_text(s))
}

/// A copy of an optional string.
pub fn copy_opt(value: &Option<String>) -> (r: Option<String>)
    ensures
        r == *value,
{
    match value {
        Some(s) => Some(s.clone()),
        None => None,
    }
}

/// Copies of texts.
pub fn copy_all(list: &Vec<String>) -> (r: Vec<String>)
    ensures
        texts(r@) == texts(list@),
{
    let mut out: Vec<String> = Vec::new();
    let mut i: usize = 0;
    while i < list.len()
        invariant
            i <= list.len(),
            texts(out@) == texts(list@).take(i as int),
        decreases list.len() - i,
    {
        let ghost before = out@;
        out.push(list[i].clone());
        i += 1;
        proof {
            assert(texts(out@) =~= texts(before).push(list@[i - 1]@));
            assert(texts(out@) =~= texts(list@).take(i as int));
        }
    }
    proof {
        assert(texts(list@).take(i as int) =~= texts(list@));
    }
    out
}

/// Whether two optional strings hold the same text, or are both absent.
pub fn same_opt(a: &Option<String>, b: &Option<String>) -> (r: bool)
    ensures
        r == (opt_text(*a) == opt_text(*b)),
{
    match (a, b) {
        (Some(x), Some(y)) => same(x, y),
        (None, None) => true,
        _ => false,
    }
}

/// The characters of `text`, in order.
pub fn chars_of(text: &str) -> (r: Vec<char>)
    ensures
        r@ == text@,
{
    let mut out: Vec<char> = Vec::new();
    for c in iter: text.chars()
        invariant
            iter.seq() == text@,
            out@ == text@.take(iter.index() as int),
    {
        out.push(c);
    }
    out
}

/// The text made of `chars[from..to]`.
pub fn text_of(chars: &Vec<char>, from: usize, to: usize) -> (r: String)
    requires
        from <= to <= chars.len(),
    ensures
        r@ == chars@.subrange(from as int, to as int),
{
    let mut out = String::new();
    let mut i: usize = from;
    while i < to
        invariant
            from <= i <= to <= chars.len(),
            out@ == chars@.subrange(from as int, i as int),
        decreases to - i,
    {
        out.push(chars[i]);
        i += 1;
    }
    out
}

/// Whether two texts hold the same characters.
pub fn same(a: &str, b: &str) -> (r: bool)
    ensures
        r == (a@ == b@),
{
    a.to_owned() == b.to_owned()
}

/// Whether `list` holds the text `wanted`.
pub fn holds(list: &Vec<String>, wanted: &str) -> (r: bool)
    ensures
        r == texts(list@).contains(wanted@),
{
    let mut i: usize = 0;
    while i < list.len()
        invariant
            i <= list.len(),
            forall|j: int| 0 <= j < i ==> texts(list@)[j] != wanted@,
        decreases list.len() - i,
    {
        if same(&list[i], wanted) {
            assert(texts(list@)[i as int] == wanted@);
            return true;
        }
        i += 1;
    }
    false
}

// ---------------------------------------------------------------- numbers

/// The character of one decimal digit.
pub open spec fn digit_char(d: nat) -> char {
    (48 + d) as char
}

/// The decimal digits of `n`, most significant first, `"0"` for zero.
pub open spec fn decimal_text(n: nat) -> Seq<char>
    decreases n,
{
    if n < 10 {
        seq![digit_char(n)]
    } else {
        decimal_text(n / 10).push(digit_char(n % 10))
    }
}

/// Different numbers have different decimal forms, all of them made of digits.
pub proof fn lemma_decimal_apart(a: nat, b: nat)
    ensures
        decimal_text(a).len() > 0,
        decimal_text(a).last() != '/',
        decimal_text(a) == decimal_text(b) ==> a == b,
    decreases a,
{
    let x = decimal_text(a);
    let y = decimal_text(b);
    if a >= 10 {
        lemma_decimal_apart(a / 10, b / 10);
        assert(x.drop_last() =~= decimal_text(a / 10));
    }
    if b >= 10 {
        assert(y.drop_last() =~= decimal_text(b / 10));
        if a < 10 {
            assert(decimal_text(b / 10).len() > 0);
        }
    }
    assert(x.last() == digit_char(a % 10));
    assert(y.last() == digit_char(b % 10));
}

/// The decimal form of a signed number: a minus sign before the digits of a negative one.
pub open spec fn signed_text(n: int) -> Seq<char> {
    if n < 0 {
        seq!['-'] + decimal_text((-n) as nat)
    } else {
        decimal_text(n as nat)
    }
}

/// `n` in two digits at least.
pub open spec fn two_digits(n: nat) -> Seq<char> {
    if n < 10 {
        seq!['0'] + decimal_text(n)
    } else {
        decimal_text(n)
    }
}

fn digit(d: u64) -> (r: char)
    requires
        d < 10,
    ensures
        r == digit_char(d as nat),
{
    (48u8 + d as u8) as char
}

/// `n` in decimal.
pub fn decimal(n: u64) -> (r: String)
    ensures
        r@ == decimal_text(n as nat),
    decreases n,
{
    let mut out = if n < 10 {
        String::new()
    } else {
        decimal(n / 10)
    };
    out.push(digit(n % 10));
    out
}

/// `n` in decimal, with its sign.
pub fn signed(n: i64) -> (r: String)
    ensures
        r@ == signed_text(n as int),
{
    if n < 0 {
        let magnitude: u64 = (-(n as i128)) as u64;
        let mut out = String::new();
        out.push('-');
        out.append(&decimal(magnitude));
        out
    } else {
        decimal(n as u64)
    }
}

/// `n` in decimal, padded with a zero to two digits.
pub fn padded(n: u64) -> (r: String)
    ensures
        r@ == two_digits(n as nat),
{
    if n < 10 {
        let mut out = String::new();
        out.push('0');
        out.append(&decimal(n));
        out
    } else {
        decimal(n)
    }
}

/// Whether `c` is an ASCII decimal digit.
pub open spec fn is_digit(c: char) -> bool {
    '0' <= c && c <= '9'
}

/// The number that a run of decimal digits denotes; `None` if another character is among them.
pub open spec fn digits_value(s: Seq<char>) -> Option<nat>
    decreases s.len(),
{
    if s.len() == 0 {
        Some(0)
    } else {
        match digits_value(s.drop_last()) {
            Some(n) if is_digit(s.last()) => Some((10 * n + (s.last() as nat - 48)) as nat),
            _ => None,
        }
    }
}

/// What an unsigned integer parser accepts: an optional plus sign and one or more digits.
pub open spec fn unsigned_value(s: Seq<char>) -> Option<nat> {
    if s.len() == 0 {
        None
    } else if s[0] == '+' {
        if s.len() == 1 {
            None
        } else {
            digits_value(s.skip(1))
        }
    } else {
        digits_value(s)
    }
}

/// `unsigned_value`, where the number does not exceed `max`.
pub open spec fn parsed(s: Seq<char>, max: nat) -> Option<nat> {
    match unsigned_value(s) {
        Some(n) if n <= max => Some(n),
        _ => None,
    }
}

/// The decimal form of a number is read as that number, and no white space is at its ends.
pub proof fn lemma_decimal_read(n: nat)
    ensures
        decimal_text(n).len() > 0,
        digits_value(decimal_text(n)) == Some(n),
        is_digit(decimal_text(n)[0]),
        is_digit(decimal_text(n).last()),
    decreases n,
{
    reveal_with_fuel(digits_value, 2);
    let s = decimal_text(n);
    if n >= 10 {
        lemma_decimal_read(n / 10);
        assert(s.drop_last() =~= decimal_text(n / 10));
    } else {
        assert(s.drop_last() =~= Seq::empty());
    }
}

proof fn lemma_digits_grow(s: Seq<char>, i: int)
    requires
        0 <= i <= s.len(),
    ensures
        digits_value(s.take(i)) is None ==> digits_value(s) is None,
        digits_value(s) is Some ==> digits_value(s.take(i)) is Some && digits_value(s.take(i))->0
            <= digits_value(s)->0,
    decreases s.len() - i,
{
    if i == s.len() {
        assert(s.take(i) =~= s);
    } else {
        lemma_digits_grow(s, i + 1);
        assert(s.take(i + 1).drop_last() =~= s.take(i));
        assert(s.take(i + 1).last() == s[i]);
    }
}

fn parse_digits(chars: &Vec<char>, from: usize, max: u64) -> (r: Option<u64>)
    requires
        from <= chars.len(),
    ensures
        match r {
            Some(n) => digits_value(chars@.skip(from as int)) == Some(n as nat) && n <= max,
            None => digits_value(chars@.skip(from as int)) is None || digits_value(
                chars@.skip(from as int),
            )->0 > max,
        },
{
    let ghost s = chars@.skip(from as int);
    let mut n: u64 = 0;
    let mut i: usize = from;
    while i < chars.len()
        invariant
            from <= i <= chars.len(),
            s == chars@.skip(from as int),
            digits_value(s.take(i - from)) == Some(n as nat),
            n <= max,
        decreases chars.len() - i,
    {
        let c = chars[i];
        proof {
            assert(s.take(i - from + 1).drop_last() =~= s.take(i - from));
            assert(s.take(i - from + 1).last() == c);
            lemma_digits_grow(s, i - from + 1);
        }
        if !('0' <= c && c <= '9') {
            return None;
        }
        let next: u128 = 10 * (n as u128) + (c as u128 - 48);
        if next > max as u128 {
            return None;
        }
        n = next as u64;
        i += 1;
    }
    proof {
        assert(s.take(i - from) =~= s);
    }
    Some(n)
}

/// Reads an unsigned decimal number that does not exceed `max`.
pub fn parse_up_to(text: &str, max: u64) -> (r: Option<u64>)
    ensures
        match r {
            Some(n) => parsed(text@, max as nat) == Some(n as nat),
            None => parsed(text@, max as nat) is None,
        },
{
    let chars = chars_of(text);
    if chars.len() == 0 {
        return None;
    }
    proof {
        assert(chars@.skip(0) =~= chars@);
    }
    if chars[0] == '+' {
        if chars.len() == 1 {
            None
        } else {
            parse_digits(&chars, 1, max)
        }
    } else {
        parse_digits(&chars, 0, max)
    }
}

/// Reads a `u32` as `str::parse` does.
pub fn parse_u32(text: &str) -> (r: Option<u32>)
    ensures
        match r {
            Some(n) => parsed(text@, u32::MAX as nat) == Some(n as nat),
            None => parsed(text@, u32::MAX as nat) is None,
        },
{
    match parse_up_to(text, u32::MAX as u64) {
        Some(n) => Some(n as u32),
        None => None,
    }
}

// ---------------------------------------------------------------- searching and cutting

/// Whether `text` begins with `prefix`.
pub fn starts_with(text: &str, prefix: &str) -> (r: bool)
    ensures
        r == prefix@.is_prefix_of(text@),
{
    let a = chars_of(text);
    let b = chars_of(prefix);
    if b.len() > a.len() {
        return false;
    }
    let mut i: usize = 0;
    while i < b.len()
        invariant
            i <= b.len() <= a.len(),
            a@ == text@,
            b@ == prefix@,
            forall|j: int| 0 <= j < i ==> a@[j] == b@[j],
        decreases b.len() - i,
    {
        if a[i] != b[i] {
            assert(text@.subrange(0, prefix@.len() as int)[i as int] == a@[i as int]);
            return false;
        }
        i += 1;
    }
    assert(b@ =~= a@.subrange(0, b@.len() as int));
    true
}

/// What follows `prefix` in `text`, if the text begins with it.
pub fn strip_prefix(text: &str, prefix: &str) -> (r: Option<String>)
    ensures
        match r {
            Some(rest) => prefix@.is_prefix_of(text@) && rest@ == text@.skip(prefix@.len() as int),
            None => !prefix@.is_prefix_of(text@),
        },
{
    if starts_with(text, prefix) {
        let a = chars_of(text);
        let n: usize = chars_of(prefix).len();
        Some(text_of(&a, n, a.len()))
    } else {
        None
    }
}

/// Whether `needle` occurs somewhere in `text`.
pub open spec fn has_part(text: Seq<char>, needle: Seq<char>) -> bool {
    exists|i: int|
        0 <= i <= text.len() - needle.len() && #[trigger] text.subrange(i, i + needle.len())
            == needle
}

/// Whether `needle` occurs somewhere in `text`.
pub fn contains(text: &str, needle: &str) -> (r: bool)
    ensures
        r == has_part(text@, needle@),
{
    let a = chars_of(text);
    let b = chars_of(needle);
    if b.len() > a.len() {
        return false;
    }
    let last: usize = a.len() - b.len();
    let mut i: usize = 0;
    loop
        invariant
            i <= last,
            last == a.len() - b.len(),
            a@ == text@,
            b@ == needle@,
            forall|k: int| 0 <= k < i ==> #[trigger] a@.subrange(k, k + b.len()) != b@,
        decreases last - i,
    {
        let mut j: usize = 0;
        while j < b.len() && a[i + j] == b[j]
            invariant
                i <= last,
                last == a.len() - b.len(),
                j <= b.len(),
                forall|k: int| 0 <= k < j ==> a@[i + k] == b@[k],
            decreases b.len() - j,
        {
            j += 1;
        }
        if j == b.len() {
            assert(a@.subrange(i as int, i + b.len()) =~= b@);
            return true;
        }
        assert(a@.subrange(i as int, i + b.len())[j as int] != b@[j as int]);
        if i == last {
            return false;
        }
        i += 1;
    }
}

/// The position of the first `c` in `s`, or the length of `s`.
pub open spec fn first_at(s: Seq<char>, c: char) -> int
    decreases s.len(),
{
    if s.len() == 0 {
        0
    } else if s[0] == c {
        0
    } else {
        1 + first_at(s.skip(1), c)
    }
}

/// The pieces of `s` between occurrences of `c`; one piece more than occurrences.
pub open spec fn split_on(s: Seq<char>, c: char) -> Seq<Seq<char>>
    decreases s.len(),
{
    if s.len() == 0 {
        seq![Seq::empty()]
    } else if s.last() == c {
        split_on(s.drop_last(), c).push(Seq::empty())
    } else {
        let before = split_on(s.drop_last(), c);
        before.drop_last().push(before.last().push(s.last()))
    }
}

pub proof fn lemma_split_some(s: Seq<char>, c: char)
    ensures
        split_on(s, c).len() >= 1,
    decreases s.len(),
{
    if s.len() > 0 {
        lemma_split_some(s.drop_last(), c);
    }
}

/// Splits `text` at every `c`.
pub fn split(text: &str, c: char) -> (r: Vec<String>)
    ensures
        texts(r@) == split_on(text@, c),
{
    let mut pieces: Vec<String> = Vec::new();
    let mut piece = String::new();
    let chars = chars_of(text);
    let mut i: usize = 0;
    proof {
        assert(texts(pieces@).push(piece@) =~= seq![Seq::<char>::empty()]);
        assert(text@.take(0) =~= Seq::<char>::empty());
    }
    while i < chars.len()
        invariant
            i <= chars.len(),
            chars@ == text@,
            texts(pieces@).push(piece@) == split_on(text@.take(i as int), c),
        decreases chars.len() - i,
    {
        let next = chars[i];
        proof {
            assert(text@.take(i + 1).drop_last() =~= text@.take(i as int));
            assert(text@.take(i + 1).last() == next);
            let before = split_on(text@.take(i as int), c);
            assert(before.last() == piece@);
            assert(before.drop_last() =~= texts(pieces@));
        }
        if next == c {
            let ghost done = pieces@;
            pieces.push(piece);
            proof {
                assert(texts(pieces@) =~= texts(done).push(piece@));
            }
            piece = String::new();
        } else {
            piece.push(next);
        }
        i += 1;
    }
    let ghost done = pieces@;
    pieces.push(piece);
    proof {
        assert(texts(pieces@) =~= texts(done).push(piece@));
        assert(text@.take(i as int) =~= text@);
    }
    pieces
}

/// The characters that count as white space: those with Unicode's `White_Space` property.
pub open spec fn is_space(c: char) -> bool {
    ||| 0x09 <= c as u32 <= 0x0d
    ||| c as u32 == 0x20
    ||| c as u32 == 0x85
    ||| c as u32 == 0xa0
    ||| c as u32 == 0x1680
    ||| 0x2000 <= c as u32 <= 0x200a
    ||| c as u32 == 0x2028
    ||| c as u32 == 0x2029
    ||| c as u32 == 0x202f
    ||| c as u32 == 0x205f
    ||| c as u32 == 0x3000
}

fn white(c: char) -> (r: bool)
    ensures
        r == is_space(c),
{
    let n: u32 = c as u32;
    (0x09 <= n && n <= 0x0d) || n == 0x20 || n == 0x85 || n == 0xa0 || n == 0x1680 || (0x2000 <= n
        && n <= 0x200a) || n == 0x2028 || n == 0x2029 || n == 0x202f || n == 0x205f || n == 0x3000
}

/// `s` without leading white space.
pub open spec fn trim_front(s: Seq<char>) -> Seq<char>
    decreases s.len(),
{
    if s.len() > 0 && is_space(s[0]) {
        trim_front(s.skip(1))
    } else {
        s
    }
}

/// `s` without trailing white space.
pub open spec fn trim_back(s: Seq<char>) -> Seq<char>
    decreases s.len(),
{
    if s.len() > 0 && is_space(s.last()) {
        trim_back(s.drop_last())
    } else {
        s
    }
}

/// `s` without white space at either end.
pub open spec fn trimmed(s: Seq<char>) -> Seq<char> {
    trim_back(trim_front(s))
}

/// The number of leading white space characters.
fn leading(chars: &Vec<char>) -> (r: usize)
    ensures
        r <= chars.len(),
        trim_front(chars@) == chars@.skip(r as int),
{
    let mut from: usize = 0;
    proof {
        assert(chars@.skip(0) =~= chars@);
    }
    while from < chars.len() && white(chars[from])
        invariant
            from <= chars.len(),
            trim_front(chars@) == trim_front(chars@.skip(from as int)),
        decreases chars.len() - from,
    {
        proof {
            assert(chars@.skip(from as int)[0] == chars@[from as int]);
            assert(chars@.skip(from as int).skip(1) =~= chars@.skip(from + 1));
        }
        from += 1;
    }
    from
}

/// The length of `chars[from..]` without trailing white space.
fn kept(chars: &Vec<char>, from: usize) -> (to: usize)
    requires
        from <= chars.len(),
    ensures
        from <= to <= chars.len(),
        trim_back(chars@.skip(from as int)) == chars@.subrange(from as int, to as int),
{
    let ghost s = chars@.skip(from as int);
    let mut to: usize = chars.len();
    proof {
        assert(s.take(to - from) =~= s);
    }
    while to > from && white(chars[to - 1])
        invariant
            from <= to <= chars.len(),
            s == chars@.skip(from as int),
            trim_back(s) == trim_back(s.take(to - from)),
        decreases to,
    {
        proof {
            assert(s.take(to - from).last() == chars@[to - 1]);
            assert(s.take(to - from).drop_last() =~= s.take(to - from - 1));
        }
        to -= 1;
    }
    proof {
        if to > from {
            assert(s.take(to - from).last() == chars@[to - 1]);
        }
        assert(s.take(to - from) =~= chars@.subrange(from as int, to as int));
    }
    to
}

/// `text` without white space at either end.
pub fn trim(text: &str) -> (r: String)
    ensures
        r@ == trimmed(text@),
{
    let chars = chars_of(text);
    let from: usize = leading(&chars);
    let to: usize = kept(&chars, from);
    text_of(&chars, from, to)
}

/// The lower-case form of an ASCII capital; any other character stays.
pub open spec fn lower_char(c: char) -> char {
    if 'A' <= c && c <= 'Z' {
        (c as u32 + 32) as char
    } else {
        c
    }
}

/// `s` with its ASCII capitals in lower case.
pub open spec fn lowered(s: Seq<char>) -> Seq<char> {
    s.map_values(|c: char| lower_char(c))
}

fn lower_one(c: char) -> (r: char)
    ensures
        r == lower_char(c),
{
    if 'A' <= c && c <= 'Z' {
        (c as u8 + 32) as char
    } else {
        c
    }
}

/// `text` with its ASCII capitals in lower case.
pub fn ascii_lower(text: &str) -> (r: String)
    ensures
        r@ == lowered(text@),
{
    let chars = chars_of(text);
    let mut out = String::new();
    let mut i: usize = 0;
    while i < chars.len()
        invariant
            i <= chars.len(),
            out@ == lowered(chars@.take(i as int)),
        decreases chars.len() - i,
    {
        out.push(lower_one(chars[i]));
        i += 1;
        proof {
            assert(out@ =~= lowered(chars@.take(i as int)));
        }
    }
    proof {
        assert(chars@.take(i as int) =~= chars@);
    }
    out
}

/// The lower-case form of a text, by Unicode's rules.
pub uninterp spec fn lowercase(s: Seq<char>) -> Seq<char>;

/// Whether a text holds ASCII characters only.
pub open spec fn plain_ascii(s: Seq<char>) -> bool {
    forall|i: int| 0 <= i < s.len() ==> (#[trigger] s[i] as u32) < 128
}

/// `str::to_lowercase`: a function of the text. In a text of ASCII characters only, each capital
/// gives way to its small letter and nothing else changes.
#[verifier::external_body]
pub(crate) fn to_lowercase(text: &str) -> (r: String)
    ensures
        r@ == lowercase(text@),
        plain_ascii(text@) ==> r@ == lowered(text@),
{
    text.to_lowercase()
}

/// The upper-case form of a character, by Unicode's rules; it may take more than one character.
pub uninterp spec fn uppercase_of(c: char) -> Seq<char>;

/// The upper-case form of an ASCII character.
pub open spec fn upper_char(c: char) -> char {
    if 'a' <= c && c <= 'z' {
        (c as u32 - 32) as char
    } else {
        c
    }
}

/// `char::to_uppercase`: a function of the character. A small ASCII letter gives its capital, and
/// every other ASCII character itself.
#[verifier::external_body]
pub(crate) fn to_uppercase(c: char) -> (r: String)
    ensures
        r@ == uppercase_of(c),
        (c as u32) < 128 ==> r@ == seq![upper_char(c)],
{
    c.to_uppercase().to_string()
}

/// `s` with every `from` replaced by `to`.
pub open spec fn replaced(s: Seq<char>, from: char, to: char) -> Seq<char> {
    s.map_values(|c: char| if c == from { to } else { c })
}

/// `text` with every `from` replaced by `to`.
pub fn replace(text: &str, from: char, to: char) -> (r: String)
    ensures
        r@ == replaced(text@, from, to),
{
    let chars = chars_of(text);
    let mut out = String::new();
    let mut i: usize = 0;
    while i < chars.len()
        invariant
            i <= chars.len(),
            out@ == replaced(chars@.take(i as int), from, to),
        decreases chars.len() - i,
    {
        let c = chars[i];
        out.push(if c == from { to } else { c });
        i += 1;
        proof {
            assert(out@ =~= replaced(chars@.take(i as int), from, to));
        }
    }
    proof {
        assert(chars@.take(i as int) =~= chars@);
    }
    out
}

/// The texts of `parts` with `separator` between neighbours.
pub open spec fn joined_by(parts: Seq<Seq<char>>, separator: Seq<char>) -> Seq<char>
    decreases parts.len(),
{
    if parts.len() == 0 {
        Seq::empty()
    } else if parts.len() == 1 {
        parts[0]
    } else {
        joined_by(parts.drop_last(), separator) + separator + parts.last()
    }
}

/// Joins `parts` with `separator` between neighbours.
pub fn join(parts: &Vec<String>, separator: &str) -> (r: String)
    ensures
        r@ == joined_by(texts(parts@), separator@),
{
    let mut out = String::new();
    let mut i: usize = 0;
    while i < parts.len()
        invariant
            i <= parts.len(),
            out@ == joined_by(texts(parts@).take(i as int), separator@),
        decreases parts.len() - i,
    {
        proof {
            assert(texts(parts@).take(i + 1).drop_last() =~= texts(parts@).take(i as int));
            assert(texts(parts@).take(i + 1).last() == parts@[i as int]@);
            assert(Seq::<char>::empty() + parts@[i as int]@ =~= parts@[i as int]@);
        }
        if i > 0 {
            out.append(separator);
        }
        out.append(&parts[i]);
        i += 1;
    }
    proof {
        assert(texts(parts@).take(i as int) =~= texts(parts@));
    }
    out
}

// ---------------------------------------------------------------- order

/// Whether `a` stands before `b` by the order of their characters.
pub open spec fn text_before(a: Seq<char>, b: Seq<char>) -> bool
    decreases a.len(),
{
    if b.len() == 0 {
        false
    } else if a.len() == 0 {
        true
    } else if a[0] != b[0] {
        (a[0] as u32) < (b[0] as u32)
    } else {
        text_before(a.skip(1), b.skip(1))
    }
}

/// Whether `a` stands before `b` by the order of their characters.
pub fn before(a: &str, b: &str) -> (r: bool)
    ensures
        r == text_before(a@, b@),
{
    let x = chars_of(a);
    let y = chars_of(b);
    let mut i: usize = 0;
    proof {
        assert(x@.skip(0) =~= x@);
        assert(y@.skip(0) =~= y@);
    }
    loop
        invariant
            i <= x.len(),
            i <= y.len(),
            x@ == a@,
            y@ == b@,
            text_before(x@, y@) == text_before(x@.skip(i as int), y@.skip(i as int)),
        decreases x.len() - i,
    {
        proof {
            if i < x.len() && i < y.len() {
                assert(x@.skip(i as int)[0] == x@[i as int]);
                assert(y@.skip(i as int)[0] == y@[i as int]);
                assert(x@.skip(i as int).skip(1) =~= x@.skip(i + 1));
                assert(y@.skip(i as int).skip(1) =~= y@.skip(i + 1));
            }
        }
        if i == y.len() {
            return false;
        }
        if i == x.len() {
            return true;
        }
        if x[i] != y[i] {
            return (x[i] as u32) < (y[i] as u32);
        }
        i += 1;
    }
}

/// Whether a text stands somewhere in another: at its beginning, at its end or in the middle.
pub open spec fn stands_in(part: Seq<char>, text: Seq<char>) -> bool {
    exists|before: Seq<char>, after: Seq<char>| #[trigger] (before + part + after) == text
}

pub(crate) proof fn lemma_has_part(text: Seq<char>, part: Seq<char>)
    ensures
        has_part(text, part) <==> stands_in(part, text),
{
    if has_part(text, part) {
        let i = choose|i: int|
            0 <= i <= text.len() - part.len() && #[trigger] text.subrange(i, i + part.len())
                == part;
        assert(text.take(i) + part + text.skip(i + part.len()) =~= text);
    }
    if stands_in(part, text) {
        let (before, after) = choose|before: Seq<char>, after: Seq<char>| #[trigger]
            (before + part + after) == text;
        assert(text.subrange(
            before.len() as int,
            before.len() + part.len() as int,
        ) =~= part);
    }
}

proof fn lemma_trim_front(s: Seq<char>)
    ensures
        exists|n: int|
            0 <= n <= s.len() && #[trigger] s.skip(n) == trim_front(s) && forall|i: int|
                0 <= i < n ==> is_space(#[trigger] s[i]),
        trim_front(s).len() > 0 ==> !is_space(trim_front(s)[0]),
    decreases s.len(),
{
    if s.len() > 0 && is_space(s[0]) {
        let rest = s.skip(1);
        lemma_trim_front(rest);
        let n = choose|n: int|
            0 <= n <= rest.len() && #[trigger] rest.skip(n) == trim_front(rest) && forall|i: int|
                0 <= i < n ==> is_space(#[trigger] rest[i]);
        assert(s.skip(n + 1) =~= rest.skip(n));
        assert forall|i: int| 0 <= i < n + 1 implies is_space(#[trigger] s[i]) by {
            if i > 0 {
                assert(rest[i - 1] == s[i]);
            }
        }
    } else {
        assert(s.skip(0) =~= s);
    }
}

proof fn lemma_trim_back(s: Seq<char>)
    ensures
        exists|n: int|
            0 <= n <= s.len() && #[trigger] s.take(n) == trim_back(s) && forall|i: int|
                n <= i < s.len() ==> is_space(#[trigger] s[i]),
        trim_back(s).len() > 0 ==> !is_space(trim_back(s).last()),
    decreases s.len(),
{
    if s.len() > 0 && is_space(s.last()) {
        let rest = s.drop_last();
        lemma_trim_back(rest);
        let n = choose|n: int|
            0 <= n <= rest.len() && #[trigger] rest.take(n) == trim_back(rest) && forall|i: int|
                n <= i < rest.len() ==> is_space(#[trigger] rest[i]);
        assert(s.take(n) =~= rest.take(n));
        assert forall|i: int| n <= i < s.len() implies is_space(#[trigger] s[i]) by {
            if i < rest.len() {
                assert(rest[i] == s[i]);
            }
        }
    } else {
        assert(s.take(s.len() as int) =~= s);
    }
}

/// Trimming takes white space off both ends and nothing else, until neither end is white space.
pub proof fn law_trimming_takes_off_white_space(s: Seq<char>)
    ensures
        exists|i: int, j: int|
            0 <= i <= j <= s.len() && #[trigger] s.subrange(i, j) == trimmed(s) && (forall|k: int|
                0 <= k < i ==> is_space(#[trigger] s[k])) && (forall|k: int|
                j <= k < s.len() ==> is_space(#[trigger] s[k])),
        trimmed(s).len() > 0 ==> !is_space(trimmed(s)[0]) && !is_space(trimmed(s).last()),
{
    lemma_trim_front(s);
    let front = trim_front(s);
    let i = choose|n: int|
        0 <= n <= s.len() && #[trigger] s.skip(n) == front && forall|i: int|
            0 <= i < n ==> is_space(#[trigger] s[i]);
    lemma_trim_back(front);
    let n = choose|n: int|
        0 <= n <= front.len() && #[trigger] front.take(n) == trim_back(front) && forall|i: int|
            n <= i < front.len() ==> is_space(#[trigger] front[i]);
    assert(s.subrange(i, i + n) =~= front.take(n));
    assert forall|k: int| i + n <= k < s.len() implies is_space(#[trigger] s[k]) by {
        assert(front[k - i] == s[k]);
    }
    if trimmed(s).len() > 0 {
        assert(trimmed(s)[0] == front[0]);
    }
}

/// Pieces of a text that is split have the separator nowhere in them, and put together again with it
/// they are the text.
pub proof fn law_splitting_loses_nothing(s: Seq<char>, c: char)
    ensures
        split_on(s, c).len() >= 1,
        joined_by(split_on(s, c), seq![c]) == s,
        forall|i: int, k: int|
            0 <= i < split_on(s, c).len() && 0 <= k < split_on(s, c)[i].len() ==> #[trigger] split_on(
                s,
                c,
            )[i][k] != c,
    decreases s.len(),
{
    let pieces = split_on(s, c);
    if s.len() == 0 {
        assert(joined_by(pieces, seq![c]) == pieces[0]);
        assert(pieces[0] =~= s);
    } else {
        let rest = s.drop_last();
        law_splitting_loses_nothing(rest, c);
        let before = split_on(rest, c);
        if s.last() == c {
            assert(pieces.drop_last() =~= before);
            assert(joined_by(pieces, seq![c]) =~= rest + seq![c] + Seq::<char>::empty());
            assert(rest + seq![c] =~= s);
        } else {
            assert(pieces.drop_last() =~= before.drop_last());
            assert(pieces.last() == before.last().push(s.last()));
            if before.len() == 1 {
                assert(pieces =~= seq![before[0].push(s.last())]);
                assert(joined_by(pieces, seq![c]) =~= rest.push(s.last()));
            } else {
                assert(joined_by(pieces, seq![c]) =~= joined_by(before, seq![c]).push(s.last()));
            }
            assert(rest.push(s.last()) =~= s);
            assert forall|i: int, k: int|
                0 <= i < pieces.len() && 0 <= k < pieces[i].len() implies #[trigger] pieces[i][k]
                != c by {
                if i == pieces.len() - 1 {
                    if k < before.last().len() {
                        assert(before[i][k] == pieces[i][k]);
                    }
                } else {
                    assert(pieces[i] == before[i]);
                    assert(before[i][k] != c);
                }
            }
        }
    }
}

}
