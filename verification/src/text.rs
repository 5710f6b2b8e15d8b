//! Text primitives: decimal numbers, fields, lines and character tests.
use vstd::prelude::*;

verus! {

/// `String::push` appends one character to the end of the string.
pub assume_specification[ String::push ](s: &mut String, ch: char)
    ensures
        final(s)@ == old(s)@.push(ch),
;

// ---------------------------------------------------------------------------
// Views of text collections
// ---------------------------------------------------------------------------

/// The contents of a list of strings.
pub open spec fn strings(v: Seq<String>) -> Seq<Seq<char>> {
    v.map_values(|t: String| t@)
}

/// The contents of a list of character vectors.
pub open spec fn char_lists(v: Seq<Vec<char>>) -> Seq<Seq<char>> {
    v.map_values(|t: Vec<char>| t@)
}

/// The contents of an optional string.
pub open spec fn opt_text(text: Option<String>) -> Option<Seq<char>> {
    match text {
        Some(text) => Some(text@),
        None => None,
    }
}

/// Whether two optional texts hold the same characters.
pub fn same_opt_text(a: &Option<String>, b: &Option<String>) -> (same: bool)
    ensures
        same == (opt_text(*a) == opt_text(*b)),
{
    match (a, b) {
        (Some(a), Some(b)) => same_text(a.as_str(), b.as_str()),
        (None, None) => true,
        _ => false,
    }
}

/// A copy of an optional text.
pub fn clone_opt_text(a: &Option<String>) -> (copy: Option<String>)
    ensures
        copy == *a,
{
    match a {
        Some(text) => Some(text.clone()),
        None => None,
    }
}

/// Whether two texts hold the same characters.
pub fn same_text(a: &str, b: &str) -> (same: bool)
    ensures
        same == (a@ == b@),
{
    a.to_owned() == b.to_owned()
}

/// The characters of a text.
pub fn chars_of(s: &str) -> (chars: Vec<char>)
    ensures
        chars@ == s@,
{
    let mut chars: Vec<char> = Vec::new();
    for c in it: s.chars()
        invariant
            it.seq() == s@,
            chars@ == s@.take(it.index() as int),
    {
        chars.push(c);
    }
    assert(s@.take(s@.len() as int) =~= s@);
    chars
}

/// The text made of `chars`.
pub fn text_of(chars: &[char]) -> (s: String)
    ensures
        s@ == chars@,
{
    let mut s = String::new();
    let mut i: usize = 0;
    while i < chars.len()
        invariant
            i <= chars.len(),
            s@ == chars@.take(i as int),
        decreases chars.len() - i,
    {
        s.push(chars[i]);
        i += 1;
    }
    assert(chars@.take(chars@.len() as int) =~= chars@);
    s
}

/// Texts put together with `sep` between them.
pub open spec fn joined(parts: Seq<Seq<char>>, sep: Seq<char>) -> Seq<char>
    decreases parts.len(),
{
    if parts.len() == 0 {
        Seq::empty()
    } else if parts.len() == 1 {
        parts[0]
    } else {
        joined(parts.drop_last(), sep) + sep + parts.last()
    }
}

/// Puts texts together with `sep` between them.
pub fn join(parts: &[String], sep: &str) -> (text: String)
    ensures
        text@ == joined(strings(parts@), sep@),
{
    let mut text = String::new();
    let ghost views = strings(parts@);
    let mut i: usize = 0;
    assert(text@ =~= joined(views.take(0), sep@));
    while i < parts.len()
        invariant
            i <= parts.len(),
            views == strings(parts@),
            text@ == joined(views.take(i as int), sep@),
        decreases parts.len() - i,
    {
        assert(views.take(i + 1).drop_last() =~= views.take(i as int));
        assert(views[i as int] == parts@[i as int]@);
        if i > 0 {
            text.append(sep);
        }
        text.append(parts[i].as_str());
        assert(i == 0 ==> text@ =~= joined(views.take(1), sep@));
        i += 1;
    }
    assert(views.take(views.len() as int) =~= views);
    text
}

/// The text that bytes denote in UTF-8, with what is not UTF-8 replaced.
pub uninterp spec fn utf8_lossy(bytes: Seq<u8>) -> Seq<char>;

/// `String::from_utf8_lossy`: bytes read as UTF-8, where every sequence that is
/// not UTF-8 becomes the replacement character. The contract names the result and
/// says that ASCII bytes become the characters of their numbers.
#[verifier::external_body]
pub(crate) fn lossy_text(bytes: &[u8]) -> (text: String)
    ensures
        text@ == utf8_lossy(bytes@),
        (forall|i: int| 0 <= i < bytes.len() ==> #[trigger] bytes@[i] < 128) ==> text@ == Seq::new(
            bytes@.len(),
            |i: int| bytes@[i] as char,
        ),
{
    String::from_utf8_lossy(bytes).into_owned()
}

/// Calls `String::from_utf8`: bytes in UTF-8 become the text that they encode,
/// all others are refused.
#[verifier::external_body]
pub(crate) fn utf8_text(bytes: Vec<u8>) -> (text: Option<String>)
    ensures
        match text {
            Some(text) => vstd::utf8::valid_utf8(bytes@) && text@ == vstd::utf8::decode_utf8(
                bytes@,
            ),
            None => !vstd::utf8::valid_utf8(bytes@),
        },
{
    String::from_utf8(bytes).ok()
}

/// A text without the NUL characters at its end.
pub open spec fn without_nuls(s: Seq<char>) -> Seq<char>
    decreases s.len(),
{
    if s.len() > 0 && s.last() == '\0' {
        without_nuls(s.drop_last())
    } else {
        s
    }
}

/// Reads the text of a kernel attribute: bytes up to the NULs at their end.
pub fn cstr_lossy(bytes: &[u8]) -> (text: String)
    ensures
        text@ == without_nuls(utf8_lossy(bytes@)),
{
    let whole = lossy_text(bytes);
    let chars = chars_of(whole.as_str());
    let mut end: usize = chars.len();
    assert(chars@.subrange(0, end as int) =~= chars@);
    while end > 0 && chars[end - 1] == '\0'
        invariant
            end <= chars.len(),
            without_nuls(chars@) == without_nuls(chars@.subrange(0, end as int)),
        decreases end,
    {
        assert(chars@.subrange(0, end as int).drop_last() =~= chars@.subrange(0, end - 1));
        end -= 1;
    }
    let kept = copy_range(chars.as_slice(), 0, end);
    text_of(kept.as_slice())
}

// ---------------------------------------------------------------------------
// Decimal numbers
// ---------------------------------------------------------------------------

/// The character of a decimal digit.
pub open spec fn digit_char(d: nat) -> char {
    (48 + d) as char
}

/// `n` in decimal, without leading zeros.
pub open spec fn decimal(n: nat) -> Seq<char>
    decreases n,
{
    if n < 10 {
        seq![digit_char(n)]
    } else {
        decimal(n / 10).push(digit_char(n % 10))
    }
}

/// Appends `n` in decimal.
pub fn push_decimal(out: &mut String, n: u64)
    ensures
        final(out)@ == old(out)@ + decimal(n as nat),
    decreases n,
{
    if n < 10 {
        out.push((48u8 + n as u8) as char);
    } else {
        push_decimal(out, n / 10);
        out.push((48u8 + (n % 10) as u8) as char);
    }
}

/// `n` in decimal.
pub fn decimal_text(n: u64) -> (s: String)
    ensures
        s@ == decimal(n as nat),
{
    let mut s = String::new();
    push_decimal(&mut s, n);
    assert(Seq::<char>::empty() + decimal(n as nat) =~= decimal(n as nat));
    s
}

/// Whether `c` is one of `0` to `9`.
pub open spec fn is_digit(c: char) -> bool {
    '0' <= c <= '9'
}

/// Whether every character of `s` is a digit.
pub open spec fn all_digits(s: Seq<char>) -> bool {
    forall|i: int| 0 <= i < s.len() ==> is_digit(#[trigger] s[i])
}

/// The number that a run of digits denotes.
pub open spec fn digits_value(s: Seq<char>) -> nat
    decreases s.len(),
{
    if s.len() == 0 {
        0
    } else {
        digits_value(s.drop_last()) * 10 + (s.last() as nat - 48) as nat
    }
}

/// The unsigned number that a text denotes: digits after an optional plus sign.
pub open spec fn unsigned_value(s: Seq<char>) -> Option<nat> {
    let digits = if s.len() > 0 && s[0] == '+' {
        s.skip(1)
    } else {
        s
    };
    if digits.len() > 0 && all_digits(digits) {
        Some(digits_value(digits))
    } else {
        None
    }
}

/// The unsigned number that a text denotes, if it is at most `max`.
pub open spec fn bounded_value(s: Seq<char>, max: u64) -> Option<u64> {
    match unsigned_value(s) {
        Some(n) if n <= max => Some(n as u64),
        _ => None,
    }
}

/// The number that a run of digits denotes, if it is at most `max`.
pub open spec fn digits_bounded(s: Seq<char>, max: u64) -> Option<u64> {
    if s.len() > 0 && s[0] == '+' {
        None
    } else {
        bounded_value(s, max)
    }
}

/// Reads a run of digits that denotes at most `max`.
pub fn parse_digits(chars: &[char], max: u64) -> (value: Option<u64>)
    ensures
        value == digits_bounded(chars@, max),
{
    if chars.len() > 0 && chars[0] == '+' {
        None
    } else {
        parse_bounded(chars, max)
    }
}

/// Reads an unsigned decimal number that is at most `max`.
pub fn parse_bounded(chars: &[char], max: u64) -> (value: Option<u64>)
    ensures
        value == bounded_value(chars@, max),
{
    let start: usize = if chars.len() > 0 && chars[0] == '+' {
        1
    } else {
        0
    };
    let ghost digits = if chars@.len() > 0 && chars@[0] == '+' {
        chars@.skip(1)
    } else {
        chars@
    };
    if start == chars.len() {
        return None;
    }
    let mut i: usize = start;
    let mut value: u64 = 0;
    let mut overflow: bool = false;
    while i < chars.len()
        invariant
            start <= i <= chars.len(),
            start < chars.len(),
            start == if chars@.len() > 0 && chars@[0] == '+' { 1int } else { 0int },
            digits == if chars@.len() > 0 && chars@[0] == '+' { chars@.skip(1) } else { chars@ },
            digits.len() == chars.len() - start,
            forall|j: int| 0 <= j < i - start ==> is_digit(#[trigger] digits[j]),
            !overflow ==> value == digits_value(digits.take(i - start)) && value <= max,
            overflow ==> digits_value(digits.take(i - start)) > max,
        decreases chars.len() - i,
    {
        let c = chars[i];
        assert(digits[i - start] == c);
        if !(c >= '0' && c <= '9') {
            assert(!is_digit(digits[i - start]));
            assert(!all_digits(digits));
            return None;
        }
        assert(digits.take(i - start + 1).drop_last() =~= digits.take(i - start));
        let d: u32 = c as u32 - 48;
        if !overflow {
            let next: u128 = value as u128 * 10 + d as u128;
            if next > max as u128 {
                overflow = true;
            } else {
                value = next as u64;
            }
        }
        i += 1;
    }
    assert(digits.take(digits.len() as int) =~= digits);
    if overflow {
        None
    } else {
        Some(value)
    }
}

// ---------------------------------------------------------------------------
// Character classes
// ---------------------------------------------------------------------------

/// The Unicode `White_Space` property.
pub open spec fn white_space(c: char) -> bool {
    ||| 0x09 <= c as nat <= 0x0d
    ||| c as nat == 0x20
    ||| c as nat == 0x85
    ||| c as nat == 0xa0
    ||| c as nat == 0x1680
    ||| 0x2000 <= c as nat <= 0x200a
    ||| c as nat == 0x2028
    ||| c as nat == 0x2029
    ||| c as nat == 0x202f
    ||| c as nat == 0x205f
    ||| c as nat == 0x3000
}

/// Whether `c` is white space.
pub fn is_white_space(c: char) -> (b: bool)
    ensures
        b == white_space(c),
{
    let n: u32 = c as u32;
    (0x09 <= n && n <= 0x0d) || n == 0x20 || n == 0x85 || n == 0xa0 || n == 0x1680 || (0x2000 <= n
        && n <= 0x200a) || n == 0x2028 || n == 0x2029 || n == 0x202f || n == 0x205f || n == 0x3000
}

/// `c` with an ASCII capital letter made small.
pub open spec fn ascii_lower(c: char) -> char {
    if 'A' <= c <= 'Z' {
        (c as nat + 32) as char
    } else {
        c
    }
}

/// A text with its ASCII capital letters made small.
pub open spec fn lower(s: Seq<char>) -> Seq<char> {
    s.map_values(|c: char| ascii_lower(c))
}

/// `c` with an ASCII capital letter made small.
pub fn lower_char(c: char) -> (l: char)
    ensures
        l == ascii_lower(c),
{
    if c >= 'A' && c <= 'Z' {
        (c as u8 + 32) as char
    } else {
        c
    }
}

/// The characters with ASCII capital letters made small.
pub fn lower_chars(chars: &[char]) -> (out: Vec<char>)
    ensures
        out@ == lower(chars@),
{
    let mut out: Vec<char> = Vec::new();
    let mut i: usize = 0;
    while i < chars.len()
        invariant
            i <= chars.len(),
            out@ == lower(chars@.take(i as int)),
        decreases chars.len() - i,
    {
        out.push(lower_char(chars[i]));
        i += 1;
        assert(out@ =~= lower(chars@.take(i as int)));
    }
    assert(chars@.take(chars@.len() as int) =~= chars@);
    out
}

// ---------------------------------------------------------------------------
// Trimming and splitting
// ---------------------------------------------------------------------------

/// A text without the white space at its start.
pub open spec fn trim_start(s: Seq<char>) -> Seq<char>
    decreases s.len(),
{
    if s.len() > 0 && white_space(s[0]) {
        trim_start(s.skip(1))
    } else {
        s
    }
}

/// A text without the white space at its end.
pub open spec fn trim_end(s: Seq<char>) -> Seq<char>
    decreases s.len(),
{
    if s.len() > 0 && white_space(s.last()) {
        trim_end(s.drop_last())
    } else {
        s
    }
}

/// A text without the white space around it.
pub open spec fn trimmed(s: Seq<char>) -> Seq<char> {
    trim_end(trim_start(s))
}

/// The characters without the white space around them.
pub fn trim(chars: &[char]) -> (out: Vec<char>)
    ensures
        out@ == trimmed(chars@),
{
    let mut start: usize = 0;
    assert(chars@.skip(0) =~= chars@);
    while start < chars.len() && is_white_space(chars[start])
        invariant
            start <= chars.len(),
            trim_start(chars@) == trim_start(chars@.skip(start as int)),
        decreases chars.len() - start,
    {
        assert(chars@.skip(start as int).skip(1) =~= chars@.skip(start + 1));
        start += 1;
    }
    let ghost rest = chars@.skip(start as int);
    assert(trim_start(rest) == rest);
    let mut end: usize = chars.len();
    assert(rest =~= chars@.subrange(start as int, end as int));
    while start < end && is_white_space(chars[end - 1])
        invariant
            start <= end <= chars.len(),
            trim_end(rest) == trim_end(chars@.subrange(start as int, end as int)),
        decreases end,
    {
        assert(chars@.subrange(start as int, end as int).drop_last() =~= chars@.subrange(
            start as int,
            end - 1,
        ));
        end -= 1;
    }
    copy_range(chars, start, end)
}

/// A text without the white space around it.
pub fn trim_text(s: &str) -> (out: String)
    ensures
        out@ == trimmed(s@),
{
    let chars = chars_of(s);
    let kept = trim(chars.as_slice());
    text_of(kept.as_slice())
}

/// A text with its ASCII capital letters made small.
pub fn lower_text(s: &str) -> (out: String)
    ensures
        out@ == lower(s@),
{
    let chars = chars_of(s);
    let small = lower_chars(chars.as_slice());
    text_of(small.as_slice())
}

/// Whether a list of strings holds a text.
pub fn has_text(list: &[String], text: &str) -> (b: bool)
    ensures
        b == strings(list@).contains(text@),
{
    let ghost views = strings(list@);
    let mut i: usize = 0;
    while i < list.len()
        invariant
            i <= list.len(),
            views == strings(list@),
            forall|j: int| 0 <= j < i ==> views[j] != text@,
        decreases list.len() - i,
    {
        assert(views[i as int] == list@[i as int]@);
        if same_text(list[i].as_str(), text) {
            return true;
        }
        i += 1;
    }
    false
}

/// Whether two lists hold the same texts.
pub fn same_texts(a: &[String], b: &[String]) -> (same: bool)
    ensures
        same == (strings(a@) == strings(b@)),
{
    let ghost va = strings(a@);
    let ghost vb = strings(b@);
    assert(va.len() == a@.len() && vb.len() == b@.len());
    if a.len() != b.len() {
        return false;
    }
    let mut i: usize = 0;
    while i < a.len()
        invariant
            i <= a.len(),
            a.len() == b.len(),
            va == strings(a@),
            vb == strings(b@),
            forall|j: int| 0 <= j < i ==> va[j] == vb[j],
        decreases a.len() - i,
    {
        assert(va[i as int] == a@[i as int]@ && vb[i as int] == b@[i as int]@);
        if !same_text(a[i].as_str(), b[i].as_str()) {
            return false;
        }
        i += 1;
    }
    assert(va =~= vb);
    true
}

/// A copy of a list of strings.
pub fn clone_texts(list: &[String]) -> (copy: Vec<String>)
    ensures
        copy@ == list@,
{
    let mut copy: Vec<String> = Vec::new();
    let mut i: usize = 0;
    while i < list.len()
        invariant
            i <= list.len(),
            copy@ == list@.take(i as int),
        decreases list.len() - i,
    {
        copy.push(list[i].clone());
        i += 1;
        assert(copy@ =~= list@.take(i as int));
    }
    assert(list@.take(list@.len() as int) =~= list@);
    copy
}

/// The characters from `start` up to `end`.
pub fn copy_range(chars: &[char], start: usize, end: usize) -> (out: Vec<char>)
    requires
        start <= end <= chars.len(),
    ensures
        out@ == chars@.subrange(start as int, end as int),
{
    let mut out: Vec<char> = Vec::new();
    let mut i: usize = start;
    while i < end
        invariant
            start <= i <= end <= chars.len(),
            out@ == chars@.subrange(start as int, i as int),
        decreases end - i,
    {
        out.push(chars[i]);
        i += 1;
        assert(out@ =~= chars@.subrange(start as int, i as int));
    }
    out
}

/// The pieces of a text between occurrences of `sep`; there is always one.
pub open spec fn pieces(s: Seq<char>, sep: char) -> Seq<Seq<char>>
    decreases s.len(),
{
    if s.len() == 0 {
        seq![Seq::<char>::empty()]
    } else {
        let before = pieces(s.drop_last(), sep);
        if s.last() == sep {
            before.push(Seq::<char>::empty())
        } else {
            before.drop_last().push(before.last().push(s.last()))
        }
    }
}

/// Splits at every occurrence of `sep`.
pub fn split_on(chars: &[char], sep: char) -> (out: Vec<Vec<char>>)
    ensures
        char_lists(out@) == pieces(chars@, sep),
        out.len() > 0,
{
    let mut out: Vec<Vec<char>> = Vec::new();
    let mut piece: Vec<char> = Vec::new();
    let mut i: usize = 0;
    assert(char_lists(out@).push(piece@) =~= pieces(chars@.take(0), sep));
    while i < chars.len()
        invariant
            i <= chars.len(),
            char_lists(out@).push(piece@) == pieces(chars@.take(i as int), sep),
        decreases chars.len() - i,
    {
        let c = chars[i];
        let ghost before = pieces(chars@.take(i as int), sep);
        assert(chars@.take(i + 1).drop_last() =~= chars@.take(i as int));
        assert(before.drop_last() =~= char_lists(out@));
        if c == sep {
            out.push(piece);
            piece = Vec::new();
            assert(char_lists(out@).push(piece@) =~= before.push(Seq::<char>::empty()));
        } else {
            piece.push(c);
        }
        i += 1;
    }
    assert(chars@.take(chars@.len() as int) =~= chars@);
    let ghost last = piece@;
    let ghost kept = out@;
    out.push(piece);
    assert(char_lists(out@) =~= char_lists(kept).push(last));
    out
}

/// The runs of characters that are not white space.
pub open spec fn words(s: Seq<char>) -> Seq<Seq<char>>
    decreases s.len(),
{
    if s.len() == 0 {
        Seq::<Seq<char>>::empty()
    } else {
        let before = words(s.drop_last());
        if white_space(s.last()) {
            before
        } else if s.len() == 1 || white_space(s[s.len() - 2]) {
            before.push(seq![s.last()])
        } else {
            before.drop_last().push(before.last().push(s.last()))
        }
    }
}

/// Splits at white space, dropping empty pieces.
pub fn split_words(chars: &[char]) -> (out: Vec<Vec<char>>)
    ensures
        char_lists(out@) == words(chars@),
{
    let mut out: Vec<Vec<char>> = Vec::new();
    let mut word: Vec<char> = Vec::new();
    let mut i: usize = 0;
    assert(char_lists(out@) =~= words(chars@.take(0)));
    while i < chars.len()
        invariant
            i <= chars.len(),
            word.len() > 0 <==> (i > 0 && !white_space(chars@[i - 1])),
            word.len() == 0 ==> char_lists(out@) == words(chars@.take(i as int)),
            word.len() > 0 ==> char_lists(out@).push(word@) == words(chars@.take(i as int)),
        decreases chars.len() - i,
    {
        let c = chars[i];
        let ghost before = words(chars@.take(i as int));
        let ghost kept = out@;
        assert(chars@.take(i + 1).drop_last() =~= chars@.take(i as int));
        if is_white_space(c) {
            if word.len() > 0 {
                out.push(word);
                assert(char_lists(out@) =~= before);
            }
            word = Vec::new();
        } else {
            assert(word.len() > 0 ==> before.drop_last() =~= char_lists(out@));
            assert(word.len() == 0 ==> word@.push(c) =~= seq![c]);
            word.push(c);
        }
        i += 1;
    }
    assert(chars@.take(chars@.len() as int) =~= chars@);
    if word.len() > 0 {
        let ghost last = word@;
        let ghost kept = out@;
        out.push(word);
        assert(char_lists(out@) =~= char_lists(kept).push(last));
    }
    out
}

/// A line without the carriage return at its end.
pub open spec fn without_cr(s: Seq<char>) -> Seq<char> {
    if s.len() > 0 && s.last() == '\r' {
        s.drop_last()
    } else {
        s
    }
}

/// Lines without the carriage returns at their ends.
pub open spec fn without_crs(parts: Seq<Seq<char>>) -> Seq<Seq<char>> {
    parts.map_values(|p: Seq<char>| without_cr(p))
}

/// The lines of a text. A line ends in a newline, which may follow a carriage
/// return; the last line may lack its end.
pub open spec fn lines(s: Seq<char>) -> Seq<Seq<char>> {
    let parts = pieces(s, '\n');
    let ended = without_crs(parts.drop_last());
    if parts.last().len() > 0 {
        ended.push(parts.last())
    } else {
        ended
    }
}

/// Splits a text into its lines.
pub fn split_lines(chars: &[char]) -> (out: Vec<Vec<char>>)
    ensures
        char_lists(out@) == lines(chars@),
{
    let mut parts = split_on(chars, '\n');
    let ghost all = char_lists(parts@);
    let last = match parts.pop() {
        Some(last) => last,
        None => Vec::new(),
    };
    assert(char_lists(parts@) =~= all.drop_last());
    assert(last@ == all.last());
    let mut out: Vec<Vec<char>> = Vec::new();
    let mut i: usize = 0;
    while i < parts.len()
        invariant
            i <= parts.len(),
            all.len() == parts.len() + 1,
            char_lists(parts@) == all.drop_last(),
            char_lists(out@) == without_crs(all.drop_last().take(i as int)),
        decreases parts.len() - i,
    {
        let part = &parts[i];
        assert(part@ == char_lists(parts@)[i as int]);
        let n: usize = part.len();
        let end: usize = if n > 0 && part[n - 1] == '\r' {
            n - 1
        } else {
            n
        };
        let line = copy_range(part.as_slice(), 0, end);
        assert(line@ =~= without_cr(part@));
        let ghost kept = out@;
        out.push(line);
        assert(char_lists(out@) =~= char_lists(kept).push(without_cr(part@)));
        assert(without_crs(all.drop_last().take(i + 1)) =~= without_crs(
            all.drop_last().take(i as int),
        ).push(without_cr(part@)));
        i += 1;
    }
    assert(all.drop_last().take(all.len() - 1) =~= all.drop_last());
    if last.len() > 0 {
        let ghost kept = out@;
        out.push(last);
        assert(char_lists(out@) =~= char_lists(kept).push(all.last()));
    }
    out
}

// ---------------------------------------------------------------------------
// Searching
// ---------------------------------------------------------------------------

/// Whether `s` begins with `prefix`.
pub open spec fn starts_with(s: Seq<char>, prefix: Seq<char>) -> bool {
    prefix.len() <= s.len() && s.take(prefix.len() as int) == prefix
}

/// Whether `needle` stands in `s` at `at`.
pub open spec fn occurs_at(s: Seq<char>, needle: Seq<char>, at: int) -> bool {
    0 <= at <= s.len() && starts_with(s.skip(at), needle)
}

/// Whether `needle` stands anywhere in `s`.
pub open spec fn contains_text(s: Seq<char>, needle: Seq<char>) -> bool {
    exists|at: int| occurs_at(s, needle, at)
}

/// Whether the characters from `at` on begin with `needle`.
pub fn has_at(chars: &[char], at: usize, needle: &[char]) -> (b: bool)
    requires
        at <= chars.len(),
    ensures
        b == occurs_at(chars@, needle@, at as int),
{
    let ghost rest = chars@.skip(at as int);
    if needle.len() > chars.len() - at {
        return false;
    }
    let mut i: usize = 0;
    while i < needle.len()
        invariant
            i <= needle.len() <= chars.len() - at,
            at <= chars.len(),
            rest == chars@.skip(at as int),
            rest.take(i as int) == needle@.take(i as int),
        decreases needle.len() - i,
    {
        if chars[at + i] != needle[i] {
            assert(rest.take(needle@.len() as int)[i as int] != needle@[i as int]);
            return false;
        }
        i += 1;
        assert(rest.take(i as int) =~= needle@.take(i as int));
    }
    assert(needle@.take(needle@.len() as int) =~= needle@);
    true
}

/// The first place at which `needle` stands.
pub fn find_text(chars: &[char], needle: &[char]) -> (at: Option<usize>)
    ensures
        match at {
            Some(i) => occurs_at(chars@, needle@, i as int) && (forall|j: int|
                0 <= j < i ==> !occurs_at(chars@, needle@, j)),
            None => !contains_text(chars@, needle@),
        },
{
    let mut i: usize = 0;
    loop
        invariant
            i <= chars.len(),
            forall|j: int| 0 <= j < i ==> !occurs_at(chars@, needle@, j),
        decreases chars.len() - i,
    {
        if has_at(chars, i, needle) {
            return Some(i);
        }
        if i == chars.len() {
            return None;
        }
        i += 1;
    }
}

/// The first place of `c`.
pub open spec fn first_at(s: Seq<char>, c: char) -> Option<int>
    decreases s.len(),
{
    if s.len() == 0 {
        None
    } else {
        match first_at(s.drop_last(), c) {
            Some(i) => Some(i),
            None => if s.last() == c {
                Some(s.len() - 1)
            } else {
                None
            },
        }
    }
}

/// The last place of `c`.
pub open spec fn last_at(s: Seq<char>, c: char) -> Option<int>
    decreases s.len(),
{
    if s.len() == 0 {
        None
    } else if s.last() == c {
        Some(s.len() - 1)
    } else {
        last_at(s.drop_last(), c)
    }
}

proof fn lemma_first_stays(s: Seq<char>, c: char, n: int)
    requires
        0 <= n <= s.len(),
        first_at(s.take(n), c) is Some,
    ensures
        first_at(s, c) == first_at(s.take(n), c),
    decreases s.len() - n,
{
    if n < s.len() {
        assert(s.take(n + 1).drop_last() =~= s.take(n));
        lemma_first_stays(s, c, n + 1);
    } else {
        assert(s.take(n) =~= s);
    }
}

/// The first place of `c`.
pub fn find_first(chars: &[char], c: char) -> (at: Option<usize>)
    ensures
        match at {
            Some(i) => i < chars.len() && first_at(chars@, c) == Some(i as int),
            None => first_at(chars@, c) is None,
        },
{
    let mut i: usize = 0;
    while i < chars.len()
        invariant
            i <= chars.len(),
            first_at(chars@.take(i as int), c) is None,
        decreases chars.len() - i,
    {
        assert(chars@.take(i + 1).drop_last() =~= chars@.take(i as int));
        if chars[i] == c {
            proof {
                lemma_first_stays(chars@, c, i + 1);
            }
            return Some(i);
        }
        i += 1;
    }
    assert(chars@.take(chars@.len() as int) =~= chars@);
    None
}

/// The last place of `c`.
pub fn find_last(chars: &[char], c: char) -> (at: Option<usize>)
    ensures
        match at {
            Some(i) => i < chars.len() && last_at(chars@, c) == Some(i as int),
            None => last_at(chars@, c) is None,
        },
{
    let mut i: usize = chars.len();
    assert(chars@.take(i as int) =~= chars@);
    while i > 0
        invariant
            i <= chars.len(),
            last_at(chars@, c) == last_at(chars@.take(i as int), c),
        decreases i,
    {
        assert(chars@.take(i as int).drop_last() =~= chars@.take(i - 1));
        i -= 1;
        if chars[i] == c {
            return Some(i);
        }
    }
    None
}

// ---------------------------------------------------------------------------
// Laws
// ---------------------------------------------------------------------------

/// A text without white space at either end is trimmed already, and what is trimmed has
/// none there.
pub proof fn law_trimming_takes_the_ends(s: Seq<char>)
    ensures
        trimmed(s).len() > 0 ==> !white_space(trimmed(s)[0]) && !white_space(trimmed(s).last()),
        s.len() > 0 && !white_space(s[0]) && !white_space(s.last()) ==> trimmed(s) == s,
        trimmed(trimmed(s)) == trimmed(s),
{
    lemma_trim_start(s);
    lemma_trim_end(trim_start(s));
    let out = trimmed(s);
    if out.len() > 0 {
        assert(trim_start(out) == out);
        assert(trim_end(out) == out);
    } else {
        assert(trim_start(out) == out);
    }
}

proof fn lemma_trim_start(s: Seq<char>)
    ensures
        trim_start(s).len() > 0 ==> !white_space(trim_start(s)[0]),
    decreases s.len(),
{
    if s.len() > 0 && white_space(s[0]) {
        lemma_trim_start(s.skip(1));
    }
}

proof fn lemma_trim_end(s: Seq<char>)
    ensures
        trim_end(s).len() > 0 ==> !white_space(trim_end(s).last()) && s.len() > 0
            && trim_end(s)[0] == s[0],
    decreases s.len(),
{
    if s.len() > 0 && white_space(s.last()) {
        lemma_trim_end(s.drop_last());
    }
}

/// White space around a text makes no difference once it is trimmed.
pub proof fn law_white_space_around_is_ignored(s: Seq<char>, c: char)
    requires
        white_space(c),
    ensures
        trimmed(seq![c] + s) == trimmed(s),
        trimmed(s.push(c)) == trimmed(s),
{
    let front = seq![c] + s;
    assert(front[0] == c);
    assert(front.skip(1) =~= s);
    lemma_trim_pushed(s, c);
}

proof fn lemma_trim_pushed(s: Seq<char>, c: char)
    requires
        white_space(c),
    ensures
        trim_end(trim_start(s.push(c))) == trim_end(trim_start(s)),
    decreases s.len(),
{
    let more = s.push(c);
    if s.len() == 0 {
        assert(more[0] == c);
        assert(more.skip(1) =~= s);
    } else {
        assert(more[0] == s[0]);
        if white_space(s[0]) {
            assert(more.skip(1) =~= s.skip(1).push(c));
            lemma_trim_pushed(s.skip(1), c);
        } else {
            assert(more.last() == c);
            assert(more.drop_last() =~= s);
        }
    }
}

/// A blank, a tab and the ends of lines are white space; letters, digits and punctuation
/// are not.
pub proof fn law_white_space_is_blank(c: char)
    ensures
        c == ' ' || c == '\t' || c == '\n' || c == '\r' ==> white_space(c),
        '!' <= c <= '~' ==> !white_space(c),
{
}

/// Making letters small keeps the length and every character but the capital letters from
/// A to Z, which turn into the small letters from a to z in the same order.
pub proof fn law_small_letters_stand_for_capitals(s: Seq<char>, i: int)
    requires
        0 <= i < s.len(),
    ensures
        lower(s).len() == s.len(),
        'A' <= s[i] <= 'Z' ==> lower(s)[i] as nat - 'a' as nat == s[i] as nat - 'A' as nat,
        !('A' <= s[i] <= 'Z') ==> lower(s)[i] == s[i],
{
}

/// A number in decimal is made of digits, has no zero at its front unless it is zero, and
/// reads back as the number.
pub proof fn law_numbers_read_back(n: nat)
    ensures
        decimal(n).len() > 0,
        all_digits(decimal(n)),
        digits_value(decimal(n)) == n,
        decimal(n)[0] == '0' ==> n == 0,
        n < 10 ==> decimal(n).len() == 1,
        10 <= n < 100 ==> decimal(n).len() == 2,
        100 <= n < 1000 ==> decimal(n).len() == 3,
        decimal(n)[0] != '+',
    decreases n,
{
    if n < 10 {
        let s = decimal(n);
        assert(s.drop_last() =~= Seq::<char>::empty());
        reveal_with_fuel(digits_value, 2);
    } else {
        law_numbers_read_back(n / 10);
        let s = decimal(n);
        assert(s.drop_last() =~= decimal(n / 10));
        assert(s[0] == decimal(n / 10)[0]);
    }
}

/// A number in decimal is taken up to a bound; a plus sign ahead of it is taken where signs
/// are, and refused where only digits are.
pub proof fn law_bounded_numbers_are_taken(n: nat, max: u64)
    ensures
        n <= max ==> bounded_value(decimal(n), max) == Some(n as u64),
        n <= max ==> digits_bounded(decimal(n), max) == Some(n as u64),
        n > max ==> bounded_value(decimal(n), max) is None,
        n > max ==> digits_bounded(decimal(n), max) is None,
        n <= max ==> bounded_value(seq!['+'] + decimal(n), max) == Some(n as u64),
        digits_bounded(seq!['+'] + decimal(n), max) is None,
        bounded_value(seq!['-'] + decimal(n), max) is None,
        bounded_value(Seq::empty(), max) is None,
{
    law_numbers_read_back(n);
    assert((seq!['+'] + decimal(n)).skip(1) =~= decimal(n));
    let s = seq!['-'] + decimal(n);
    assert(s[0] == '-');
    assert(!is_digit(s[0]));
}

/// The first and the last place of a character hold it, and it is not before the one nor
/// behind the other.
pub proof fn law_places_are_found(s: Seq<char>, c: char)
    ensures
        match first_at(s, c) {
            Some(i) => 0 <= i < s.len() && s[i] == c && (forall|k: int|
                0 <= k < i ==> #[trigger] s[k] != c),
            None => forall|k: int| 0 <= k < s.len() ==> #[trigger] s[k] != c,
        },
        match last_at(s, c) {
            Some(i) => 0 <= i < s.len() && s[i] == c && (forall|k: int|
                i < k < s.len() ==> #[trigger] s[k] != c),
            None => forall|k: int| 0 <= k < s.len() ==> #[trigger] s[k] != c,
        },
    decreases s.len(),
{
    if s.len() > 0 {
        let front = s.drop_last();
        law_places_are_found(front, c);
        assert(forall|k: int| 0 <= k < front.len() ==> front[k] == #[trigger] s[k]);
        assert(s[s.len() - 1] == s.last());
    }
}

/// A text without the separator is one piece; behind a separator a new piece begins.
pub proof fn law_separators_part_pieces(s: Seq<char>, piece: Seq<char>, sep: char)
    requires
        !piece.contains(sep),
    ensures
        pieces(piece, sep) == seq![piece],
        pieces(s.push(sep) + piece, sep) == pieces(s, sep).push(piece),
{
    lemma_pieces_len(s.push(sep), sep);
    lemma_pieces_append(Seq::empty(), piece, sep);
    lemma_pieces_append(s.push(sep), piece, sep);
    assert(Seq::<char>::empty() + piece =~= piece);
    assert(pieces(Seq::empty(), sep) =~= seq![Seq::<char>::empty()]);
    assert(pieces(piece, sep) =~= seq![piece]);
    assert(s.push(sep).drop_last() =~= s);
    let before = pieces(s.push(sep), sep);
    assert(before.drop_last() =~= pieces(s, sep));
    assert(before.last() + piece =~= piece);
}

proof fn lemma_pieces_len(s: Seq<char>, sep: char)
    ensures
        pieces(s, sep).len() > 0,
    decreases s.len(),
{
    if s.len() > 0 {
        lemma_pieces_len(s.drop_last(), sep);
    }
}

proof fn lemma_pieces_append(s: Seq<char>, piece: Seq<char>, sep: char)
    requires
        !piece.contains(sep),
    ensures
        pieces(s, sep).len() > 0,
        pieces(s + piece, sep) == pieces(s, sep).drop_last().push(pieces(s, sep).last() + piece),
    decreases piece.len(),
{
    lemma_pieces_len(s, sep);
    if piece.len() == 0 {
        assert(s + piece =~= s);
        assert(pieces(s, sep).last() + piece =~= pieces(s, sep).last());
        assert(pieces(s, sep).drop_last().push(pieces(s, sep).last()) =~= pieces(s, sep));
    } else {
        let front = piece.drop_last();
        assert forall|k: int| 0 <= k < front.len() implies #[trigger] front[k] != sep by {
            assert(piece[k] == front[k]);
        }
        lemma_pieces_append(s, front, sep);
        let whole = s + piece;
        assert(whole.drop_last() =~= s + front);
        assert(whole.last() == piece.last());
        assert(piece[piece.len() - 1] == piece.last());
        let before = pieces(s + front, sep);
        assert(before.drop_last() =~= pieces(s, sep).drop_last());
        assert(before.last().push(piece.last()) =~= pieces(s, sep).last() + piece);
    }
}

/// A line that ends is read without its end, whether a newline or a carriage return and a
/// newline end it; so is a last line without an end.
pub proof fn law_lines_end_in_newlines(s: Seq<char>, line: Seq<char>)
    requires
        s.len() == 0 || s.last() == '\n',
        !line.contains('\n'),
        line.len() > 0 ==> line.last() != '\r',
    ensures
        lines(Seq::empty()) == Seq::<Seq<char>>::empty(),
        lines((s + line).push('\n')) == lines(s).push(line),
        lines((s + line).push('\r').push('\n')) == lines(s).push(line),
        line.len() > 0 ==> lines(s + line) == lines(s).push(line),
{
    lemma_lines_ended(s);
    assert(lines(Seq::empty()) =~= Seq::<Seq<char>>::empty());
    lemma_pieces_append(s, line, '\n');
    let parts = pieces(s, '\n');
    assert(parts.last() + line =~= line);
    let behind = pieces(s + line, '\n');
    assert(behind == parts.drop_last().push(line));
    let one = (s + line).push('\n');
    assert(one.drop_last() =~= s + line);
    assert(pieces(one, '\n').drop_last() =~= behind);
    assert(lines(one) =~= lines(s).push(line));
    let with_cr = line.push('\r');
    assert forall|k: int| 0 <= k < with_cr.len() implies #[trigger] with_cr[k] != '\n' by {
        if k < line.len() {
            assert(with_cr[k] == line[k]);
        }
    }
    lemma_pieces_append(s, with_cr, '\n');
    assert(s + with_cr =~= (s + line).push('\r'));
    assert(parts.last() + with_cr =~= with_cr);
    let two = (s + line).push('\r').push('\n');
    assert(two.drop_last() =~= s + with_cr);
    assert(pieces(two, '\n').drop_last() =~= parts.drop_last().push(with_cr));
    assert(with_cr.drop_last() =~= line);
    assert(lines(two) =~= lines(s).push(line));
    if line.len() > 0 {
        assert(behind.drop_last() =~= parts.drop_last());
        assert(lines(s + line) =~= lines(s).push(line));
    }
}

proof fn lemma_lines_ended(s: Seq<char>)
    requires
        s.len() == 0 || s.last() == '\n',
    ensures
        pieces(s, '\n').len() > 0,
        pieces(s, '\n').last().len() == 0,
        lines(s) == without_crs(pieces(s, '\n').drop_last()),
{
    lemma_pieces_len(s, '\n');
}

/// White space ends a word and makes none; behind white space a new word begins.
pub proof fn law_white_space_parts_words(s: Seq<char>, c: char, word: Seq<char>)
    requires
        white_space(c),
        word.len() > 0,
        forall|k: int| 0 <= k < word.len() ==> !white_space(#[trigger] word[k]),
    ensures
        words(Seq::empty()) == Seq::<Seq<char>>::empty(),
        words(s.push(c)) == words(s),
        words(word) == seq![word],
        words(s.push(c) + word) == words(s).push(word),
{
    assert(s.push(c).drop_last() =~= s);
    lemma_word_begins(Seq::empty(), word);
    assert(Seq::<char>::empty() + word =~= word);
    assert(words(word) =~= seq![word]);
    lemma_word_begins(s.push(c), word);
}

proof fn lemma_word_begins(s: Seq<char>, word: Seq<char>)
    requires
        s.len() > 0 ==> white_space(s.last()),
        word.len() > 0,
        forall|k: int| 0 <= k < word.len() ==> !white_space(#[trigger] word[k]),
    ensures
        words(s + word) == words(s).push(word),
    decreases word.len(),
{
    let whole = s + word;
    let front = word.drop_last();
    assert(whole.drop_last() =~= s + front);
    assert(whole.last() == word.last());
    assert(word[word.len() - 1] == word.last());
    if front.len() == 0 {
        assert(s + front =~= s);
        assert(seq![word.last()] =~= word);
        if s.len() > 0 {
            assert(whole[whole.len() - 2] == s.last());
        }
    } else {
        assert(forall|k: int| 0 <= k < front.len() ==> #[trigger] front[k] == word[k]);
        lemma_word_begins(s, front);
        assert(whole[whole.len() - 2] == word[word.len() - 2]);
        let before = words(s + front);
        assert(before.drop_last() =~= words(s));
        assert(before.last().push(word.last()) =~= word);
    }
}

/// Texts that are put together stand in their order, with the separator between any two.
pub proof fn law_joined_texts_stand_in_order(
    parts: Seq<Seq<char>>,
    sep: Seq<char>,
    part: Seq<char>,
)
    ensures
        joined(Seq::empty(), sep) == Seq::<char>::empty(),
        joined(seq![part], sep) == part,
        parts.len() > 0 ==> joined(parts.push(part), sep) == joined(parts, sep) + sep + part,
{
    assert(parts.push(part).drop_last() =~= parts);
}

/// A text is found in whatever holds it, and nowhere where it is longer.
pub proof fn law_texts_are_found(before: Seq<char>, text: Seq<char>, behind: Seq<char>)
    ensures
        contains_text(before + text + behind, text),
        starts_with(text + behind, text),
        text.len() > before.len() ==> !contains_text(before, text) && !starts_with(before, text),
{
    let whole = before + text + behind;
    let at = before.len() as int;
    assert(whole.skip(at).take(text.len() as int) =~= text);
    assert(occurs_at(whole, text, at));
    assert((text + behind).take(text.len() as int) =~= text);
}

/// Only the zero characters at the end of a text are dropped.
pub proof fn law_trailing_zeros_are_dropped(s: Seq<char>)
    ensures
        without_nuls(s.push('\0')) == without_nuls(s),
        s.len() == 0 || s.last() != '\0' ==> without_nuls(s) == s,
{
    assert(s.push('\0').drop_last() =~= s);
}

} // verus!
