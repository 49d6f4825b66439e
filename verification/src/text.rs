//! Text: the order of identifiers, decimal numbers, splitting and trimming.
//!
//! A text is a sequence of characters; an executable `String` or `&str` is
//! spoken of through its view.

use vstd::prelude::*;
use vstd::utf8::*;

verus! {

broadcast use vstd::string::group_string_axioms;

/// `String::push` appends one character to the text.
pub assume_specification[ String::push ](s: &mut String, c: char)
    ensures
        final(s)@ == old(s)@.push(c),
;

/// The texts that a sequence of strings holds.
pub open spec fn texts(strings: Seq<String>) -> Seq<Seq<char>> {
    Seq::new(strings.len(), |i: int| strings[i]@)
}

/// The text of an optional string.
pub open spec fn optional_text(value: Option<String>) -> Option<Seq<char>> {
    match value {
        Some(s) => Some(s@),
        None => None,
    }
}

/// The texts of an optional list of strings.
pub open spec fn optional_texts(value: Option<Vec<String>>) -> Option<Seq<Seq<char>>> {
    match value {
        Some(list) => Some(texts(list@)),
        None => None,
    }
}

/// Lexicographic order by code point.
pub open spec fn text_less(a: Seq<char>, b: Seq<char>) -> bool
    decreases a.len(),
{
    if b.len() == 0 {
        false
    } else if a.len() == 0 {
        true
    } else if a[0] != b[0] {
        (a[0] as int) < (b[0] as int)
    } else {
        text_less(a.drop_first(), b.drop_first())
    }
}

/// No text precedes itself.
pub proof fn text_less_irreflexive(a: Seq<char>)
    ensures
        !text_less(a, a),
    decreases a.len(),
{
    if a.len() > 0 {
        text_less_irreflexive(a.drop_first());
    }
}

/// Two texts are equal, or one precedes the other.
pub proof fn text_less_total(a: Seq<char>, b: Seq<char>)
    ensures
        a == b || text_less(a, b) || text_less(b, a),
    decreases a.len(),
{
    if a.len() > 0 && b.len() > 0 && a[0] == b[0] {
        text_less_total(a.drop_first(), b.drop_first());
        if a.drop_first() == b.drop_first() {
            assert(a =~= seq![a[0]] + a.drop_first());
            assert(b =~= seq![b[0]] + b.drop_first());
        }
    } else if a.len() == 0 && b.len() == 0 {
        assert(a =~= b);
    }
}

/// The order of texts is transitive.
pub proof fn text_less_transitive(a: Seq<char>, b: Seq<char>, c: Seq<char>)
    requires
        text_less(a, b),
        text_less(b, c),
    ensures
        text_less(a, c),
    decreases a.len(),
{
    if a.len() > 0 && b.len() > 0 && c.len() > 0 && a[0] == b[0] && b[0] == c[0] {
        text_less_transitive(a.drop_first(), b.drop_first(), c.drop_first());
    }
}

/// The characters of a text.
pub fn chars_of(s: &str) -> (chars: Vec<char>)
    ensures
        chars@ == s@,
{
    let mut chars: Vec<char> = Vec::new();
    for c in it: s.chars()
        invariant
            it.seq() == s@,
            chars@ == s@.take(it.index()),
    {
        proof {
            assert(s@.take(it.index() + 1) =~= s@.take(it.index()).push(s@[it.index()]));
        }
        chars.push(c);
    }
    proof {
        assert(s@.take(s@.len() as int) =~= s@);
    }
    chars
}

/// A string that holds the characters from `start` up to `end`.
pub fn string_of_range(chars: &[char], start: usize, end: usize) -> (s: String)
    requires
        start <= end <= chars@.len(),
    ensures
        s@ == chars@.subrange(start as int, end as int),
{
    let mut s = String::new();
    let mut i: usize = start;
    while i < end
        invariant
            start <= i <= end <= chars@.len(),
            s@ == chars@.subrange(start as int, i as int),
        decreases end - i,
    {
        proof {
            assert(chars@.subrange(start as int, i + 1) =~= chars@.subrange(
                start as int,
                i as int,
            ).push(chars@[i as int]));
        }
        s.push(chars[i]);
        i = i + 1;
    }
    s
}

/// Whether two texts are equal.
pub fn same_text(a: &str, b: &str) -> (r: bool)
    ensures
        r == (a@ == b@),
{
    let left = chars_of(a);
    let right = chars_of(b);
    if left.len() != right.len() {
        return false;
    }
    let mut i: usize = 0;
    while i < left.len()
        invariant
            left@ == a@,
            right@ == b@,
            left.len() == right.len(),
            i <= left.len(),
            forall|k: int| 0 <= k < i ==> left@[k] == right@[k],
        decreases left.len() - i,
    {
        if left[i] != right[i] {
            return false;
        }
        i = i + 1;
    }
    proof {
        assert(a@ =~= b@);
    }
    true
}

proof fn text_less_skip(a: Seq<char>, b: Seq<char>, k: int)
    requires
        0 <= k <= a.len(),
        k <= b.len(),
        forall|j: int| 0 <= j < k ==> a[j] == b[j],
    ensures
        text_less(a, b) == text_less(a.skip(k), b.skip(k)),
    decreases k,
{
    if k > 0 {
        text_less_skip(a.drop_first(), b.drop_first(), k - 1);
        assert(a.drop_first().skip(k - 1) =~= a.skip(k));
        assert(b.drop_first().skip(k - 1) =~= b.skip(k));
    } else {
        assert(a.skip(0) =~= a);
        assert(b.skip(0) =~= b);
    }
}

fn char_less(x: char, y: char) -> (r: bool)
    ensures
        r == ((x as int) < (y as int)),
{
    (x as u32) < (y as u32)
}

/// Whether the first text precedes the second.
pub fn precedes(a: &str, b: &str) -> (r: bool)
    ensures
        r == text_less(a@, b@),
{
    let left = chars_of(a);
    let right = chars_of(b);
    let mut i: usize = 0;
    while i < left.len() && i < right.len() && left[i] == right[i]
        invariant
            left@ == a@,
            right@ == b@,
            i <= left.len(),
            i <= right.len(),
            forall|k: int| 0 <= k < i ==> left@[k] == right@[k],
        decreases left.len() - i,
    {
        i = i + 1;
    }
    proof {
        text_less_skip(a@, b@, i as int);
    }
    if i >= right.len() {
        false
    } else if i >= left.len() {
        true
    } else {
        let x: char = left[i];
        let y: char = right[i];
        char_less(x, y)
    }
}

/// Whether a character occurs in a text.
pub fn contains_char(s: &str, c: char) -> (r: bool)
    ensures
        r == s@.contains(c),
{
    let chars = chars_of(s);
    let mut i: usize = 0;
    while i < chars.len()
        invariant
            chars@ == s@,
            i <= chars.len(),
            forall|k: int| 0 <= k < i ==> chars@[k] != c,
        decreases chars.len() - i,
    {
        if chars[i] == c {
            return true;
        }
        i = i + 1;
    }
    false
}

/// Whether the text begins with the given character.
pub open spec fn begins_with(s: Seq<char>, c: char) -> bool {
    s.len() > 0 && s[0] == c
}

/// Whether the text begins with the given character.
pub fn begins_with_char(s: &str, c: char) -> (r: bool)
    ensures
        r == begins_with(s@, c),
{
    let chars = chars_of(s);
    chars.len() > 0 && chars[0] == c
}

/// The decimal digit of a number below ten.
pub open spec fn digit(n: nat) -> char {
    (('0' as int) + n) as char
}

/// A number in decimal, without leading zeros.
pub open spec fn decimal(n: nat) -> Seq<char>
    decreases n,
{
    if n < 10 {
        seq![digit(n)]
    } else {
        decimal(n / 10).push(digit(n % 10))
    }
}

fn digit_char(n: u64) -> (c: char)
    requires
        n < 10,
    ensures
        c == digit(n as nat),
{
    if n == 0 {
        '0'
    } else if n == 1 {
        '1'
    } else if n == 2 {
        '2'
    } else if n == 3 {
        '3'
    } else if n == 4 {
        '4'
    } else if n == 5 {
        '5'
    } else if n == 6 {
        '6'
    } else if n == 7 {
        '7'
    } else if n == 8 {
        '8'
    } else {
        '9'
    }
}

/// A number in decimal.
pub fn decimal_string(n: u64) -> (s: String)
    ensures
        s@ == decimal(n as nat),
    decreases n,
{
    if n < 10 {
        let mut s = String::new();
        s.push(digit_char(n));
        proof {
            assert(s@ =~= seq![digit(n as nat)]);
        }
        s
    } else {
        let mut s = decimal_string(n / 10);
        s.push(digit_char(n % 10));
        s
    }
}

/// The parts with the separator between each two of them.
pub open spec fn join(parts: Seq<Seq<char>>, separator: Seq<char>) -> Seq<char>
    decreases parts.len(),
{
    if parts.len() == 0 {
        Seq::empty()
    } else if parts.len() == 1 {
        parts[0]
    } else {
        join(parts.drop_last(), separator) + separator + parts.last()
    }
}

/// The strings with the separator between each two of them.
pub fn join_strings(parts: &Vec<String>, separator: &str) -> (s: String)
    ensures
        s@ == join(texts(parts@), separator@),
{
    let mut s = String::new();
    let mut i: usize = 0;
    while i < parts.len()
        invariant
            i <= parts.len(),
            s@ == join(texts(parts@).take(i as int), separator@),
        decreases parts.len() - i,
    {
        proof {
            let next = texts(parts@).take(i + 1);
            assert(next.drop_last() =~= texts(parts@).take(i as int));
            assert(next.last() == parts@[i as int]@);
        }
        if i > 0 {
            s.append(separator);
        }
        s.append(parts[i].as_str());
        proof {
            if i == 0 {
                assert(s@ =~= parts@[0]@);
            }
        }
        i = i + 1;
    }
    proof {
        assert(texts(parts@).take(parts@.len() as int) =~= texts(parts@));
    }
    s
}

/// A string that holds the same text.
pub fn owned(s: &str) -> (r: String)
    ensures
        r@ == s@,
{
    s.to_owned()
}

/// A list of strings that hold the same texts.
pub fn clone_strings(list: &Vec<String>) -> (r: Vec<String>)
    ensures
        r@ == list@,
{
    let mut r: Vec<String> = Vec::new();
    let mut i: usize = 0;
    while i < list.len()
        invariant
            i <= list.len(),
            r@ == list@.take(i as int),
        decreases list.len() - i,
    {
        proof {
            assert(list@.take(i + 1) =~= list@.take(i as int).push(list@[i as int]));
        }
        r.push(list[i].clone());
        i = i + 1;
    }
    proof {
        assert(list@.take(list@.len() as int) =~= list@);
    }
    r
}

/// Whether two lists hold the same texts in the same order.
pub fn same_texts(a: &Vec<String>, b: &Vec<String>) -> (r: bool)
    ensures
        r == (texts(a@) == texts(b@)),
{
    if a.len() != b.len() {
        proof {
            assert(texts(a@).len() != texts(b@).len());
        }
        return false;
    }
    let mut i: usize = 0;
    while i < a.len()
        invariant
            a.len() == b.len(),
            i <= a.len(),
            forall|k: int| 0 <= k < i ==> a@[k]@ == b@[k]@,
        decreases a.len() - i,
    {
        if a[i] != b[i] {
            proof {
                assert(texts(a@)[i as int] != texts(b@)[i as int]);
            }
            return false;
        }
        i = i + 1;
    }
    proof {
        assert(texts(a@) =~= texts(b@));
    }
    true
}

/// How std's `Debug` shows a text: in double quotes, with what is not printable
/// escaped.
pub uninterp spec fn debug_quoted(s: Seq<char>) -> Seq<char>;

/// The `Debug` form of `str`. It depends on the text alone.
#[verifier::external_body]
pub(crate) fn debug_text(s: &str) -> (r: String)
    ensures
        r@ == debug_quoted(s@),
{
    format!("{s:?}")
}

/// A string with two texts, one after the other.
pub fn concat2(a: &str, b: &str) -> (r: String)
    ensures
        r@ == a@ + b@,
{
    let mut r = a.to_owned();
    r.append(b);
    r
}

/// A string with three texts, one after the other.
pub fn concat3(a: &str, b: &str, c: &str) -> (r: String)
    ensures
        r@ == a@ + b@ + c@,
{
    let mut r = a.to_owned();
    r.append(b);
    r.append(c);
    r
}

/// The longest end of the text that does not hold the separator.
pub open spec fn last_part(s: Seq<char>, separator: char) -> Seq<char>
    decreases s.len(),
{
    if s.len() == 0 || s.last() == separator {
        Seq::empty()
    } else {
        last_part(s.drop_last(), separator).push(s.last())
    }
}

/// The last part is an end of the text, and a separator stands before it unless it
/// is the whole text.
pub proof fn last_part_law(s: Seq<char>, separator: char)
    ensures
        last_part(s, separator).len() <= s.len(),
        last_part(s, separator) == s.skip(s.len() - last_part(s, separator).len()),
        !last_part(s, separator).contains(separator),
        last_part(s, separator).len() < s.len() ==> s[s.len() - last_part(s, separator).len() - 1]
            == separator,
    decreases s.len(),
{
    let last = last_part(s, separator);
    if s.len() == 0 || s.last() == separator {
        assert(last =~= s.skip(s.len() - last.len()));
    } else {
        let inner = last_part(s.drop_last(), separator);
        last_part_law(s.drop_last(), separator);
        assert(last =~= s.skip(s.len() - last.len())) by {
            assert forall|i: int| 0 <= i < last.len() implies last[i] == s.skip(
                s.len() - last.len(),
            )[i] by {
                if i < inner.len() {
                    assert(inner[i] == s.drop_last().skip(s.drop_last().len() - inner.len())[i]);
                }
            }
        }
        assert forall|i: int| 0 <= i < last.len() implies last[i] != separator by {
            if i < inner.len() {
                assert(inner.contains(inner[i]));
            }
        }
    }
}

/// The parts between separators, at least one.
pub open spec fn split(s: Seq<char>, separator: char) -> Seq<Seq<char>>
    decreases s.len(),
{
    if s.len() == 0 {
        seq![Seq::empty()]
    } else {
        let head = split(s.drop_last(), separator);
        if s.last() == separator {
            head.push(Seq::empty())
        } else {
            head.drop_last().push(head.last().push(s.last()))
        }
    }
}

/// Splitting gives at least one part, and joining the parts gives the text back.
pub proof fn split_law(s: Seq<char>, separator: char)
    ensures
        split(s, separator).len() >= 1,
        join(split(s, separator), seq![separator]) == s,
    decreases s.len(),
{
    if s.len() > 0 {
        split_law(s.drop_last(), separator);
        let head = split(s.drop_last(), separator);
        let all = split(s, separator);
        assert(s =~= s.drop_last().push(s.last()));
        if s.last() == separator {
            assert(all.drop_last() =~= head);
            assert(join(head, seq![separator]) + seq![separator] + Seq::empty() =~= s);
        } else {
            assert(all.drop_last() =~= head.drop_last());
            if head.len() == 1 {
                assert(join(head, seq![separator]) == head[0]);
                assert(all[0] =~= head[0].push(s.last()));
            } else {
                assert(join(head, seq![separator]) == join(head.drop_last(), seq![separator])
                    + seq![separator] + head.last());
                assert(join(head.drop_last(), seq![separator]) + seq![separator]
                    + head.last().push(s.last()) =~= s);
            }
        }
    }
}

/// The parts between separators.
pub fn split_string(s: &str, separator: char) -> (parts: Vec<String>)
    ensures
        texts(parts@) == split(s@, separator),
{
    let chars = chars_of(s);
    let mut parts: Vec<String> = Vec::new();
    let mut current = String::new();
    let mut i: usize = 0;
    proof {
        assert(s@.take(0) =~= Seq::empty());
        assert(texts(parts@).push(current@) =~= split(s@.take(0), separator));
    }
    while i < chars.len()
        invariant
            chars@ == s@,
            i <= chars.len(),
            split(s@.take(i as int), separator) == texts(parts@).push(current@),
        decreases chars.len() - i,
    {
        let ghost head = texts(parts@).push(current@);
        let ghost old_parts = parts@;
        proof {
            assert(s@.take(i + 1).drop_last() =~= s@.take(i as int));
            assert(head.drop_last() =~= texts(old_parts));
        }
        if chars[i] == separator {
            parts.push(current);
            current = String::new();
            proof {
                assert(texts(parts@) =~= head);
            }
        } else {
            current.push(chars[i]);
        }
        i = i + 1;
    }
    proof {
        assert(s@.take(s@.len() as int) =~= s@);
    }
    let ghost before = parts@;
    let ghost tail = current@;
    parts.push(current);
    proof {
        assert(texts(parts@) =~= texts(before).push(tail));
    }
    parts
}

/// Whether the text has the given ending.
pub open spec fn has_suffix(s: Seq<char>, suffix: Seq<char>) -> bool {
    s.len() >= suffix.len() && s.skip(s.len() - suffix.len()) == suffix
}

/// Whether the text has the given beginning.
pub open spec fn has_prefix(s: Seq<char>, prefix: Seq<char>) -> bool {
    s.len() >= prefix.len() && s.take(prefix.len() as int) == prefix
}

/// The text without the given ending, where it has it.
pub fn strip_suffix(s: &str, suffix: &str) -> (r: Option<String>)
    ensures
        match r {
            Some(stem) => has_suffix(s@, suffix@) && stem@ == s@.take(s@.len() - suffix@.len()),
            None => !has_suffix(s@, suffix@),
        },
{
    let chars = chars_of(s);
    let end = chars_of(suffix);
    if chars.len() < end.len() {
        return None;
    }
    let split: usize = chars.len() - end.len();
    let mut i: usize = 0;
    while i < end.len()
        invariant
            chars@ == s@,
            end@ == suffix@,
            split + end.len() == chars.len(),
            i <= end.len(),
            forall|k: int| 0 <= k < i ==> chars@[split + k] == end@[k],
        decreases end.len() - i,
    {
        if chars[split + i] != end[i] {
            proof {
                assert(s@.skip(split as int)[i as int] != suffix@[i as int]);
            }
            return None;
        }
        i = i + 1;
    }
    proof {
        assert(s@.skip(split as int) =~= suffix@);
        assert(s@.take(split as int) =~= s@.subrange(0, split as int));
    }
    Some(string_of_range(chars.as_slice(), 0, split))
}

/// The text without the given beginning, where it has it.
pub fn strip_prefix(s: &str, prefix: &str) -> (r: Option<String>)
    ensures
        match r {
            Some(rest) => has_prefix(s@, prefix@) && rest@ == s@.skip(prefix@.len() as int),
            None => !has_prefix(s@, prefix@),
        },
{
    let chars = chars_of(s);
    let start = chars_of(prefix);
    if chars.len() < start.len() {
        return None;
    }
    let mut i: usize = 0;
    while i < start.len()
        invariant
            chars@ == s@,
            start@ == prefix@,
            start.len() <= chars.len(),
            i <= start.len(),
            forall|k: int| 0 <= k < i ==> chars@[k] == start@[k],
        decreases start.len() - i,
    {
        if chars[i] != start[i] {
            proof {
                assert(s@.take(prefix@.len() as int)[i as int] != prefix@[i as int]);
            }
            return None;
        }
        i = i + 1;
    }
    proof {
        assert(s@.take(prefix@.len() as int) =~= prefix@);
        assert(s@.skip(prefix@.len() as int) =~= s@.subrange(
            prefix@.len() as int,
            s@.len() as int,
        ));
    }
    Some(string_of_range(chars.as_slice(), start.len(), chars.len()))
}

/// White space as Unicode defines it.
pub open spec fn is_space(c: char) -> bool {
    ||| '\u{9}' <= c <= '\u{d}'
    ||| c == ' '
    ||| c == '\u{85}'
    ||| c == '\u{a0}'
    ||| c == '\u{1680}'
    ||| '\u{2000}' <= c <= '\u{200a}'
    ||| c == '\u{2028}'
    ||| c == '\u{2029}'
    ||| c == '\u{202f}'
    ||| c == '\u{205f}'
    ||| c == '\u{3000}'
}

fn space(c: char) -> (r: bool)
    ensures
        r == is_space(c),
{
    ('\u{9}' <= c && c <= '\u{d}') || c == ' ' || c == '\u{85}' || c == '\u{a0}' || c
        == '\u{1680}' || ('\u{2000}' <= c && c <= '\u{200a}') || c == '\u{2028}' || c
        == '\u{2029}' || c == '\u{202f}' || c == '\u{205f}' || c == '\u{3000}'
}

/// The text without white space at its end.
pub open spec fn trim_end(s: Seq<char>) -> Seq<char>
    decreases s.len(),
{
    if s.len() > 0 && is_space(s.last()) {
        trim_end(s.drop_last())
    } else {
        s
    }
}

/// The text without white space at its beginning.
pub open spec fn trim_start(s: Seq<char>) -> Seq<char>
    decreases s.len(),
{
    if s.len() > 0 && is_space(s[0]) {
        trim_start(s.drop_first())
    } else {
        s
    }
}

/// The text without white space at both ends.
pub open spec fn trim(s: Seq<char>) -> Seq<char> {
    trim_end(trim_start(s))
}

/// A text that neither begins nor ends with white space is kept.
pub proof fn trim_law(s: Seq<char>)
    requires
        s.len() > 0 ==> !is_space(s[0]) && !is_space(s.last()),
    ensures
        trim(s) == s,
{
}

/// The text without white space at both ends.
pub fn trim_string(s: &str) -> (r: String)
    ensures
        r@ == trim(s@),
{
    let chars = chars_of(s);
    let mut start: usize = 0;
    proof {
        assert(s@.skip(0) =~= s@);
    }
    while start < chars.len() && space(chars[start])
        invariant
            chars@ == s@,
            start <= chars.len(),
            trim_start(s@) == trim_start(s@.skip(start as int)),
        decreases chars.len() - start,
    {
        proof {
            assert(s@.skip(start as int).drop_first() =~= s@.skip(start + 1));
        }
        start = start + 1;
    }
    let ghost front = s@.skip(start as int);
    let mut end: usize = chars.len();
    proof {
        assert(front =~= s@.subrange(start as int, end as int));
    }
    while end > start && space(chars[end - 1])
        invariant
            chars@ == s@,
            start <= end <= chars.len(),
            trim_end(front) == trim_end(s@.subrange(start as int, end as int)),
        decreases end - start,
    {
        proof {
            assert(s@.subrange(start as int, end as int).drop_last() =~= s@.subrange(
                start as int,
                end - 1,
            ));
        }
        end = end - 1;
    }
    string_of_range(chars.as_slice(), start, end)
}

/// The hexadecimal digit of a number below sixteen, in lower case.
pub open spec fn hex_digit(n: nat) -> char {
    if n < 10 {
        digit(n)
    } else {
        (('a' as int) + n - 10) as char
    }
}

/// The last `k` hexadecimal digits of a number.
pub open spec fn hex(n: nat, k: nat) -> Seq<char>
    decreases k,
{
    if k == 0 {
        Seq::empty()
    } else {
        hex(n / 16, (k - 1) as nat).push(hex_digit(n % 16))
    }
}

/// A number in eight hexadecimal digits.
pub open spec fn hex8(n: nat) -> Seq<char> {
    hex(n, 8)
}

fn hex_char(n: u32) -> (c: char)
    requires
        n < 16,
    ensures
        c == hex_digit(n as nat),
{
    if n < 10 {
        digit_char(n as u64)
    } else if n == 10 {
        'a'
    } else if n == 11 {
        'b'
    } else if n == 12 {
        'c'
    } else if n == 13 {
        'd'
    } else if n == 14 {
        'e'
    } else {
        'f'
    }
}

fn hex_string(n: u32, k: u32) -> (s: String)
    ensures
        s@ == hex(n as nat, k as nat),
    decreases k,
{
    if k == 0 {
        String::new()
    } else {
        let mut s = hex_string(n / 16, k - 1);
        s.push(hex_char(n % 16));
        s
    }
}

/// A number in eight hexadecimal digits.
pub fn hex8_string(n: u32) -> (s: String)
    ensures
        s@ == hex8(n as nat),
{
    hex_string(n, 8)
}

/// Whether a character is a decimal digit.
pub open spec fn is_digit(c: char) -> bool {
    '0' <= c <= '9'
}

/// The number that decimal digits stand for.
pub open spec fn digits_value(s: Seq<char>) -> nat
    decreases s.len(),
{
    if s.len() == 0 {
        0
    } else {
        (digits_value(s.drop_last()) * 10 + (s.last() as int - '0' as int)) as nat
    }
}

/// The digits of a number: what follows a plus sign, or everything.
pub open spec fn unsigned_digits(s: Seq<char>) -> Seq<char> {
    if begins_with(s, '+') {
        s.drop_first()
    } else {
        s
    }
}

/// The number that a text stands for: decimal digits, after a plus sign at most,
/// within the range.
pub open spec fn parse_u32(s: Seq<char>) -> Option<u32> {
    let digits = unsigned_digits(s);
    if digits.len() > 0 && (forall|i: int| 0 <= i < digits.len() ==> is_digit(#[trigger] digits[i]))
        && digits_value(digits) <= u32::MAX {
        Some(digits_value(digits) as u32)
    } else {
        None
    }
}

proof fn digits_value_prefix(s: Seq<char>, n: int)
    requires
        0 <= n <= s.len(),
        forall|i: int| 0 <= i < s.len() ==> is_digit(#[trigger] s[i]),
    ensures
        digits_value(s.take(n)) <= digits_value(s),
    decreases s.len(),
{
    if n < s.len() {
        let shorter = s.drop_last();
        assert forall|i: int| 0 <= i < shorter.len() implies is_digit(#[trigger] shorter[i]) by {
            assert(shorter[i] == s[i]);
        }
        digits_value_prefix(shorter, n);
        assert(shorter.take(n) =~= s.take(n));
        assert(is_digit(s[s.len() - 1]));
    } else {
        assert(s.take(n) =~= s);
    }
}

fn digit_number(c: char) -> (r: Option<u64>)
    ensures
        match r {
            Some(n) => is_digit(c) && n == c as int - '0' as int,
            None => !is_digit(c),
        },
{
    if '0' <= c && c <= '9' {
        Some((c as u32 - '0' as u32) as u64)
    } else {
        None
    }
}

/// The number that a text stands for.
pub fn parse_u32_string(s: &str) -> (r: Option<u32>)
    ensures
        r == parse_u32(s@),
{
    let chars = chars_of(s);
    let start: usize = if chars.len() > 0 && chars[0] == '+' {
        1
    } else {
        0
    };
    let ghost digits = unsigned_digits(s@);
    proof {
        assert(digits =~= s@.skip(start as int));
    }
    if start == chars.len() {
        return None;
    }
    let mut value: u64 = 0;
    let mut i: usize = start;
    proof {
        assert(digits.take(0) =~= Seq::empty());
    }
    while i < chars.len()
        invariant
            chars@ == s@,
            digits == unsigned_digits(s@),
            digits == s@.skip(start as int),
            start <= i <= chars@.len(),
            start < chars@.len(),
            value <= u32::MAX,
            value == digits_value(digits.take(i - start)),
            forall|k: int| 0 <= k < i - start ==> is_digit(#[trigger] digits[k]),
        decreases chars@.len() - i,
    {
        let ghost next = digits.take(i - start + 1);
        proof {
            assert(digits[i - start] == chars@[i as int]);
            assert(next.drop_last() =~= digits.take(i - start));
            assert(next.last() == chars@[i as int]);
        }
        match digit_number(chars[i]) {
            Some(n) => {
                value = value * 10 + n;
            },
            None => {
                return None;
            },
        }
        if value > u32::MAX as u64 {
            proof {
                if forall|k: int| 0 <= k < digits.len() ==> is_digit(#[trigger] digits[k]) {
                    digits_value_prefix(digits, i - start + 1);
                }
            }
            return None;
        }
        i = i + 1;
    }
    proof {
        assert(digits.take(digits.len() as int) =~= digits);
    }
    Some(value as u32)
}

/// The text that bytes encode in UTF-8, where they do.
pub open spec fn utf8(bytes: Seq<u8>) -> Option<Seq<char>> {
    if vstd::utf8::valid_utf8(bytes) {
        Some(vstd::utf8::decode_utf8(bytes))
    } else {
        None
    }
}

/// Calls `std::str::from_utf8`: the text of bytes that are UTF-8, and nothing for others.
#[verifier::external_body]
pub(crate) fn utf8_text(bytes: &[u8]) -> (r: Option<String>)
    ensures
        optional_text(r) == utf8(bytes@),
{
    std::str::from_utf8(bytes).ok().map(str::to_owned)
}

/// The text that std reads bytes as, with a replacement character for what is no UTF-8.
pub uninterp spec fn lossy(bytes: Seq<u8>) -> Seq<char>;

/// Calls `String::from_utf8_lossy`. Its result depends on the bytes alone; bytes that are
/// UTF-8 keep their text.
#[verifier::external_body]
pub(crate) fn lossy_text(bytes: &[u8]) -> (r: String)
    ensures
        r@ == lossy(bytes@),
        utf8(bytes@) matches Some(s) ==> r@ == s,
{
    String::from_utf8_lossy(bytes).into_owned()
}

/// The UTF-8 encoding of a text.
pub open spec fn encoded(s: Seq<char>) -> Seq<u8> {
    vstd::utf8::encode_utf8(s)
}

/// The bytes of a text.
pub fn bytes_of(s: &str) -> (r: Vec<u8>)
    ensures
        r@ == encoded(s@),
{
    s.as_bytes_vec()
}

/// Encoding and reading a text gives the text back.
pub proof fn utf8_law(s: Seq<char>)
    ensures
        utf8(encoded(s)) == Some(s),
{
    vstd::utf8::encode_utf8_valid_utf8(s);
    vstd::utf8::encode_utf8_decode_utf8(s);
}

/// The number that a text stands for, within the range: decimal digits, after a sign at
/// most.
pub open spec fn parse_i32(s: Seq<char>) -> Option<i32> {
    if begins_with(s, '-') {
        let digits = s.drop_first();
        match parse_u32(digits) {
            Some(n) => if n <= 0x8000_0000 && !begins_with(digits, '+') {
                Some((0 - n) as i32)
            } else {
                None
            },
            None => None,
        }
    } else {
        match parse_u32(s) {
            Some(n) => if n <= i32::MAX {
                Some(n as i32)
            } else {
                None
            },
            None => None,
        }
    }
}

/// The number that a text stands for.
pub fn parse_i32_string(s: &str) -> (r: Option<i32>)
    ensures
        r == parse_i32(s@),
{
    if begins_with_char(s, '-') {
        let chars = chars_of(s);
        let digits = string_of_range(chars.as_slice(), 1, chars.len());
        proof {
            assert(s@.subrange(1, s@.len() as int) =~= s@.drop_first());
        }
        match parse_u32_string(digits.as_str()) {
            Some(n) => if n <= 0x8000_0000 && !begins_with_char(digits.as_str(), '+') {
                Some((0 - n as i64) as i32)
            } else {
                None
            },
            None => None,
        }
    } else {
        match parse_u32_string(s) {
            Some(n) => if n <= i32::MAX as u32 {
                Some(n as i32)
            } else {
                None
            },
            None => None,
        }
    }
}

/// The words of a text: the longest parts without white space.
pub open spec fn words(s: Seq<char>) -> Seq<Seq<char>>
    decreases s.len(),
{
    if s.len() == 0 {
        Seq::empty()
    } else {
        let head = words(s.drop_last());
        if is_space(s.last()) {
            head
        } else if s.len() == 1 || is_space(s[s.len() - 2]) {
            head.push(seq![s.last()])
        } else {
            head.drop_last().push(head.last().push(s.last()))
        }
    }
}

/// The words of a text.
pub fn split_words(s: &str) -> (r: Vec<String>)
    ensures
        texts(r@) == words(s@),
{
    let chars = chars_of(s);
    let mut parts: Vec<String> = Vec::new();
    let mut current = String::new();
    let mut open = false;
    let mut i: usize = 0;
    proof {
        assert(s@.take(0) =~= Seq::empty());
        assert(texts(parts@) =~= words(s@.take(0)));
    }
    while i < chars.len()
        invariant
            chars@ == s@,
            i <= chars.len(),
            open == (i > 0 && !is_space(s@[i - 1])),
            !open ==> current@.len() == 0,
            words(s@.take(i as int)) == if open {
                texts(parts@).push(current@)
            } else {
                texts(parts@)
            },
        decreases chars.len() - i,
    {
        let ghost before = texts(parts@);
        let ghost word = current@;
        let ghost next = s@.take(i + 1);
        proof {
            assert(next.drop_last() =~= s@.take(i as int));
            assert(i > 0 ==> next[next.len() - 2] == s@[i - 1]);
            assert(before.push(word).drop_last() =~= before);
        }
        if space(chars[i]) {
            if open {
                parts.push(current);
                current = String::new();
                open = false;
                proof {
                    assert(texts(parts@) =~= before.push(word));
                }
            }
        } else {
            current.push(chars[i]);
            open = true;
            proof {
                if word.len() == 0 {
                    assert(current@ =~= seq![next.last()]);
                }
            }
        }
        i = i + 1;
    }
    proof {
        assert(s@.take(s@.len() as int) =~= s@);
    }
    if open {
        let ghost before = texts(parts@);
        let ghost word = current@;
        parts.push(current);
        proof {
            assert(texts(parts@) =~= before.push(word));
        }
    }
    parts
}

/// What a number looks like: decimal digits that stand for it, the first of them no zero unless
/// it is the only one; reading them gives the number back.
pub proof fn decimal_law(n: nat)
    ensures
        decimal(n).len() > 0,
        forall|i: int| 0 <= i < decimal(n).len() ==> '0' <= #[trigger] decimal(n)[i] <= '9',
        digits_value(decimal(n)) == n,
        decimal(n).len() > 1 ==> decimal(n)[0] != '0',
        n <= u32::MAX ==> parse_u32(decimal(n)) == Some(n as u32),
    decreases n,
{
    reveal_with_fuel(digits_value, 2);
    if n < 10 {
        assert(decimal(n).drop_last() =~= Seq::<char>::empty());
    } else {
        decimal_law(n / 10);
        let head = decimal(n / 10);
        let all = decimal(n);
        assert(all.drop_last() =~= head);
        assert(all.last() == digit(n % 10));
        assert forall|i: int| 0 <= i < all.len() implies '0' <= #[trigger] all[i] <= '9' by {
            if i < head.len() {
                assert(all[i] == head[i]);
            }
        }
        assert(all[0] == head[0]);
        if head.len() == 1 {
            assert(digits_value(head) == n / 10);
            assert(head.drop_last() =~= Seq::<char>::empty());
        }
    }
    assert(decimal(n)[0] != '+');
}

/// Which texts are numbers: one or more decimal digits, after a plus sign or not, that stand
/// for a number within the range.
pub proof fn number_law(s: Seq<char>)
    requires
        forall|i: int| 0 <= i < s.len() ==> '0' <= #[trigger] s[i] <= '9',
        s.len() > 0,
    ensures
        digits_value(s) <= u32::MAX ==> parse_u32(s) == Some(digits_value(s) as u32) && parse_u32(
            seq!['+'] + s,
        ) == parse_u32(s),
        digits_value(s) > u32::MAX ==> parse_u32(s) is None && parse_u32(seq!['+'] + s) is None,
        digits_value(s) <= i32::MAX ==> parse_i32(s) == Some(digits_value(s) as i32) && parse_i32(
            seq!['-'] + s,
        ) == Some((0 - digits_value(s)) as i32),
{
    let signed = seq!['+'] + s;
    assert(signed.drop_first() =~= s);
    assert(s[0] != '+' && s[0] != '-');
    let negative = seq!['-'] + s;
    assert(negative.drop_first() =~= s);
    assert(negative[0] == '-');
    assert(signed[0] == '+');
}

/// What is no number: the empty text, and one with another character than digits after the
/// sign.
pub proof fn no_number_law(s: Seq<char>, i: int)
    requires
        s.len() == 0 || 0 <= i < s.len() && !('0' <= s[i] <= '9') && !(i == 0 && (s[0] == '+' || s[0]
            == '-')),
    ensures
        parse_u32(s) is None,
        parse_i32(s) is None,
{
    if s.len() > 0 {
        if i > 0 {
            assert(s.drop_first()[i - 1] == s[i]);
            if begins_with(s, '-') {
                let digits = s.drop_first();
                if begins_with(digits, '+') && i > 1 {
                    assert(digits.drop_first()[i - 2] == s[i]);
                }
            }
        }
        if begins_with(s, '+') {
            assert(s.drop_first()[i - 1] == s[i]);
        }
    }
}

/// What eight hexadecimal digits look like: so many digits or letters from `a` to `f`.
pub proof fn hex_law(n: nat, k: nat)
    ensures
        hex(n, k).len() == k,
        forall|i: int|
            0 <= i < k ==> '0' <= #[trigger] hex(n, k)[i] <= '9' || 'a' <= hex(n, k)[i] <= 'f',
        n < 10 && k > 0 ==> hex(n, k).last() as int == '0' as int + n,
        10 <= n < 16 && k > 0 ==> hex(n, k).last() as int == 'a' as int + n - 10,
        k > 0 ==> hex(n, k).drop_last() == hex(n / 16, (k - 1) as nat),
    decreases k,
{
    if k > 0 {
        hex_law(n / 16, (k - 1) as nat);
        let head = hex(n / 16, (k - 1) as nat);
        let all = hex(n, k);
        assert(all.drop_last() =~= head);
        assert forall|i: int| 0 <= i < k implies '0' <= #[trigger] all[i] <= '9' || 'a' <= all[i]
            <= 'f' by {
            if i < k - 1 {
                assert(all[i] == head[i]);
            }
        }
    }
}

/// No part of a text that was split has the separator.
pub proof fn split_parts_law(s: Seq<char>, separator: char, i: int)
    requires
        0 <= i < split(s, separator).len(),
    ensures
        !split(s, separator)[i].contains(separator),
    decreases s.len(),
{
    if s.len() > 0 {
        split_law(s.drop_last(), separator);
        let head = split(s.drop_last(), separator);
        let all = split(s, separator);
        if s.last() == separator {
            if i < head.len() {
                split_parts_law(s.drop_last(), separator, i);
            }
        } else if i < head.len() - 1 {
            split_parts_law(s.drop_last(), separator, i);
            assert(all[i] == head[i]);
        } else {
            split_parts_law(s.drop_last(), separator, head.len() - 1);
            let part = all[i];
            assert(part == head.last().push(s.last()));
            if part.contains(separator) {
                let k = choose|k: int| 0 <= k < part.len() && part[k] == separator;
                if k < head.last().len() {
                    assert(head.last()[k] == separator);
                }
            }
        }
    }
}

/// What is left of a text between white space: the text from its first to its last other
/// character, and nothing where there is no other.
pub proof fn trimmed_law(s: Seq<char>)
    ensures
        ({
            let rest = trim(s);
            &&& rest.len() > 0 ==> !is_space(rest[0]) && !is_space(rest.last())
            &&& exists|a: int|
                0 <= a <= a + rest.len() <= s.len() && rest == #[trigger] s.subrange(
                    a,
                    a + rest.len(),
                ) && (forall|i: int| 0 <= i < a ==> is_space(#[trigger] s[i])) && (forall|i: int|
                    a + rest.len() <= i < s.len() ==> is_space(#[trigger] s[i]))
        }),
{
    let front = trim_start(s);
    let rest = trim(s);
    trim_start_law(s);
    trim_end_law(front);
    let a = s.len() - front.len();
    assert(rest =~= s.subrange(a, a + rest.len())) by {
        assert forall|i: int| 0 <= i < rest.len() implies rest[i] == s.subrange(a, a + rest.len())[i] by {
            assert(rest[i] == front[i]);
        }
    }
    assert forall|i: int| a + rest.len() <= i < s.len() implies is_space(#[trigger] s[i]) by {
        assert(front[i - a] == s[i]);
    }
    if rest.len() > 0 {
        assert(rest[0] == front[0]);
    }
}

proof fn trim_start_law(s: Seq<char>)
    ensures
        trim_start(s).len() <= s.len(),
        trim_start(s) == s.skip(s.len() - trim_start(s).len()),
        trim_start(s).len() > 0 ==> !is_space(trim_start(s)[0]),
        forall|i: int| 0 <= i < s.len() - trim_start(s).len() ==> is_space(#[trigger] s[i]),
    decreases s.len(),
{
    if s.len() > 0 && is_space(s[0]) {
        trim_start_law(s.drop_first());
        let rest = trim_start(s);
        assert(rest =~= s.skip(s.len() - rest.len()));
        assert forall|i: int| 0 <= i < s.len() - rest.len() implies is_space(#[trigger] s[i]) by {
            if i > 0 {
                assert(s.drop_first()[i - 1] == s[i]);
            }
        }
    } else {
        assert(s.skip(0) =~= s);
    }
}

proof fn trim_end_law(s: Seq<char>)
    ensures
        trim_end(s).len() <= s.len(),
        trim_end(s) == s.take(trim_end(s).len() as int),
        trim_end(s).len() > 0 ==> !is_space(trim_end(s).last()),
        forall|i: int| trim_end(s).len() <= i < s.len() ==> is_space(#[trigger] s[i]),
    decreases s.len(),
{
    if s.len() > 0 && is_space(s.last()) {
        trim_end_law(s.drop_last());
        let rest = trim_end(s);
        assert(rest =~= s.take(rest.len() as int));
        assert forall|i: int| rest.len() <= i < s.len() implies is_space(#[trigger] s[i]) by {
            if i < s.len() - 1 {
                assert(s.drop_last()[i] == s[i]);
            }
        }
    } else {
        assert(s.take(s.len() as int) =~= s);
    }
}

/// No word of a text is empty or has white space, and a text with any other character has a
/// word.
pub proof fn words_law(s: Seq<char>, i: int)
    ensures
        0 <= i < words(s).len() ==> words(s)[i].len() > 0 && forall|k: int|
            0 <= k < words(s)[i].len() ==> !is_space(#[trigger] words(s)[i][k]),
        words(s).len() == 0 <==> forall|k: int| 0 <= k < s.len() ==> is_space(#[trigger] s[k]),
        s.len() > 0 && !is_space(s.last()) ==> words(s).last().last() == s.last(),
    decreases s.len(),
{
    if s.len() > 0 {
        let rest = s.drop_last();
        words_law(rest, i);
        words_law(rest, words(rest).len() - 1);
        let head = words(rest);
        let all = words(s);
        assert forall|k: int| 0 <= k < rest.len() implies rest[k] == #[trigger] s[k] by {}
        if is_space(s.last()) {
            if head.len() == 0 {
                assert forall|k: int| 0 <= k < s.len() implies is_space(#[trigger] s[k]) by {
                    if k < rest.len() {
                        assert(is_space(rest[k]));
                    }
                }
            } else {
                let k = choose|k: int| 0 <= k < rest.len() && !is_space(#[trigger] rest[k]);
                assert(!is_space(s[k]));
            }
        } else {
            assert(!is_space(s[s.len() - 1]));
            if s.len() == 1 || is_space(s[s.len() - 2]) {
                if i < head.len() {
                    assert(0 <= i ==> all[i] == head[i]);
                }
            } else {
                assert(rest[s.len() - 2] == s[s.len() - 2]);
                assert(head.len() > 0);
                if 0 <= i < head.len() - 1 {
                    assert(all[i] == head[i]);
                } else if i == head.len() - 1 {
                    assert(all[i] == head.last().push(s.last()));
                }
            }
        }
    }
}

/// How parts are joined: with the separator before each but the first.
pub proof fn join_law(parts: Seq<Seq<char>>, part: Seq<char>, separator: Seq<char>)
    ensures
        join(Seq::empty(), separator) == Seq::<char>::empty(),
        join(seq![part], separator) == part,
        parts.len() > 0 ==> join(parts.push(part), separator) == join(parts, separator) + separator
            + part,
{
    assert(parts.push(part).drop_last() =~= parts);
}

} // verus!
