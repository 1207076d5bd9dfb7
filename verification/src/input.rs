//! Reading a voxel map from its textual form: a JSON object whose keys are
//! positions written as `(x, y, z)` and whose values are block identifiers.
//!
//! The text of a key is read here, character by character. Splitting the JSON
//! text into keys and values is left to `serde_json`; the function that calls
//! it is the only unproved code in this file.

use vstd::prelude::*;

use crate::voxel::{pos, put, Cell, VoxelMap};

verus! {

/// `serde_json::Error`, which a text that is no JSON object of strings is
/// refused with. Nothing is read from it.
#[verifier::external_type_specification]
#[verifier::external_body]
pub struct ExJsonError(serde_json::Error);

/// Whether a character is white space: one of the characters with the
/// Unicode property `White_Space`.
pub open spec fn white_space(c: char) -> bool {
    ||| '\u{9}' <= c <= '\u{d}'
    ||| c == '\u{20}'
    ||| c == '\u{85}'
    ||| c == '\u{a0}'
    ||| c == '\u{1680}'
    ||| '\u{2000}' <= c <= '\u{200a}'
    ||| c == '\u{2028}'
    ||| c == '\u{2029}'
    ||| c == '\u{202f}'
    ||| c == '\u{205f}'
    ||| c == '\u{3000}'
}

/// The keys and values of the JSON object that a text holds, in ascending
/// order of the keys, where `serde_json` reads the text as an object of
/// strings.
pub uninterp spec fn json_object(text: Seq<char>) -> Option<Seq<(Seq<char>, Seq<char>)>>;

/// A set of characters that the grammar of a key speaks of.
#[derive(Clone, Copy, Debug, PartialEq, Eq, Structural)]
pub enum Class {
    /// The two round brackets.
    Bracket,
    /// White space.
    Space,
    /// Every character but the comma.
    Field,
}

/// Whether a character belongs to a class.
pub open spec fn in_class(class: Class, c: char) -> bool {
    match class {
        Class::Bracket => c == '(' || c == ')',
        Class::Space => white_space(c),
        Class::Field => c != ',',
    }
}

/// The first `n` characters belong to the class and the next one, if there
/// is one, does not.
pub open spec fn is_lead(s: Seq<char>, class: Class, n: int) -> bool {
    &&& 0 <= n <= s.len()
    &&& forall|i: int| 0 <= i < n ==> in_class(class, #[trigger] s[i])
    &&& n < s.len() ==> !in_class(class, s[n])
}

/// The last `n` characters belong to the class and the one before them, if
/// there is one, does not.
pub open spec fn is_trail(s: Seq<char>, class: Class, n: int) -> bool {
    &&& 0 <= n <= s.len()
    &&& forall|i: int| s.len() - n <= i < s.len() ==> in_class(class, #[trigger] s[i])
    &&& n < s.len() ==> !in_class(class, s[s.len() - n - 1])
}

/// The number of characters of the class at the start of `s`.
pub open spec fn leading(s: Seq<char>, class: Class) -> int {
    choose|n: int| is_lead(s, class, n)
}

/// The number of characters of the class at the end of `s`.
pub open spec fn trailing(s: Seq<char>, class: Class) -> int {
    choose|n: int| is_trail(s, class, n)
}

/// `s` without the characters of the class at its start and at its end.
pub open spec fn trimmed(s: Seq<char>, class: Class) -> Seq<char> {
    if leading(s, class) + trailing(s, class) >= s.len() {
        Seq::empty()
    } else {
        s.subrange(leading(s, class), s.len() - trailing(s, class))
    }
}

/// The three fields of `s`, where exactly two commas divide it.
pub open spec fn fields(s: Seq<char>) -> Option<(Seq<char>, Seq<char>, Seq<char>)> {
    let i = leading(s, Class::Field);
    let rest = s.subrange(i + 1, s.len() as int);
    let j = leading(rest, Class::Field);
    let last = rest.subrange(j + 1, rest.len() as int);
    if i < s.len() && j < rest.len() && leading(last, Class::Field) == last.len() {
        Some((s.subrange(0, i), rest.subrange(0, j), last))
    } else {
        None
    }
}

/// Whether a character is a decimal digit.
pub open spec fn is_digit(c: char) -> bool {
    '0' <= c <= '9'
}

/// The number that a sequence of decimal digits stands for.
pub open spec fn digits_value(s: Seq<char>) -> int
    decreases s.len(),
{
    if s.len() == 0 {
        0
    } else {
        10 * digits_value(s.drop_last()) + (s.last() as int - '0' as int)
    }
}

/// `s` without a sign at its start.
pub open spec fn unsigned(s: Seq<char>) -> Seq<char> {
    if s.len() > 0 && (s[0] == '-' || s[0] == '+') {
        s.drop_first()
    } else {
        s
    }
}

/// The 32-bit integer that `s` is the decimal form of: an optional sign,
/// then one digit or more and nothing else.
pub open spec fn int_text(s: Seq<char>) -> Option<int> {
    let digits = unsigned(s);
    let value = if s.len() > 0 && s[0] == '-' {
        -digits_value(digits)
    } else {
        digits_value(digits)
    };
    if digits.len() > 0 && (forall|i: int| 0 <= i < digits.len() ==> is_digit(#[trigger] digits[i]))
        && i32::MIN <= value <= i32::MAX {
        Some(value)
    } else {
        None
    }
}

/// The number in one field of a key: the field without the white space
/// around it, read as a 32-bit integer.
pub open spec fn coordinate(field: Seq<char>) -> Option<int> {
    int_text(trimmed(field, Class::Space))
}

/// The position that a key names: three integers divided by commas, with
/// any number of round brackets around the whole and white space around each
/// integer.
pub open spec fn key_position(key: Seq<char>) -> Option<(int, int, int)> {
    match fields(trimmed(key, Class::Bracket)) {
        Some((a, b, c)) => {
            if coordinate(a) is Some && coordinate(b) is Some && coordinate(c) is Some {
                Some((coordinate(a)->0, coordinate(b)->0, coordinate(c)->0))
            } else {
                None
            }
        },
        None => None,
    }
}

/// The entries of the map that holds the given keys and values: each pair
/// whose key names a position is stored, in the order of the pairs, and the
/// others are passed over.
pub open spec fn stored(pairs: Seq<(Seq<char>, Seq<char>)>) -> Seq<Cell>
    decreases pairs.len(),
{
    if pairs.len() == 0 {
        Seq::empty()
    } else {
        let before = stored(pairs.drop_last());
        match key_position(pairs.last().0) {
            Some((x, y, z)) => put(before, Cell { pos: pos(x, y, z), block: pairs.last().1 }),
            None => before,
        }
    }
}

/// The views of a sequence of pairs of strings.
pub open spec fn pair_views(pairs: Seq<(String, String)>) -> Seq<(Seq<char>, Seq<char>)> {
    pairs.map_values(|pair: (String, String)| (pair.0@, pair.1@))
}

/// The count of leading characters of a class is the only number that is a
/// lead.
pub proof fn lemma_lead_unique(s: Seq<char>, class: Class, n: int)
    requires
        is_lead(s, class, n),
    ensures
        leading(s, class) == n,
{
    let m = leading(s, class);
    if m < n {
        assert(in_class(class, s[m]));
    } else if n < m {
        assert(in_class(class, s[n]));
    }
}

/// The count of trailing characters of a class is the only number that is a
/// trail.
pub proof fn lemma_trail_unique(s: Seq<char>, class: Class, n: int)
    requires
        is_trail(s, class, n),
    ensures
        trailing(s, class) == n,
{
    let m = trailing(s, class);
    if m < n {
        assert(in_class(class, s[s.len() - m - 1]));
    } else if n < m {
        assert(in_class(class, s[s.len() - n - 1]));
    }
}

/// Whether a character is white space.
pub fn is_space(c: char) -> (space: bool)
    ensures
        space == white_space(c),
{
    ('\u{9}' <= c && c <= '\u{d}') || c == '\u{20}' || c == '\u{85}' || c == '\u{a0}' || c
        == '\u{1680}' || ('\u{2000}' <= c && c <= '\u{200a}') || c == '\u{2028}' || c
        == '\u{2029}' || c == '\u{202f}' || c == '\u{205f}' || c == '\u{3000}'
}

/// `serde_json::from_str` for a map of strings that is ordered by its keys:
/// the keys and values of the object in the text, in ascending order of the
/// keys, or the error that the text is refused with.
#[verifier::external_body]
fn read_object(text: &str) -> (read: Result<Vec<(String, String)>, serde_json::Error>)
    ensures
        match read {
            Ok(pairs) => json_object(text@) == Some(pair_views(pairs@)),
            Err(_) => json_object(text@) is None,
        },
{
    let object = serde_json::from_str::<std::collections::BTreeMap<String, String>>(text)?;
    Ok(object.into_iter().collect())
}

fn has_class(class: Class, c: char) -> (has: bool)
    ensures
        has == in_class(class, c),
{
    match class {
        Class::Bracket => c == '(' || c == ')',
        Class::Space => is_space(c),
        Class::Field => c != ',',
    }
}

/// The characters of a string.
fn chars_of(text: &str) -> (chars: Vec<char>)
    ensures
        chars@ == text@,
{
    let n = text.unicode_len();
    let mut chars: Vec<char> = Vec::with_capacity(n);
    let mut i: usize = 0;
    while i < n
        invariant
            i <= n,
            n == text@.len(),
            chars@ == text@.take(i as int),
        decreases n - i,
    {
        chars.push(text.get_char(i));
        assert(chars@ =~= text@.take(i + 1));
        i += 1;
    }
    assert(text@.take(n as int) =~= text@);
    chars
}

/// The characters from index `lo` up to index `hi`.
fn part(chars: &Vec<char>, lo: usize, hi: usize) -> (out: Vec<char>)
    requires
        lo <= hi <= chars@.len(),
    ensures
        out@ == chars@.subrange(lo as int, hi as int),
{
    let mut out: Vec<char> = Vec::with_capacity(hi - lo);
    let mut i: usize = lo;
    while i < hi
        invariant
            lo <= i <= hi <= chars@.len(),
            out@ == chars@.subrange(lo as int, i as int),
        decreases hi - i,
    {
        out.push(chars[i]);
        assert(out@ =~= chars@.subrange(lo as int, i + 1));
        i += 1;
    }
    out
}

fn count_leading(chars: &Vec<char>, class: Class) -> (n: usize)
    ensures
        n == leading(chars@, class),
        is_lead(chars@, class, n as int),
{
    let mut n: usize = 0;
    while n < chars.len() && has_class(class, chars[n])
        invariant
            n <= chars@.len(),
            forall|i: int| 0 <= i < n ==> in_class(class, #[trigger] chars@[i]),
        decreases chars@.len() - n,
    {
        n += 1;
    }
    proof {
        lemma_lead_unique(chars@, class, n as int);
    }
    n
}

fn count_trailing(chars: &Vec<char>, class: Class) -> (n: usize)
    ensures
        n == trailing(chars@, class),
        is_trail(chars@, class, n as int),
{
    let len = chars.len();
    let mut n: usize = 0;
    while n < len && has_class(class, chars[len - n - 1])
        invariant
            n <= len,
            len == chars@.len(),
            forall|i: int| len - n <= i < len ==> in_class(class, #[trigger] chars@[i]),
        decreases len - n,
    {
        n += 1;
    }
    proof {
        lemma_trail_unique(chars@, class, n as int);
    }
    n
}

fn trim(chars: &Vec<char>, class: Class) -> (out: Vec<char>)
    ensures
        out@ == trimmed(chars@, class),
{
    let a = count_leading(chars, class);
    let b = count_trailing(chars, class);
    if a >= chars.len() - b {
        let out: Vec<char> = Vec::new();
        assert(out@ =~= Seq::<char>::empty());
        out
    } else {
        part(chars, a, chars.len() - b)
    }
}

fn split_fields(chars: &Vec<char>) -> (split: Option<(Vec<char>, Vec<char>, Vec<char>)>)
    ensures
        match split {
            Some((a, b, c)) => fields(chars@) == Some((a@, b@, c@)),
            None => fields(chars@) is None,
        },
{
    let i = count_leading(chars, Class::Field);
    if i >= chars.len() {
        return None;
    }
    let rest = part(chars, i + 1, chars.len());
    let j = count_leading(&rest, Class::Field);
    if j >= rest.len() {
        return None;
    }
    let last = part(&rest, j + 1, rest.len());
    let k = count_leading(&last, Class::Field);
    if k < last.len() {
        return None;
    }
    Some((part(chars, 0, i), part(&rest, 0, j), last))
}

/// The value of a sequence of digits, or 2^31 + 1 where it is larger than
/// that. `None` where a character is not a digit.
fn digits(chars: &Vec<char>, from: usize) -> (value: Option<i64>)
    requires
        from <= chars@.len(),
    ensures
        match value {
            Some(v) => {
                &&& forall|i: int| from <= i < chars@.len() ==> is_digit(#[trigger] chars@[i])
                &&& 0 <= v <= 0x8000_0001
                &&& v == if digits_value(chars@.subrange(from as int, chars@.len() as int))
                    < 0x8000_0001 {
                    digits_value(chars@.subrange(from as int, chars@.len() as int))
                } else {
                    0x8000_0001
                }
            },
            None => exists|i: int| from <= i < chars@.len() && !is_digit(#[trigger] chars@[i]),
        },
{
    let mut acc: i64 = 0;
    let mut i: usize = from;
    assert(chars@.subrange(from as int, from as int) =~= Seq::<char>::empty());
    while i < chars.len()
        invariant
            from <= i <= chars@.len(),
            forall|k: int| from <= k < i ==> is_digit(#[trigger] chars@[k]),
            0 <= acc <= 0x8000_0001,
            acc == if digits_value(chars@.subrange(from as int, i as int)) < 0x8000_0001 {
                digits_value(chars@.subrange(from as int, i as int))
            } else {
                0x8000_0001
            },
        decreases chars@.len() - i,
    {
        let c = chars[i];
        if c < '0' || c > '9' {
            return None;
        }
        let d: i64 = (c as u32 - '0' as u32) as i64;
        proof {
            let upto = chars@.subrange(from as int, i + 1);
            assert(upto.drop_last() =~= chars@.subrange(from as int, i as int));
            assert(upto.last() == c);
            lemma_digits_value_nonnegative(chars@.subrange(from as int, i as int));
        }
        acc = acc * 10 + d;
        if acc > 0x8000_0001 {
            acc = 0x8000_0001;
        }
        i += 1;
    }
    Some(acc)
}

/// The value of a sequence of digits is not negative.
pub proof fn lemma_digits_value_nonnegative(s: Seq<char>)
    requires
        forall|i: int| 0 <= i < s.len() ==> is_digit(#[trigger] s[i]),
    ensures
        digits_value(s) >= 0,
    decreases s.len(),
{
    if s.len() > 0 {
        assert forall|i: int| 0 <= i < s.drop_last().len() implies is_digit(
            #[trigger] s.drop_last()[i],
        ) by {
            assert(s.drop_last()[i] == s[i]);
        }
        lemma_digits_value_nonnegative(s.drop_last());
        assert(is_digit(s[s.len() - 1]));
    }
}

fn int_value(chars: &Vec<char>) -> (value: Option<i32>)
    ensures
        match value {
            Some(v) => int_text(chars@) == Some(v as int),
            None => int_text(chars@) is None,
        },
{
    let signed = chars.len() > 0 && (chars[0] == '-' || chars[0] == '+');
    let negative = chars.len() > 0 && chars[0] == '-';
    let from: usize = if signed {
        1
    } else {
        0
    };
    let ghost body = unsigned(chars@);
    assert(body =~= chars@.subrange(from as int, chars@.len() as int));
    if from >= chars.len() {
        return None;
    }
    match digits(chars, from) {
        None => {
            proof {
                let i = choose|i: int| from <= i < chars@.len() && !is_digit(#[trigger] chars@[i]);
                assert(body[i - from] == chars@[i]);
            }
            None
        },
        Some(v) => {
            assert forall|i: int| 0 <= i < body.len() implies is_digit(#[trigger] body[i]) by {
                assert(body[i] == chars@[i + from]);
            }
            if negative {
                if v > 0x8000_0000 {
                    None
                } else {
                    Some((-v) as i32)
                }
            } else if v > 0x7fff_ffff {
                None
            } else {
                Some(v as i32)
            }
        },
    }
}

/// The position that a key names, or `None` where the key is not of the form
/// `(x, y, z)`.
pub fn parse_key(key: &str) -> (position: Option<(i32, i32, i32)>)
    ensures
        match position {
            Some((x, y, z)) => key_position(key@) == Some((x as int, y as int, z as int)),
            None => key_position(key@) is None,
        },
{
    let chars = chars_of(key);
    let inner = trim(&chars, Class::Bracket);
    let (a, b, c) = match split_fields(&inner) {
        Some(split) => split,
        None => {
            return None;
        },
    };
    let x = match int_value(&trim(&a, Class::Space)) {
        Some(x) => x,
        None => {
            return None;
        },
    };
    let y = match int_value(&trim(&b, Class::Space)) {
        Some(y) => y,
        None => {
            return None;
        },
    };
    let z = match int_value(&trim(&c, Class::Space)) {
        Some(z) => z,
        None => {
            return None;
        },
    };
    Some((x, y, z))
}

/// The map that holds the given keys and values. A pair whose key names no
/// position is passed over; of two pairs for one position the later one
/// stays.
pub fn voxels_from_pairs(pairs: Vec<(String, String)>) -> (map: VoxelMap)
    ensures
        map@ == stored(pair_views(pairs@)),
{
    let ghost all = pair_views(pairs@);
    let mut map = VoxelMap::new();
    let mut i: usize = 0;
    assert(all.take(0) =~= Seq::<(Seq<char>, Seq<char>)>::empty());
    while i < pairs.len()
        invariant
            i <= pairs@.len(),
            all == pair_views(pairs@),
            map@ == stored(all.take(i as int)),
        decreases pairs@.len() - i,
    {
        proof {
            assert(all.take(i + 1).drop_last() =~= all.take(i as int));
            assert(all.take(i + 1).last() == all[i as int]);
        }
        let pair = &pairs[i];
        match parse_key(pair.0.as_str()) {
            Some((x, y, z)) => {
                map.insert(x, y, z, pair.1.clone());
            },
            None => {},
        }
        i += 1;
    }
    assert(all.take(pairs@.len() as int) =~= all);
    map
}

/// The map that a JSON text holds, or `None` where the text is no JSON
/// object of strings.
pub fn voxels_from_json(text: &str) -> (map: Option<VoxelMap>)
    ensures
        match map {
            Some(m) => json_object(text@) matches Some(pairs) && m@ == stored(pairs),
            None => json_object(text@) is None,
        },
{
    match read_object(text) {
        Ok(pairs) => Some(voxels_from_pairs(pairs)),
        Err(_) => None,
    }
}

} // verus!
