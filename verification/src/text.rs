//! Character classes and text rules shared by the draft checks.

use vstd::prelude::*;
use vstd::string::StringSliceAdditionalSpecFns;

verus! {

/// Unicode `White_Space`: the characters that `str::trim` removes.
pub open spec fn is_white_space(c: char) -> bool {
    let u = c as u32;
    ||| 0x09 <= u <= 0x0D
    ||| u == 0x20
    ||| u == 0x85
    ||| u == 0xA0
    ||| u == 0x1680
    ||| 0x2000 <= u <= 0x200A
    ||| u == 0x2028
    ||| u == 0x2029
    ||| u == 0x202F
    ||| u == 0x205F
    ||| u == 0x3000
}

/// Unicode general category `Cc` (control codes).
pub open spec fn is_control_code(c: char) -> bool {
    let u = c as u32;
    ||| u <= 0x1F
    ||| 0x7F <= u <= 0x9F
}

/// A display name: non-empty, without surrounding white space, at most 100
/// characters long and free of control codes.
pub open spec fn spec_valid_name(s: Seq<char>) -> bool {
    &&& s.len() > 0
    &&& !is_white_space(s[0])
    &&& !is_white_space(s.last())
    &&& s.len() <= 100
    &&& forall|i: int| 0 <= i < s.len() ==> !is_control_code(#[trigger] s[i])
}

pub fn is_white_space_char(c: char) -> (r: bool)
    ensures
        r == is_white_space(c),
{
    let u = c as u32;
    (0x09 <= u && u <= 0x0D) || u == 0x20 || u == 0x85 || u == 0xA0 || u == 0x1680 || (0x2000
        <= u && u <= 0x200A) || u == 0x2028 || u == 0x2029 || u == 0x202F || u == 0x205F || u
        == 0x3000
}

pub fn is_control_char(c: char) -> (r: bool)
    ensures
        r == is_control_code(c),
{
    let u = c as u32;
    u <= 0x1F || (0x7F <= u && u <= 0x9F)
}

/// Whether `value` is acceptable as the name of a car, a seat or a member key.
pub fn valid_name(value: &str) -> (r: bool)
    ensures
        r == spec_valid_name(value@),
{
    broadcast use vstd::string::axiom_spec_iter;
    let mut count: usize = 0;
    let mut first: Option<char> = None;
    let mut last: Option<char> = None;
    let mut clean = true;
    for c in it: value.chars()
        invariant
            it.seq() == value@,
            count == it.index(),
            count <= 100,
            count == 0 ==> first is None && last is None,
            count > 0 ==> first == Some(value@[0]) && last == Some(value@[count - 1]),
            clean == (forall|i: int| 0 <= i < count ==> !is_control_code(#[trigger] value@[i])),
    {
        if count == 0 {
            first = Some(c);
        }
        last = Some(c);
        if is_control_char(c) {
            clean = false;
        }
        if count == 100 {
            return false;
        }
        count = count + 1;
    }
    match (first, last) {
        (Some(f), Some(l)) => clean && !is_white_space_char(f) && !is_white_space_char(l),
        _ => false,
    }
}


/// Whether two texts are the same, compared through their UTF-8 bytes.
pub fn same_text(a: &str, b: &str) -> (r: bool)
    ensures
        r == (a@ == b@),
{
    broadcast use vstd::utf8::encode_utf8_decode_utf8;

    let x = a.as_bytes();
    let y = b.as_bytes();
    assert(vstd::utf8::decode_utf8(a.spec_bytes()) == a@);
    assert(vstd::utf8::decode_utf8(b.spec_bytes()) == b@);
    if x.len() != y.len() {
        return false;
    }
    let mut i: usize = 0;
    while i < x.len()
        invariant
            x@.len() == y@.len(),
            x@ == a.spec_bytes(),
            y@ == b.spec_bytes(),
            i <= x@.len(),
            forall|j: int| 0 <= j < i ==> x@[j] == y@[j],
        decreases x@.len() - i,
    {
        if x[i] != y[i] {
            return false;
        }
        i = i + 1;
    }
    assert(x@ =~= y@);
    true
}

/// Whether `s` has at most `limit` characters.
pub fn char_count_at_most(s: &str, limit: usize) -> (r: bool)
    ensures
        r == (s@.len() <= limit),
{
    broadcast use vstd::string::axiom_spec_iter;

    let mut count: usize = 0;
    for c in it: s.chars()
        invariant
            it.seq() == s@,
            count == it.index(),
            count <= limit,
    {
        if count == limit {
            return false;
        }
        count = count + 1;
    }
    true
}

/// Whether `list` holds a text equal to `item`.
pub fn contains_text(list: &Vec<String>, item: &String) -> (r: bool)
    ensures
        r == list.deep_view().contains(item@),
{
    let mut i: usize = 0;
    while i < list.len()
        invariant
            i <= list@.len(),
            forall|j: int| 0 <= j < i ==> list.deep_view()[j] != item@,
        decreases list@.len() - i,
    {
        if list[i] == *item {
            assert(list.deep_view()[i as int] == item@);
            return true;
        }
        i = i + 1;
    }
    false
}

/// A copy of an optional text.
pub fn copy_optional_text(t: &Option<String>) -> (r: Option<String>)
    ensures
        r.deep_view() == t.deep_view(),
{
    match t {
        Some(s) => Some(s.clone()),
        None => None,
    }
}


/// A name is accepted exactly when it has 1 to 100 characters, neither its
/// first nor its last character is Unicode white space (the characters that
/// `str::trim` removes: tab to carriage return, space, U+0085, U+00A0, U+1680,
/// U+2000 to U+200A, U+2028, U+2029, U+202F, U+205F, U+3000) and none of its
/// characters is a control code (U+0000 to U+001F, U+007F to U+009F).
pub proof fn lemma_name_rules(s: Seq<char>)
    ensures
        spec_valid_name(s) <==> {
            &&& 1 <= s.len() <= 100
            &&& forall|i: int|
                0 <= i < s.len() ==> !((#[trigger] s[i]) as u32 <= 0x1F || (0x7F <= s[i] as u32
                    && s[i] as u32 <= 0x9F))
            &&& forall|i: int|
                (i == 0 || i == s.len() - 1) && 0 <= i < s.len() ==> {
                    let u = (#[trigger] s[i]) as u32;
                    !(0x09 <= u <= 0x0D || u == 0x20 || u == 0x85 || u == 0xA0 || u == 0x1680 || (
                    0x2000 <= u <= 0x200A) || u == 0x2028 || u == 0x2029 || u == 0x202F || u
                        == 0x205F || u == 0x3000)
                }
        },
{
    if 1 <= s.len() {
        assert(s.last() == s[s.len() - 1]);
    }
}

} // verus!
