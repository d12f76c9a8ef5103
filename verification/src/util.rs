use vstd::prelude::*;

verus! {

use crate::model::round_milli;

/// Round a four-decimal fixed-point quantity to three decimal places:
/// the nearest multiple of 10, ties away from zero.
pub fn round(v: i64) -> (r: i64)
    requires
        i64::MIN + 6 <= v <= i64::MAX - 5,
    ensures
        r as int == round_milli(v as int),
{
    if v >= 0 {
        ((v + 5) / 10) * 10
    } else {
        -(((-v) + 5) / 10) * 10
    }
}

pub open spec fn is_digit_char(c: char) -> bool {
    c == '0' || c == '1' || c == '2' || c == '3' || c == '4' || c == '5' || c == '6' || c == '7'
        || c == '8' || c == '9'
}

/// A ten-character date window `dddd-dd-dd` starts at position `i`.
pub open spec fn date_shape_at(s: Seq<char>, i: int) -> bool {
    &&& 0 <= i
    &&& i + 10 <= s.len()
    &&& forall|k: int| 0 <= k < 10 && k != 4 && k != 7 ==> is_digit_char(#[trigger] s[i + k])
    &&& s[i + 4] == '-'
    &&& s[i + 7] == '-'
}

/// Relies on regex::Regex::new and Regex::find with the pattern
/// "[0-9]{4}-[0-9]{2}-[0-9]{2}": find returns the first (leftmost) match
/// of the pattern, as its text.
#[verifier::external_body]
fn find_date_window(s: &str) -> (r: Option<String>)
    ensures
        match r {
            Some(m) => exists|i: int|
                #[trigger] date_shape_at(s@, i) && m@ == s@.subrange(i, i + 10) && (forall|j: int|
                    0 <= j < i ==> !date_shape_at(s@, j)),
            None => forall|i: int| !(#[trigger] date_shape_at(s@, i)),
        },
{
    let re = regex::Regex::new("[0-9]{4}-[0-9]{2}-[0-9]{2}").unwrap();
    re.find(s).map(|m| m.as_str().to_string())
}

/// The first date of the form `dddd-dd-dd` written in a file name, if any.
pub fn extract_date(filename: &str) -> (r: Option<String>)
    ensures
        match r {
            Some(m) => exists|i: int|
                #[trigger] date_shape_at(filename@, i) && m@ == filename@.subrange(i, i + 10) && (
                forall|j: int| 0 <= j < i ==> !date_shape_at(filename@, j)),
            None => forall|i: int| !(#[trigger] date_shape_at(filename@, i)),
        },
{
    find_date_window(filename)
}

/// `sfx` is a suffix of `name`.
pub open spec fn has_suffix(name: Seq<u8>, sfx: Seq<u8>) -> bool {
    name.len() >= sfx.len() && name.subrange(name.len() - sfx.len(), name.len() as int) == sfx
}

fn ends_with_bytes(name: &Vec<u8>, sfx: &Vec<u8>) -> (r: bool)
    ensures
        r == has_suffix(name@, sfx@),
{
    if name.len() < sfx.len() {
        return false;
    }
    let off = name.len() - sfx.len();
    let mut k: usize = 0;
    while k < sfx.len()
        invariant
            sfx@.len() <= name@.len(),
            name@.len() <= usize::MAX,
            off == name@.len() - sfx@.len(),
            0 <= k <= sfx@.len(),
            forall|j: int| 0 <= j < k ==> name@[off + j] == sfx@[j],
        decreases sfx@.len() - k,
    {
        if name[off + k] != sfx[k] {
            proof {
                assert(name@.subrange(
                    name@.len() - sfx@.len(),
                    name@.len() as int,
                )[k as int] == name@[off + k]);
            }
            return false;
        }
        k += 1;
    }
    proof {
        assert(name@.subrange(name@.len() - sfx@.len(), name@.len() as int) =~= sfx@);
    }
    true
}

/// The index of the last name carrying the suffix, the way a directory
/// scan picks its data file.
pub fn last_with_suffix(names: &Vec<Vec<u8>>, sfx: &Vec<u8>) -> (r: Option<usize>)
    ensures
        match r {
            Some(i) => i < names@.len() && has_suffix(names@[i as int]@, sfx@) && (forall|j: int|
                i < j < names@.len() ==> !has_suffix((#[trigger] names@[j])@, sfx@)),
            None => forall|j: int| 0 <= j < names@.len() ==> !has_suffix((#[trigger] names@[j])@, sfx@),
        },
{
    let mut i: usize = names.len();
    while i > 0
        invariant
            0 <= i <= names@.len(),
            forall|j: int| i <= j < names@.len() ==> !has_suffix((#[trigger] names@[j])@, sfx@),
        decreases i,
    {
        i = i - 1;
        if ends_with_bytes(&names[i], sfx) {
            return Some(i);
        }
    }
    None
}

} // verus!
