//! Field parsers: the release year out of a date string, and the genre name
//! list out of a raw JSON genres field.

use vstd::prelude::*;
use crate::decimal::{all_digits, dec_val, parse_u64_dec, lemma_dec_val_nonneg};

verus! {

/// Index of the first dash in a string, or its length when there is none.
pub open spec fn first_dash(s: Seq<char>) -> int
    decreases s.len(),
{
    if s.len() == 0 {
        0
    } else if s[0] == '-' {
        0
    } else {
        1 + first_dash(s.drop_first())
    }
}

pub proof fn lemma_first_dash(s: Seq<char>)
    ensures
        0 <= first_dash(s) <= s.len(),
        first_dash(s) < s.len() ==> s[first_dash(s)] == '-',
        forall|j: int| 0 <= j < first_dash(s) ==> s[j] != '-',
    decreases s.len(),
{
    if s.len() == 0 {
    } else if s[0] == '-' {
    } else {
        lemma_first_dash(s.drop_first());
        assert forall|j: int| 0 <= j < first_dash(s) implies s[j] != '-' by {
            if j > 0 {
                assert(s.drop_first()[j - 1] == s[j]);
            }
        }
        if first_dash(s) < s.len() {
            assert(s.drop_first()[first_dash(s.drop_first())] == s[first_dash(s)]);
        }
    }
}

/// The digits of a numeral after an optional leading plus sign.
pub open spec fn signed_prefix_digits(seg: Seq<char>) -> Seq<char> {
    if seg.len() > 0 && seg[0] == '+' {
        seg.drop_first()
    } else {
        seg
    }
}

/// What parsing a year segment as a 32-bit integer yields. The segment never
/// holds a dash, so only an optional plus sign is admitted.
pub open spec fn parse_year_numeral(seg: Seq<char>) -> Option<i32> {
    let digits = signed_prefix_digits(seg);
    if digits.len() > 0 && all_digits(digits) && dec_val(digits) <= i32::MAX {
        Some(dec_val(digits) as i32)
    } else {
        None
    }
}

/// The year carried by a release date string: none for the empty string;
/// otherwise the leading segment before the first dash read as an integer.
pub open spec fn release_year_spec(s: Seq<char>) -> Option<i32> {
    if s.len() == 0 {
        None
    } else {
        parse_year_numeral(s.take(first_dash(s)))
    }
}

fn find_dash(s: &str) -> (i: usize)
    ensures
        i == first_dash(s@),
{
    let n = s.unicode_len();
    let mut i: usize = 0;
    loop
        invariant
            0 <= i <= n,
            n == s@.len(),
            forall|j: int| 0 <= j < i ==> s@[j] != '-',
        ensures
            0 <= i <= n,
            i == n || s@[i as int] == '-',
            forall|j: int| 0 <= j < i ==> s@[j] != '-',
        decreases n - i,
    {
        if i == n {
            break;
        }
        if s.get_char(i) == '-' {
            break;
        }
        i = i + 1;
    }
    proof {
        lemma_first_dash(s@);
        if first_dash(s@) < i {
            assert(s@[first_dash(s@)] == '-');
        }
        if i < first_dash(s@) {
            assert(s@[i as int] != '-');
        }
    }
    i
}

/// Extracts the year from a release date: empty dates have none; the segment
/// before the first dash must read as a decimal year that fits 32 bits.
pub fn parse_release_year(release_date: &str) -> (r: Option<i32>)
    ensures
        r == release_year_spec(release_date@),
{
    let n = release_date.unicode_len();
    if n == 0 {
        return None;
    }
    let d = find_dash(release_date);
    proof {
        lemma_first_dash(release_date@);
    }
    let seg = release_date.substring_char(0, d);
    proof {
        assert(seg@ =~= release_date@.take(first_dash(release_date@)));
    }
    let m = seg.unicode_len();
    let digits = if m > 0 && seg.get_char(0) == '+' {
        seg.substring_char(1, m)
    } else {
        seg
    };
    proof {
        assert(digits@ =~= signed_prefix_digits(seg@));
    }
    proof {
        if digits@.len() > 0 && all_digits(digits@) {
            lemma_dec_val_nonneg(digits@);
        }
    }
    match parse_u64_dec(digits) {
        Some(v) => {
            if v <= i32::MAX as u64 {
                Some(v as i32)
            } else {
                None
            }
        },
        None => None,
    }
}

/// What serde_json's decoding of a genres field yields: `None` when the input
/// is not a JSON array; otherwise, for each array element in order, the
/// element's `"name"` field when that field is present and holds a string,
/// and `None` for elements without such a field.
pub uninterp spec fn json_name_fields(s: Seq<char>) -> Option<Seq<Option<Seq<char>>>>;

/// Relies on serde_json::from_str::<Vec<Value>> to decode a JSON array, and
/// on serde_json::Value::get and Value::as_str to read each element's "name"
/// string field. The result depends on the input characters alone.
#[verifier::external_body]
fn decode_name_fields(s: &str) -> (r: Option<Vec<Option<String>>>)
    ensures
        r.deep_view() == json_name_fields(s@),
{
    let values: Vec<serde_json::Value> = match serde_json::from_str(s) {
        Ok(v) => v,
        Err(_) => return None,
    };
    Some(
        values
            .iter()
            .map(|v| v.get("name").and_then(|n| n.as_str()).map(String::from))
            .collect(),
    )
}

/// The names present among decoded fields, kept in order.
pub open spec fn present_names(fields: Seq<Option<Seq<char>>>) -> Seq<Seq<char>>
    decreases fields.len(),
{
    if fields.len() == 0 {
        Seq::empty()
    } else {
        let rest = present_names(fields.drop_last());
        match fields.last() {
            Some(g) => rest.push(g),
            None => rest,
        }
    }
}

/// The genre list carried by a raw genres field: the names of the decoded
/// array elements, or the empty list when decoding fails.
pub open spec fn genre_names_spec(s: Seq<char>) -> Seq<Seq<char>> {
    match json_name_fields(s) {
        Some(fields) => present_names(fields),
        None => Seq::empty(),
    }
}

/// Keeps the present names of the decoded fields, in order; elements without
/// a usable name are dropped.
pub fn extract_names(fields: &Vec<Option<String>>) -> (r: Vec<String>)
    ensures
        r.deep_view() == present_names(fields.deep_view()),
{
    let mut r: Vec<String> = Vec::new();
    proof {
        assert(r.deep_view() =~= present_names(fields.deep_view().take(0)));
    }
    let mut i: usize = 0;
    while i < fields.len()
        invariant
            0 <= i <= fields@.len(),
            fields.deep_view().len() == fields@.len(),
            r.deep_view() == present_names(fields.deep_view().take(i as int)),
        decreases fields@.len() - i,
    {
        let ghost pre = r.deep_view();
        let ghost dv = fields.deep_view();
        match &fields[i] {
            Some(g) => {
                let h = g.clone();
                r.push(h);
                proof {
                    assert(r.deep_view() =~= pre.push(g@));
                }
            },
            None => {
            },
        }
        proof {
            assert(dv.take(i + 1).drop_last() =~= dv.take(i as int));
            assert(dv.take(i + 1).last() == dv[i as int]);
            assert(dv[i as int] == fields@[i as int].deep_view());
        }
        i = i + 1;
    }
    proof {
        assert(fields.deep_view().take(fields@.len() as int) =~= fields.deep_view());
    }
    r
}

/// Extracts the genre names from a raw JSON genres field: decodes the field
/// as an array of objects and keeps each object's string `"name"`; a field
/// that does not decode yields the empty list.
pub fn parse_genres(genres_json: &str) -> (r: Vec<String>)
    ensures
        r.deep_view() == genre_names_spec(genres_json@),
{
    match decode_name_fields(genres_json) {
        Some(fields) => extract_names(&fields),
        None => {
            let r: Vec<String> = Vec::new();
            proof {
                assert(r.deep_view() =~= Seq::<Seq<char>>::empty());
            }
            r
        },
    }
}

/// Reports whether a raw genres field decodes as a JSON array. A failing
/// field is the one condition under which `parse_genres` yields the empty
/// list without the field saying so, so callers that diagnose bad fields test
/// this.
pub fn genres_field_decodes(genres_json: &str) -> (r: bool)
    ensures
        r == (json_name_fields(genres_json@) is Some),
{
    decode_name_fields(genres_json).is_some()
}

} // verus!
