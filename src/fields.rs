//! Splitting a FEN string into its fields: the maximal runs of letters,
//! digits, `_`, `/` and `-`. Every other character separates fields.
use vstd::prelude::*;

verus! {

/// A character that can belong to a field.
pub open spec fn is_field_char(c: char) -> bool {
    ||| 'A' <= c && c <= 'Z'
    ||| 'a' <= c && c <= 'z'
    ||| '0' <= c && c <= '9'
    ||| c == '_'
    ||| c == '/'
    ||| c == '-'
}

/// The fields of `s`, scanning left to right, where `run` holds the
/// characters of the field under way.
pub open spec fn scan_fields(s: Seq<char>, run: Seq<char>) -> Seq<Seq<char>>
    decreases s.len(),
{
    if s.len() == 0 {
        if run.len() == 0 {
            seq![]
        } else {
            seq![run]
        }
    } else if is_field_char(s[0]) {
        scan_fields(s.drop_first(), run.push(s[0]))
    } else if run.len() == 0 {
        scan_fields(s.drop_first(), run)
    } else {
        seq![run] + scan_fields(s.drop_first(), seq![])
    }
}

/// The maximal runs of field characters in `s`, in order.
pub open spec fn fields_of(s: Seq<char>) -> Seq<Seq<char>> {
    scan_fields(s, seq![])
}

/// The pattern that matches one field.
pub open spec fn field_pattern() -> Seq<char> {
    "[A-Za-z0-9_/-]+"@
}

/// Relies on `regex::Regex::new` and `regex::Regex::find_iter`: for the
/// pattern `[A-Za-z0-9_/-]+`, which compiles, the successive leftmost
/// non-overlapping greedy matches are the maximal runs of the class.
#[verifier::external_body]
fn regex_find_all(pattern: &str, text: &str) -> (r: Vec<Vec<char>>)
    requires
        pattern@ == field_pattern(),
    ensures
        r.deep_view() == fields_of(text@),
{
    let re = regex::Regex::new(pattern).unwrap();
    re.find_iter(text).map(|m| m.as_str().chars().collect()).collect()
}

/// The fields of a FEN string, each as its characters.
pub fn split_fields(fen: &str) -> (r: Vec<Vec<char>>)
    ensures
        r.deep_view() == fields_of(fen@),
{
    regex_find_all("[A-Za-z0-9_/-]+", fen)
}

} // verus!
