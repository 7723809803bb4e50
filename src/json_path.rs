//! Paths into JSON documents, written `.a.b.c`.
use vstd::prelude::*;
use vstd::string::StrSliceExecFns;

verus! {

/// The pieces of `s` between its dots, empty pieces included.
pub open spec fn split_on_dots(s: Seq<char>) -> Seq<Seq<char>>
    decreases s.len(),
{
    if s.len() == 0 {
        seq![Seq::empty()]
    } else {
        let rest = split_on_dots(s.drop_first());
        if s[0] == '.' {
            seq![Seq::<char>::empty()] + rest
        } else {
            rest.update(0, seq![s[0]] + rest[0])
        }
    }
}

/// The pieces of `s` between its dots, as `str::split_terminator` gives them:
/// a trailing empty piece is left out.
pub open spec fn dot_pieces(s: Seq<char>) -> Seq<Seq<char>> {
    let all = split_on_dots(s);
    if all.len() > 0 && all.last().len() == 0 {
        all.drop_last()
    } else {
        all
    }
}

/// `s` without its leading dot, where it has one.
pub open spec fn without_leading_dot(s: Seq<char>) -> Seq<char> {
    if s.len() > 0 && s[0] == '.' {
        s.drop_first()
    } else {
        s
    }
}

/// `s` without its leading dot, where it has one.
fn strip_leading_dot(s: &str) -> (r: &str)
    ensures
        r@ == without_leading_dot(s@),
{
    let n = s.unicode_len();
    if n > 0 && s.get_char(0) == '.' {
        let rest = s.substring_char(1, n);
        proof {
            assert(rest@ =~= s@.drop_first());
        }
        rest
    } else {
        s
    }
}

/// Relies on `str::split_terminator`: the pieces between the dots, in order,
/// with a trailing empty piece left out.
#[verifier::external_body]
fn split_at_dots(s: &str) -> (r: Vec<String>)
    ensures
        r@.map_values(|p: String| p@) == dot_pieces(s@),
{
    s.split_terminator('.').map(|p| p.to_string()).collect()
}

/// The field names along a path: `.abc.123` gives `abc` and `123`.
pub fn parse_path(path: &str) -> (r: Vec<String>)
    ensures
        r@.map_values(|p: String| p@) == dot_pieces(without_leading_dot(path@)),
{
    split_at_dots(strip_leading_dot(path))
}

} // verus!
