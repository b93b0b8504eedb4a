//! Path templates: the parameters in braces of a path become references to
//! arguments.

use vstd::prelude::*;

use crate::config::chars_list;
use crate::text::{append_chars, chars_of, head_of, string_of, tail_of};

verus! {

/// The texts of the matches of `pattern` in `text` that
/// `regex::Regex::find_iter` yields, in their order; none where `pattern`
/// is no pattern.
pub uninterp spec fn matched(pattern: Seq<char>, text: Seq<char>) -> Option<Seq<Seq<char>>>;

/// What `regex::Regex::replacen` makes of `text` with every match of
/// `pattern` replaced by the reference to the argument that the match
/// names; none where `pattern` is no pattern.
pub uninterp spec fn rewritten(pattern: Seq<char>, text: Seq<char>) -> Option<Seq<char>>;

/// The name between the first and the last character of a match.
pub open spec fn inner_name(found: Seq<char>) -> Seq<char> {
    if found.len() >= 2 {
        found.subrange(1, found.len() - 1)
    } else {
        found
    }
}

/// The reference to the argument that a match names: for `{id}` it is
/// `{{args.id}}`.
pub open spec fn arg_reference_of(found: Seq<char>) -> Seq<char> {
    "{{args."@ + inner_name(found) + "}}"@
}

/// The name between the first and the last character of a match.
pub fn name_of_match(found: &str) -> (r: String)
    ensures
        r@ == inner_name(found@),
{
    let chars = chars_of(found);
    if chars.len() >= 2 {
        let without_last = head_of(&chars, chars.len() - 1);
        let inner = tail_of(&without_last, 1);
        assert(inner@ =~= found@.subrange(1, found@.len() - 1));
        string_of(&inner)
    } else {
        String::from_str(found)
    }
}

/// The reference to the argument that a match names.
pub fn arg_reference(found: &str) -> (r: String)
    ensures
        r@ == arg_reference_of(found@),
{
    let mut out = chars_of("{{args.");
    let name = chars_of(name_of_match(found).as_str());
    let close = chars_of("}}");
    append_chars(&mut out, &name);
    append_chars(&mut out, &close);
    string_of(&out)
}

/// `regex::Regex::new` on `pattern` and `find_iter` on `text`, each match
/// as its text: the contract gives the result the name [`matched`] and
/// claims no more.
#[verifier::external_body]
pub(crate) fn find_all(pattern: &str, text: &str) -> (r: Option<Vec<String>>)
    ensures
        match r {
            Some(found) => matched(pattern@, text@) == Some(chars_list(found@)),
            None => matched(pattern@, text@) is None,
        },
{
    regex::Regex::new(pattern).ok().map(
        |re| re.find_iter(text).map(|m| m.as_str().to_string()).collect(),
    )
}

/// `regex::Regex::new` on `pattern` and `replacen` on `text` without limit,
/// each match replaced by what [`arg_reference`] makes of it: the contract
/// gives the result the name [`rewritten`] and claims no more.
#[verifier::external_body]
pub(crate) fn replace_all(pattern: &str, text: &str) -> (r: Option<String>)
    ensures
        match r {
            Some(out) => rewritten(pattern@, text@) == Some(out@),
            None => rewritten(pattern@, text@) is None,
        },
{
    regex::Regex::new(pattern).ok().map(
        |re| re.replacen(text, 0, |cap: &regex::Captures| arg_reference(&cap[0])).to_string(),
    )
}

} // verus!
