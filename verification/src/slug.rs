//! Asset slugs: lower-case ASCII letters, digits and underscores only.
use vstd::prelude::*;
use crate::text::{chars_of, extend_str, is_digit, is_lower, is_upper, join, string_of};

verus! {

/// One character that keeps a slug from being valid.
#[derive(Debug, Clone, Copy, PartialEq, Eq, Structural)]
pub enum SlugProblem {
    Uppercase(char),
    InvalidChar(char),
}

/// What is wrong with one character, if anything.
pub open spec fn problem_of(c: char) -> Option<SlugProblem> {
    if is_lower(c) || is_digit(c) || c == '_' {
        None
    } else if is_upper(c) {
        Some(SlugProblem::Uppercase(c))
    } else {
        Some(SlugProblem::InvalidChar(c))
    }
}

/// Every problem of a slug, in the order its characters appear.
pub open spec fn problems(s: Seq<char>) -> Seq<SlugProblem>
    decreases s.len(),
{
    if s.len() == 0 {
        Seq::empty()
    } else {
        match problem_of(s.last()) {
            Some(p) => problems(s.drop_last()).push(p),
            None => problems(s.drop_last()),
        }
    }
}

pub open spec fn problem_char(p: SlugProblem) -> char {
    match p {
        SlugProblem::Uppercase(c) => c,
        SlugProblem::InvalidChar(c) => c,
    }
}

/// The text `message` reports for a slug with problems.
pub open spec fn message_text(s: Seq<char>) -> Seq<char> {
    "Invalid slug: "@ + join(
        problems(s).map_values(|p: SlugProblem| seq![problem_char(p)]),
        seq![' '],
    )
}

pub fn validate(slug: &str) -> (r: Vec<SlugProblem>)
    ensures
        r@ == problems(slug@),
{
    let s = chars_of(slug);
    let mut out: Vec<SlugProblem> = Vec::new();
    let mut i: usize = 0;
    while i < s.len()
        invariant
            s@ == slug@,
            i <= s.len(),
            out@ == problems(s@.take(i as int)),
        decreases s.len() - i,
    {
        let ch = s[i];
        assert(s@.take(i + 1).drop_last() =~= s@.take(i as int));
        if ('a' <= ch && ch <= 'z') || ('0' <= ch && ch <= '9') || ch == '_' {
        } else if 'A' <= ch && ch <= 'Z' {
            out.push(SlugProblem::Uppercase(ch));
        } else {
            out.push(SlugProblem::InvalidChar(ch));
        }
        i += 1;
    }
    assert(s@.take(s.len() as int) =~= s@);
    out
}

pub fn is_valid(slug: &str) -> (r: bool)
    ensures
        r == (slug@.len() > 0 && problems(slug@).len() == 0),
{
    let s = chars_of(slug);
    s.len() > 0 && validate(slug).len() == 0
}

/// `None` for a valid (or empty) slug; otherwise every offending character, space-separated.
pub fn message(slug: &str) -> (r: Option<String>)
    ensures
        problems(slug@).len() == 0 ==> r is None,
        problems(slug@).len() > 0 ==> (r matches Some(m) && m@ == message_text(slug@)),
{
    let found = validate(slug);
    if found.len() == 0 {
        return None;
    }
    let mut out: Vec<char> = Vec::new();
    extend_str(&mut out, "Invalid slug: ");
    let ghost head = out@;
    let ghost pieces = problems(slug@).map_values(|p: SlugProblem| seq![problem_char(p)]);
    let mut i: usize = 0;
    while i < found.len()
        invariant
            found@ == problems(slug@),
            pieces == problems(slug@).map_values(|p: SlugProblem| seq![problem_char(p)]),
            head == "Invalid slug: "@,
            i <= found.len(),
            out@ == head + join(pieces.take(i as int), seq![' ']),
        decreases found.len() - i,
    {
        assert(pieces.take(i + 1).drop_last() =~= pieces.take(i as int));
        let ch = match found[i] {
            SlugProblem::Uppercase(c) => c,
            SlugProblem::InvalidChar(c) => c,
        };
        if i > 0 {
            out.push(' ');
        }
        out.push(ch);
        i += 1;
        proof {
            let t = pieces.take(i as int);
            assert(t.last() == seq![ch]);
            if i == 1 {
                assert(join(t, seq![' ']) == t[0]);
                assert(out@ =~= head + join(t, seq![' ']));
            } else {
                assert(out@ =~= head + join(t, seq![' ']));
            }
        }
    }
    assert(pieces.take(found.len() as int) =~= pieces);
    Some(string_of(&out))
}

/// What a slug may hold, over every character: lower-case ASCII letters, digits and `_`
/// are fine; `A`-`Z` is reported as an upper-case letter, and anything else as an invalid
/// character.
pub proof fn law_slug_character_problems(c: char)
    ensures
        (('a' <= c <= 'z') || ('0' <= c <= '9') || c == '_') ==> problem_of(c) is None,
        !(('a' <= c <= 'z') || ('0' <= c <= '9') || c == '_') && ('A' <= c <= 'Z')
            ==> problem_of(c) == Some(SlugProblem::Uppercase(c)),
        !(('a' <= c <= 'z') || ('0' <= c <= '9') || c == '_') && !('A' <= c <= 'Z')
            ==> problem_of(c) == Some(SlugProblem::InvalidChar(c)),
{
}

/// A slug has no problems exactly when every character is a lower-case ASCII letter, a
/// digit or `_`; so a slug is valid exactly when it is non-empty and made of those.
pub proof fn law_slug_problems_are_its_bad_characters(s: Seq<char>)
    ensures
        problems(s).len() == 0 <==> forall|i: int| 0 <= i < s.len() ==> (('a' <= #[trigger] s[i] <= 'z') || ('0' <= s[i] <= '9') || s[i] == '_'),
        forall|i: int| 0 <= i < s.len() && !(('a' <= #[trigger] s[i] <= 'z') || ('0' <= s[i] <= '9') || s[i] == '_')
            ==> problems(s).len() > 0,
    decreases s.len(),
{
    if s.len() > 0 {
        law_slug_problems_are_its_bad_characters(s.drop_last());
        let t = s.drop_last();
        assert forall|i: int| 0 <= i < t.len() implies t[i] == s[i] by {}
        if problems(s).len() == 0 {
            assert forall|i: int| 0 <= i < s.len() implies (('a' <= #[trigger] s[i] <= 'z') || ('0' <= s[i] <= '9') || s[i] == '_') by {
                if i < s.len() - 1 {
                    assert(t[i] == s[i]);
                }
            }
        }
    }
}

} // verus!
