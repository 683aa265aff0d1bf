//! The template grammar.
//!
//! At each position the first construct that matches wins, in this order:
//! an escaped literal `{{{{TEXT}}}}`, a prompt reference `{{prompt:IDENT}}`,
//! a variable prompt reference `{{prompt_var:IDENT}}`, an argument
//! `{{IDENT}}`, and a run of literal text up to the next `{{` or the end.
//! Input at which none matches makes the whole parse fail.

use vstd::prelude::*;
use vstd::string::*;
use crate::prompt::{parts_view, ParseTemplateError, PartView, PromptTemplatePart};
use crate::text::{chars_of, find, find_from, has_at, lemma_find_from, occurs_at, substring};

verus! {

/// The longest identifier accepted.
pub const MAX_IDENTIFIER_LENGTH: usize = 64;

/// Whether `c` is an ASCII letter or digit.
pub open spec fn is_ascii_alphanumeric(c: char) -> bool {
    ('a' <= c && c <= 'z') || ('A' <= c && c <= 'Z') || ('0' <= c && c <= '9')
}

/// A character allowed in an identifier: an ASCII letter or digit, `-` or
/// `_`.
pub open spec fn is_identifier_char(c: char) -> bool {
    is_ascii_alphanumeric(c) || c == '-' || c == '_'
}

/// Whether `s` is a valid identifier: 1 to 64 identifier characters.
pub open spec fn is_identifier(s: Seq<char>) -> bool {
    1 <= s.len() <= MAX_IDENTIFIER_LENGTH && forall|k: int|
        0 <= k < s.len() ==> #[trigger] is_identifier_char(s[k])
}

/// The number of identifier characters in `s` from index `i` on, up to the
/// first character that is not one.
pub open spec fn identifier_run(s: Seq<char>, i: int) -> nat
    decreases s.len() - i,
{
    if 0 <= i < s.len() && is_identifier_char(s[i]) {
        1 + identifier_run(s, i + 1)
    } else {
        0
    }
}

/// `{{`
pub open spec fn open_tag() -> Seq<char> {
    seq!['{', '{']
}

/// `}}`
pub open spec fn close_tag() -> Seq<char> {
    seq!['}', '}']
}

/// `{{{{`
pub open spec fn escape_open_tag() -> Seq<char> {
    seq!['{', '{', '{', '{']
}

/// `}}}}`
pub open spec fn escape_close_tag() -> Seq<char> {
    seq!['}', '}', '}', '}']
}

/// `{{prompt:`
pub open spec fn prompt_tag() -> Seq<char> {
    seq!['{', '{', 'p', 'r', 'o', 'm', 'p', 't', ':']
}

/// `{{prompt_var:`
pub open spec fn prompt_var_tag() -> Seq<char> {
    seq!['{', '{', 'p', 'r', 'o', 'm', 'p', 't', '_', 'v', 'a', 'r', ':']
}

/// An escaped literal at `i`: the text up to the first `}}}}`, and the
/// index just past that closing tag.
pub open spec fn escaped_at(s: Seq<char>, i: int) -> Option<(Seq<char>, int)> {
    if occurs_at(s, i, escape_open_tag()) {
        match find_from(s, escape_close_tag(), i + 4) {
            Some(j) => Some((s.subrange(i + 4, j), j + 4)),
            None => None,
        }
    } else {
        None
    }
}

/// `tag`, an identifier and `}}` at `i`: the identifier, and the index just
/// past the closing tag.
pub open spec fn tagged_at(s: Seq<char>, i: int, tag: Seq<char>) -> Option<(Seq<char>, int)> {
    if occurs_at(s, i, tag) {
        let start = i + tag.len();
        let n = identifier_run(s, start);
        if 1 <= n <= MAX_IDENTIFIER_LENGTH && occurs_at(s, start + n, close_tag()) {
            Some((s.subrange(start, start + n), start + n + 2))
        } else {
            None
        }
    } else {
        None
    }
}

/// A run of literal text at `i`: everything up to the next `{{`, or to the
/// end; it must not be empty.
pub open spec fn literal_at(s: Seq<char>, i: int) -> Option<(Seq<char>, int)> {
    if 0 <= i < s.len() && !occurs_at(s, i, open_tag()) {
        let end = match find_from(s, open_tag(), i) {
            Some(j) => j,
            None => s.len() as int,
        };
        Some((s.subrange(i, end), end))
    } else {
        None
    }
}

/// The part that starts at `i`, with the index just past it.
pub open spec fn element_at(s: Seq<char>, i: int) -> Option<(PartView, int)> {
    match escaped_at(s, i) {
        Some((t, e)) => Some((PartView::Literal(t), e)),
        None => match tagged_at(s, i, prompt_tag()) {
            Some((n, e)) => Some((PartView::PromptReference(n), e)),
            None => match tagged_at(s, i, prompt_var_tag()) {
                Some((n, e)) => Some((PartView::VariablePromptReference(n), e)),
                None => match tagged_at(s, i, open_tag()) {
                    Some((n, e)) => Some((PartView::Argument(n), e)),
                    None => match literal_at(s, i) {
                        Some((t, e)) => Some((PartView::Literal(t), e)),
                        None => None,
                    },
                },
            },
        },
    }
}

/// Every part ends after it starts, and within the input.
pub proof fn lemma_element_end(s: Seq<char>, i: int)
    requires
        0 <= i,
    ensures
        element_at(s, i) matches Some((_, e)) ==> i < e <= s.len(),
{
    lemma_find_from(s, escape_close_tag(), i + 4);
    lemma_find_from(s, open_tag(), i);
}

/// The identifier characters counted by `identifier_run` lie within `s`.
proof fn lemma_identifier_run(s: Seq<char>, i: int)
    requires
        0 <= i,
    ensures
        i + identifier_run(s, i) <= s.len() || identifier_run(s, i) == 0,
        forall|k: int| i <= k < i + identifier_run(s, i) ==> is_identifier_char(#[trigger] s[k]),
    decreases s.len() - i,
{
    if 0 <= i < s.len() && is_identifier_char(s[i]) {
        lemma_identifier_run(s, i + 1);
    }
}

/// The three ways a part can look: an escaped literal ends with `}}}}`; a
/// tagged construct ends with `}}` and holds no `{` after its opening
/// braces; a literal run holds no `{{`.
proof fn lemma_element_shape(s: Seq<char>, i: int)
    requires
        0 <= i,
    ensures
        element_at(s, i) matches Some((_, e)) ==> {
            &&& i < e <= s.len()
            &&& {
                ||| (occurs_at(s, e - 4, escape_close_tag()) && occurs_at(s, e - 2, close_tag()))
                ||| (i + 5 <= e && occurs_at(s, e - 2, close_tag()) && forall|k: int|
                    i + 2 <= k < e ==> #[trigger] s[k] != '{')
                ||| (forall|k: int| i <= k < e ==> !#[trigger] occurs_at(s, k, open_tag()))
            }
        },
{
    lemma_element_end(s, i);
    lemma_find_from(s, escape_close_tag(), i + 4);
    lemma_find_from(s, open_tag(), i);
    if let Some((_, e)) = escaped_at(s, i) {
        assert(s.subrange(e - 4, e)[2] == s[e - 2]);
        assert(s.subrange(e - 4, e)[3] == s[e - 1]);
        assert(s.subrange(e - 2, e) =~= close_tag());
    } else if let Some((_, e)) = tagged_at(s, i, prompt_tag()) {
        lemma_tagged_shape(s, i, prompt_tag());
    } else if let Some((_, e)) = tagged_at(s, i, prompt_var_tag()) {
        lemma_tagged_shape(s, i, prompt_var_tag());
    } else if let Some((_, e)) = tagged_at(s, i, open_tag()) {
        lemma_tagged_shape(s, i, open_tag());
    }
}

/// A tagged construct ends with `}}` and holds no `{` after its opening
/// braces.
proof fn lemma_tagged_shape(s: Seq<char>, i: int, tag: Seq<char>)
    requires
        0 <= i,
        tag == prompt_tag() || tag == prompt_var_tag() || tag == open_tag(),
    ensures
        tagged_at(s, i, tag) matches Some((_, e)) ==> {
            &&& i + 5 <= e <= s.len()
            &&& occurs_at(s, e - 2, close_tag())
            &&& forall|k: int| i + 2 <= k < e ==> #[trigger] s[k] != '{'
        },
{
    let start = i + tag.len();
    lemma_identifier_run(s, start);
    if let Some((_, e)) = tagged_at(s, i, tag) {
        let n = identifier_run(s, start);
        assert forall|k: int| i + 2 <= k < e implies #[trigger] s[k] != '{' by {
            if k < start {
                assert(s.subrange(i, start)[k - i] == s[k]);
                assert(tag[k - i] != '{');
            } else if k < start + n {
                assert(is_identifier_char(s[k]));
            } else {
                assert(s.subrange(start + n, start + n + 2)[k - start - n] == s[k]);
            }
        }
    }
}

/// The parts of `s` from index `i` on, or the index at which no part matches.
pub open spec fn parse_from(s: Seq<char>, i: int) -> Result<Seq<PartView>, int>
    decreases s.len() - i,
    via parse_from_decreases
{
    if i < 0 || i >= s.len() {
        Ok(Seq::empty())
    } else {
        match element_at(s, i) {
            None => Err(i),
            Some((p, e)) => match parse_from(s, e) {
                Ok(rest) => Ok(seq![p] + rest),
                Err(k) => Err(k),
            },
        }
    }
}

#[via_fn]
proof fn parse_from_decreases(s: Seq<char>, i: int) {
    if 0 <= i {
        lemma_element_end(s, i);
    }
}

/// The parts of the template source `s`, or the index at which no part
/// matches.
pub open spec fn template_parts(s: Seq<char>) -> Result<Seq<PartView>, int> {
    parse_from(s, 0)
}

/// From any index at or before an unclosed `{{` at `p`, parsing fails.
proof fn lemma_unclosed_from(s: Seq<char>, i: int, p: int)
    requires
        0 <= i <= p,
        occurs_at(s, p, open_tag()),
        forall|k: int| p <= k ==> !occurs_at(s, k, close_tag()),
    ensures
        parse_from(s, i) is Err,
    decreases p - i,
{
    lemma_element_shape(s, i);
    if let Some((_, e)) = element_at(s, i) {
        assert(s.subrange(p, p + 2)[0] == s[p]);
        if e > p {
            if occurs_at(s, e - 2, close_tag()) {
                assert(e - 2 < p);
                assert(s.subrange(e - 2, e)[1] == s[e - 1]);
            } else {
                assert(!occurs_at(s, p, open_tag()));
            }
        }
        lemma_unclosed_from(s, e, p);
    }
}

/// From any index at or before an unclosed `{{{{` at `p`, parsing fails.
proof fn lemma_unclosed_escape_from(s: Seq<char>, i: int, p: int)
    requires
        0 <= i <= p,
        occurs_at(s, p, escape_open_tag()),
        forall|k: int| p <= k ==> !occurs_at(s, k, escape_close_tag()),
    ensures
        parse_from(s, i) is Err,
    decreases p - i,
{
    lemma_element_shape(s, i);
    if let Some((_, e)) = element_at(s, i) {
        assert(s.subrange(p, p + 4)[0] == s[p]);
        assert(s.subrange(p, p + 4)[1] == s[p + 1]);
        assert(s.subrange(p, p + 4)[2] == s[p + 2]);
        if e > p {
            if occurs_at(s, e - 4, escape_close_tag()) && occurs_at(s, e - 2, close_tag()) {
                assert(e - 4 < p);
                assert(s.subrange(e - 4, e)[1] == s[e - 3]);
                assert(s.subrange(e - 4, e)[2] == s[e - 2]);
                assert(s.subrange(e - 4, e)[3] == s[e - 1]);
            } else if i + 5 <= e && occurs_at(s, e - 2, close_tag()) && forall|k: int|
                i + 2 <= k < e ==> #[trigger] s[k] != '{' {
                assert(s.subrange(e - 2, e)[1] == s[e - 1]);
                if p == i {
                    assert(s[i + 2] != '{');
                } else if p + 1 < e {
                    assert(s[p + 1] != '{');
                }
            } else {
                assert(s.subrange(p, p + 2) =~= open_tag());
                assert(!occurs_at(s, p, open_tag()));
            }
        }
        lemma_unclosed_escape_from(s, e, p);
    }
}

/// A `{{` with no `}}` at or after it makes the whole parse fail.
pub proof fn lemma_unclosed_braces_fail(s: Seq<char>, p: int)
    requires
        occurs_at(s, p, open_tag()),
        forall|k: int| p <= k ==> !occurs_at(s, k, close_tag()),
    ensures
        template_parts(s) is Err,
{
    lemma_unclosed_from(s, 0, p);
}

/// A `{{{{` with no `}}}}` at or after it makes the whole parse fail.
pub proof fn lemma_unclosed_escape_fails(s: Seq<char>, p: int)
    requires
        occurs_at(s, p, escape_open_tag()),
        forall|k: int| p <= k ==> !occurs_at(s, k, escape_close_tag()),
    ensures
        template_parts(s) is Err,
{
    lemma_unclosed_escape_from(s, 0, p);
}

/// The source text of `part`: literal text as it stands, and the other
/// parts in their bracketed forms.
pub open spec fn part_source(part: PartView) -> Seq<char> {
    match part {
        PartView::Literal(t) => t,
        PartView::Argument(n) => open_tag() + n + close_tag(),
        PartView::PromptReference(n) => prompt_tag() + n + close_tag(),
        PartView::VariablePromptReference(n) => prompt_var_tag() + n + close_tag(),
    }
}

/// The source texts of `parts`, joined in order.
pub open spec fn template_source(parts: Seq<PartView>) -> Seq<char>
    decreases parts.len(),
{
    if parts.len() == 0 {
        Seq::empty()
    } else {
        part_source(parts[0]) + template_source(parts.drop_first())
    }
}

/// Part `i` of `parts` has a source that reads back as itself: a name is a
/// valid identifier; literal text is not empty, holds no `{{`, does not end
/// with `{`, and is not followed by more literal text.
pub open spec fn printable_at(parts: Seq<PartView>, i: int) -> bool {
    match parts[i] {
        PartView::Literal(t) => {
            &&& t.len() > 0
            &&& forall|k: int| !occurs_at(t, k, open_tag())
            &&& t.last() != '{'
            &&& i + 1 < parts.len() ==> !(parts[i + 1] is Literal)
        },
        PartView::Argument(n) => is_identifier(n),
        PartView::PromptReference(n) => is_identifier(n),
        PartView::VariablePromptReference(n) => is_identifier(n),
    }
}

/// Every part of `parts` has a source that reads back as itself.
pub open spec fn printable(parts: Seq<PartView>) -> bool {
    forall|i: int| 0 <= i < parts.len() ==> #[trigger] printable_at(parts, i)
}

/// Identifier characters up to a character that is not one make a run of
/// exactly that length.
proof fn lemma_identifier_run_exact(s: Seq<char>, i: int, m: int)
    requires
        0 <= i,
        0 <= m,
        i + m <= s.len(),
        forall|k: int| i <= k < i + m ==> is_identifier_char(#[trigger] s[k]),
        i + m == s.len() || !is_identifier_char(s[i + m]),
    ensures
        identifier_run(s, i) == m,
    decreases m,
{
    if m > 0 {
        lemma_identifier_run_exact(s, i + 1, m - 1);
    }
}

/// The source of non-empty parts that start with a bracketed part starts
/// with `{{`.
proof fn lemma_source_opens(parts: Seq<PartView>)
    requires
        parts.len() > 0,
        !(parts[0] is Literal),
    ensures
        template_source(parts).len() >= 2,
        template_source(parts)[0] == '{',
        template_source(parts)[1] == '{',
{
}

/// A tag that starts with `{{` occurs only where `{{` does.
proof fn lemma_tag_opens(s: Seq<char>, i: int, tag: Seq<char>)
    requires
        tag.len() >= 2,
        tag[0] == '{',
        tag[1] == '{',
        occurs_at(s, i, tag),
    ensures
        occurs_at(s, i, open_tag()),
{
    assert(s.subrange(i, i + tag.len())[0] == s[i]);
    assert(s.subrange(i, i + tag.len())[1] == s[i + 1]);
    assert(s.subrange(i, i + 2) =~= open_tag());
}

/// Where each character of a bracketed part's source comes from.
proof fn lemma_tagged_source(tag: Seq<char>, n: Seq<char>)
    ensures
        (tag + n + close_tag()).len() == tag.len() + n.len() + 2,
        forall|k: int| 0 <= k < tag.len() ==> #[trigger] (tag + n + close_tag())[k] == tag[k],
        forall|k: int|
            0 <= k < n.len() ==> #[trigger] (tag + n + close_tag())[tag.len() + k] == n[k],
        (tag + n + close_tag())[tag.len() + n.len() as int] == '}',
        (tag + n + close_tag())[tag.len() + n.len() + 1int] == '}',
{
    assert forall|k: int| 0 <= k < tag.len() implies #[trigger] (tag + n + close_tag())[k]
        == tag[k] by {
        assert((tag + n)[k] == tag[k]);
    }
    assert forall|k: int| 0 <= k < n.len() implies #[trigger] (tag + n + close_tag())[tag.len()
        + k] == n[k] by {
        assert((tag + n)[tag.len() + k] == n[k]);
    }
}

/// The part whose source stands at `i` in `s` is read there.
proof fn lemma_read_part(s: Seq<char>, i: int, parts: Seq<PartView>)
    requires
        0 <= i <= s.len(),
        parts.len() > 0,
        printable(parts),
        s.subrange(i, s.len() as int) == template_source(parts),
    ensures
        element_at(s, i) == Some((parts[0], i + part_source(parts[0]).len())),
{
    let src = part_source(parts[0]);
    let rest = template_source(parts.drop_first());
    assert(printable_at(parts, 0));
    assert(s.subrange(i, s.len() as int).len() == (src + rest).len());
    assert(s.len() == i + src.len() + rest.len());
    assert forall|k: int| 0 <= k < src.len() implies s[i + k] == #[trigger] src[k] by {
        assert(s.subrange(i, s.len() as int)[k] == s[i + k]);
        assert((src + rest)[k] == src[k]);
    }
    assert forall|k: int| 0 <= k < rest.len() implies s[i + src.len() + k] == #[trigger] rest[k] by {
        assert(s.subrange(i, s.len() as int)[src.len() + k] == s[i + src.len() + k]);
        assert((src + rest)[src.len() + k] == rest[k]);
    }
    assert(s.len() == i + src.len() + rest.len());
    match parts[0] {
        PartView::Literal(t) => {
            let end = i + t.len();
            assert(!occurs_at(t, 0, open_tag()));
            assert(!occurs_at(s, i, open_tag())) by {
                if occurs_at(s, i, open_tag()) {
                    assert(s.subrange(i, i + 2)[0] == s[i]);
                    assert(s.subrange(i, i + 2)[1] == s[i + 1]);
                    if t.len() >= 2 {
                        assert(t.subrange(0, 2) =~= open_tag());
                    }
                }
            }
            assert forall|k: int| i <= k < end implies !occurs_at(s, k, open_tag()) by {
                if occurs_at(s, k, open_tag()) {
                    assert(s.subrange(k, k + 2)[0] == s[k]);
                    assert(s.subrange(k, k + 2)[1] == s[k + 1]);
                    if k + 1 < end {
                        assert(!occurs_at(t, k - i, open_tag()));
                        assert(t.subrange(k - i, k - i + 2) =~= open_tag());
                    } else {
                        assert(t.last() == t[k - i]);
                    }
                }
            }
            lemma_find_from(s, open_tag(), i);
            if rest.len() > 0 {
                assert(printable_at(parts, 1));
                assert(parts.drop_first()[0] == parts[1]);
                lemma_source_opens(parts.drop_first());
                assert(s.subrange(end, end + 2) =~= open_tag());
            }
            assert(s.subrange(i, end) =~= t);
            if occurs_at(s, i, escape_open_tag()) {
                lemma_tag_opens(s, i, escape_open_tag());
            }
            if occurs_at(s, i, prompt_tag()) {
                lemma_tag_opens(s, i, prompt_tag());
            }
            if occurs_at(s, i, prompt_var_tag()) {
                lemma_tag_opens(s, i, prompt_var_tag());
            }
            assert(escaped_at(s, i) is None);
            assert(tagged_at(s, i, prompt_tag()) is None);
            assert(tagged_at(s, i, prompt_var_tag()) is None);
            assert(tagged_at(s, i, open_tag()) is None);
            match find_from(s, open_tag(), i) {
                Some(j) => {
                    if j < end {
                        assert(!occurs_at(s, j, open_tag()));
                    }
                    if rest.len() > 0 && j > end {
                        assert(!occurs_at(s, end, open_tag()));
                    }
                },
                None => {
                    if rest.len() > 0 {
                        assert(!occurs_at(s, end, open_tag()));
                    }
                },
            }
            assert(literal_at(s, i) == Some((t, end)));
        },
        PartView::Argument(n) => {
            lemma_tagged_source(open_tag(), n);
            assert(src[2] == n[0]);
            let start = i + 2;
            assert(s.subrange(i, i + 2) =~= open_tag());
            assert(!occurs_at(s, i, escape_open_tag())) by {
                assert(s[i + 2] == n[0]);
                assert(is_identifier_char(n[0]));
            }
            assert(!occurs_at(s, i, prompt_tag())) by {
                if occurs_at(s, i, prompt_tag()) {
                    if n.len() <= 6 {
                        assert(s.subrange(i, i + 9)[2 + n.len() as int] == s[start + n.len()]);
                        assert(src[2 + n.len() as int] == '}');
                    } else {
                        assert(s.subrange(i, i + 9)[8] == s[i + 8]);
                        assert(src[8] == n[6]);
                        assert(is_identifier_char(n[6]));
                    }
                }
            }
            assert(!occurs_at(s, i, prompt_var_tag())) by {
                if occurs_at(s, i, prompt_var_tag()) {
                    if n.len() <= 10 {
                        assert(s.subrange(i, i + 13)[2 + n.len() as int] == s[start + n.len()]);
                        assert(src[2 + n.len() as int] == '}');
                    } else {
                        assert(s.subrange(i, i + 13)[12] == s[i + 12]);
                        assert(src[12] == n[10]);
                        assert(is_identifier_char(n[10]));
                    }
                }
            }
            assert forall|k: int| start <= k < start + n.len() implies is_identifier_char(
                #[trigger] s[k],
            ) by {
                assert(src[k - i] == n[k - start]);
            }
            assert(src[2 + n.len() as int] == '}');
            lemma_identifier_run_exact(s, start, n.len() as int);
            assert(s.subrange(start + n.len(), start + n.len() + 2) =~= close_tag());
            assert forall|k: int| 0 <= k < n.len() implies s.subrange(start, start + n.len())[k]
                == n[k] by {
                assert(src[2 + k] == n[k]);
                assert(s[start + k] == src[2 + k]);
            }
            assert(s.subrange(start, start + n.len()) =~= n);
            assert(escaped_at(s, i) is None);
            assert(tagged_at(s, i, prompt_tag()) is None);
            assert(tagged_at(s, i, prompt_var_tag()) is None);
            assert(tagged_at(s, i, open_tag()) == Some((n, start + n.len() + 2)));
        },
        PartView::PromptReference(n) => {
            lemma_tagged_source(prompt_tag(), n);
            let start = i + 9;
            assert(s.subrange(i, i + 9) =~= prompt_tag());
            assert(!occurs_at(s, i, escape_open_tag())) by {
                assert(s.subrange(i, i + 4)[2] == s[i + 2]);
            }
            assert forall|k: int| start <= k < start + n.len() implies is_identifier_char(
                #[trigger] s[k],
            ) by {
                assert(src[k - i] == n[k - start]);
            }
            assert(src[9 + n.len() as int] == '}');
            lemma_identifier_run_exact(s, start, n.len() as int);
            assert(s.subrange(start + n.len(), start + n.len() + 2) =~= close_tag());
            assert forall|k: int| 0 <= k < n.len() implies s.subrange(start, start + n.len())[k]
                == n[k] by {
                assert(src[9 + k] == n[k]);
                assert(s[start + k] == src[9 + k]);
            }
            assert(s.subrange(start, start + n.len()) =~= n);
            assert(escaped_at(s, i) is None);
            assert(tagged_at(s, i, prompt_tag()) == Some((n, start + n.len() + 2)));
        },
        PartView::VariablePromptReference(n) => {
            lemma_tagged_source(prompt_var_tag(), n);
            let start = i + 13;
            assert(s.subrange(i, i + 13) =~= prompt_var_tag());
            assert(!occurs_at(s, i, escape_open_tag())) by {
                assert(s.subrange(i, i + 4)[2] == s[i + 2]);
            }
            assert(!occurs_at(s, i, prompt_tag())) by {
                assert(s.subrange(i, i + 9)[8] == s[i + 8]);
            }
            assert forall|k: int| start <= k < start + n.len() implies is_identifier_char(
                #[trigger] s[k],
            ) by {
                assert(src[k - i] == n[k - start]);
            }
            assert(src[13 + n.len() as int] == '}');
            lemma_identifier_run_exact(s, start, n.len() as int);
            assert(s.subrange(start + n.len(), start + n.len() + 2) =~= close_tag());
            assert forall|k: int| 0 <= k < n.len() implies s.subrange(start, start + n.len())[k]
                == n[k] by {
                assert(src[13 + k] == n[k]);
                assert(s[start + k] == src[13 + k]);
            }
            assert(s.subrange(start, start + n.len()) =~= n);
            assert(escaped_at(s, i) is None);
            assert(tagged_at(s, i, prompt_tag()) is None);
            assert(tagged_at(s, i, prompt_var_tag()) == Some((n, start + n.len() + 2)));
        },
    }
}

/// Parsing from `i` reads back the parts whose source stands there.
proof fn lemma_read_back_from(s: Seq<char>, i: int, parts: Seq<PartView>)
    requires
        0 <= i <= s.len(),
        printable(parts),
        s.subrange(i, s.len() as int) == template_source(parts),
    ensures
        parse_from(s, i) == Ok::<Seq<PartView>, int>(parts),
    decreases parts.len(),
{
    if parts.len() == 0 {
        assert(s.subrange(i, s.len() as int).len() == 0);
        assert(parts =~= Seq::<PartView>::empty());
    } else {
        lemma_read_part(s, i, parts);
        let src = part_source(parts[0]);
        let tail = parts.drop_first();
        let e = i + src.len();
        assert(s.subrange(i, s.len() as int) == src + template_source(tail));
        assert(s.subrange(i, s.len() as int).len() == src.len() + template_source(tail).len());
        assert(s.subrange(e, s.len() as int) =~= template_source(tail)) by {
            assert forall|k: int| 0 <= k < s.len() - e implies s.subrange(e, s.len() as int)[k]
                == template_source(tail)[k] by {
                assert(s.subrange(i, s.len() as int)[src.len() + k] == s[e + k]);
            }
        }
        assert forall|j: int| 0 <= j < tail.len() implies #[trigger] printable_at(tail, j) by {
            assert(printable_at(parts, j + 1));
            assert(tail[j] == parts[j + 1]);
            if j + 1 < tail.len() {
                assert(tail[j + 1] == parts[j + 2]);
            }
        }
        lemma_read_back_from(s, e, tail);
        assert(seq![parts[0]] + tail =~= parts);
    }
}

/// Parts whose sources read back as themselves are exactly what parsing
/// their joined sources gives.
pub proof fn lemma_source_reads_back(parts: Seq<PartView>)
    requires
        printable(parts),
    ensures
        template_parts(template_source(parts)) == Ok::<Seq<PartView>, int>(parts),
{
    let s = template_source(parts);
    assert(s.subrange(0, s.len() as int) =~= s);
    lemma_read_back_from(s, 0, parts);
}

/// `{{prompt:NAME}}` parses as the one reference to NAME.
pub proof fn lemma_reference_source(name: Seq<char>)
    requires
        is_identifier(name),
    ensures
        template_parts(prompt_tag() + name + close_tag()) == Ok::<Seq<PartView>, int>(
            seq![PartView::PromptReference(name)],
        ),
{
    let parts = seq![PartView::PromptReference(name)];
    assert(printable_at(parts, 0));
    assert(parts.drop_first() =~= Seq::<PartView>::empty());
    assert(template_source(parts.drop_first()) == Seq::<char>::empty());
    assert(template_source(parts) =~= prompt_tag() + name + close_tag());
    lemma_source_reads_back(parts);
}

/// Plain text (not empty, with no `{{`, not ending in `{`) parses as one
/// literal part.
pub proof fn lemma_text_source(text: Seq<char>)
    requires
        text.len() > 0,
        forall|k: int| !occurs_at(text, k, open_tag()),
        text.last() != '{',
    ensures
        template_parts(text) == Ok::<Seq<PartView>, int>(seq![PartView::Literal(text)]),
{
    let parts = seq![PartView::Literal(text)];
    assert(printable_at(parts, 0));
    assert(parts.drop_first() =~= Seq::<PartView>::empty());
    assert(template_source(parts.drop_first()) == Seq::<char>::empty());
    assert(template_source(parts) =~= text);
    lemma_source_reads_back(parts);
}

/// The message of the error for a source that fails to parse at `at`.
pub open spec fn parse_error_message(s: Seq<char>, at: int) -> Seq<char> {
    "Failed to parse template: unexpected input `"@ + s.subrange(at, s.len() as int) + "`"@
}

fn open_tag_chars() -> (r: Vec<char>)
    ensures
        r@ == open_tag(),
{
    let r = vec!['{', '{'];
    assert(r@ =~= open_tag());
    r
}

fn close_tag_chars() -> (r: Vec<char>)
    ensures
        r@ == close_tag(),
{
    let r = vec!['}', '}'];
    assert(r@ =~= close_tag());
    r
}

fn escape_open_chars() -> (r: Vec<char>)
    ensures
        r@ == escape_open_tag(),
{
    let r = vec!['{', '{', '{', '{'];
    assert(r@ =~= escape_open_tag());
    r
}

fn escape_close_chars() -> (r: Vec<char>)
    ensures
        r@ == escape_close_tag(),
{
    let r = vec!['}', '}', '}', '}'];
    assert(r@ =~= escape_close_tag());
    r
}

fn prompt_tag_chars() -> (r: Vec<char>)
    ensures
        r@ == prompt_tag(),
{
    let r = vec!['{', '{', 'p', 'r', 'o', 'm', 'p', 't', ':'];
    assert(r@ =~= prompt_tag());
    r
}

fn prompt_var_tag_chars() -> (r: Vec<char>)
    ensures
        r@ == prompt_var_tag(),
{
    let r = vec!['{', '{', 'p', 'r', 'o', 'm', 'p', 't', '_', 'v', 'a', 'r', ':'];
    assert(r@ =~= prompt_var_tag());
    r
}

/// Whether `c` may stand in an identifier.
pub fn identifier_char(c: char) -> (r: bool)
    ensures
        r == is_identifier_char(c),
{
    ('a' <= c && c <= 'z') || ('A' <= c && c <= 'Z') || ('0' <= c && c <= '9') || c == '-' || c
        == '_'
}

/// The number of identifier characters from `start` on.
fn identifier_length(cs: &Vec<char>, start: usize) -> (n: usize)
    requires
        start <= cs.len(),
    ensures
        n == identifier_run(cs@, start as int),
        start + n <= cs.len(),
{
    let mut j = start;
    while j < cs.len() && identifier_char(cs[j])
        invariant
            start <= j <= cs.len(),
            identifier_run(cs@, start as int) == (j - start) + identifier_run(cs@, j as int),
        decreases cs.len() - j,
    {
        j += 1;
    }
    j - start
}

/// The escaped literal at `i`, if there is one.
fn escaped(s: &str, cs: &Vec<char>, i: usize) -> (r: Option<(String, usize)>)
    requires
        cs@ == s@,
    ensures
        match r {
            Some((t, e)) => escaped_at(cs@, i as int) == Some((t@, e as int)) && e <= cs.len(),
            None => escaped_at(cs@, i as int) is None,
        },
{
    let open = escape_open_chars();
    if !has_at(cs, i, &open) {
        return None;
    }
    assert(i + open@.len() <= cs.len());
    match find(cs, &escape_close_chars(), i + 4) {
        Some(j) => Some((substring(s, i + 4, j), j + 4)),
        None => None,
    }
}

/// `tag`, an identifier and `}}` at `i`, if they are there.
fn tagged(s: &str, cs: &Vec<char>, i: usize, tag: &Vec<char>) -> (r: Option<(String, usize)>)
    requires
        cs@ == s@,
    ensures
        match r {
            Some((n, e)) => tagged_at(cs@, i as int, tag@) == Some((n@, e as int)) && e <= cs.len(),
            None => tagged_at(cs@, i as int, tag@) is None,
        },
{
    if !has_at(cs, i, tag) {
        return None;
    }
    assert(i + tag@.len() <= cs.len());
    let start = i + tag.len();
    let n = identifier_length(cs, start);
    if n < 1 || n > MAX_IDENTIFIER_LENGTH || !has_at(cs, start + n, &close_tag_chars()) {
        return None;
    }
    Some((substring(s, start, start + n), start + n + 2))
}

/// The run of literal text at `i`, if there is one.
fn literal(s: &str, cs: &Vec<char>, i: usize) -> (r: Option<(String, usize)>)
    requires
        cs@ == s@,
    ensures
        match r {
            Some((t, e)) => literal_at(cs@, i as int) == Some((t@, e as int)) && e <= cs.len(),
            None => literal_at(cs@, i as int) is None,
        },
{
    let open = open_tag_chars();
    if i >= cs.len() || has_at(cs, i, &open) {
        return None;
    }
    let end = match find(cs, &open, i) {
        Some(j) => j,
        None => cs.len(),
    };
    Some((substring(s, i, end), end))
}

/// The part at `i`, if one matches there.
fn element(s: &str, cs: &Vec<char>, i: usize) -> (r: Option<(PromptTemplatePart, usize)>)
    requires
        cs@ == s@,
    ensures
        match r {
            Some((p, e)) => element_at(cs@, i as int) == Some((p@, e as int)) && e <= cs.len(),
            None => element_at(cs@, i as int) is None,
        },
{
    if let Some((t, e)) = escaped(s, cs, i) {
        return Some((PromptTemplatePart::Literal(t), e));
    }
    if let Some((n, e)) = tagged(s, cs, i, &prompt_tag_chars()) {
        return Some((PromptTemplatePart::PromptReference(n), e));
    }
    if let Some((n, e)) = tagged(s, cs, i, &prompt_var_tag_chars()) {
        return Some((PromptTemplatePart::VariablePromptReference(n), e));
    }
    if let Some((n, e)) = tagged(s, cs, i, &open_tag_chars()) {
        return Some((PromptTemplatePart::Argument(n), e));
    }
    match literal(s, cs, i) {
        Some((t, e)) => Some((PromptTemplatePart::Literal(t), e)),
        None => None,
    }
}

/// The error for `s`, which fails to parse at `at`.
fn parse_error(s: &str, at: usize) -> (e: ParseTemplateError)
    requires
        at <= s@.len(),
    ensures
        e.message@ == parse_error_message(s@, at as int),
{
    let mut message = String::from_str("Failed to parse template: unexpected input `");
    message.append(substring(s, at, s.unicode_len()).as_str());
    message.append("`");
    ParseTemplateError { message }
}

/// The parts of `s` from index `i` on, after the parts already read.
spec fn after_parts(read: Seq<PartView>, rest: Result<Seq<PartView>, int>) -> Result<Seq<PartView>, int> {
    match rest {
        Ok(q) => Ok(read + q),
        Err(k) => Err(k),
    }
}

/// Parses a whole template source into its parts.
///
/// Fails, naming the input left over, where at some position no construct
/// of the grammar matches; an unterminated `{{` or `{{{{` is such a place.
pub fn parse_template(input: &str) -> (r: Result<Vec<PromptTemplatePart>, ParseTemplateError>)
    ensures
        match r {
            Ok(parts) => template_parts(input@) == Ok::<Seq<PartView>, int>(parts_view(parts@)),
            Err(e) => template_parts(input@) matches Err(at) && e.message@ == parse_error_message(
                input@,
                at,
            ),
        },
{
    let cs = chars_of(input);
    let mut parts: Vec<PromptTemplatePart> = Vec::new();
    let mut i: usize = 0;
    assert(parts_view(parts@) =~= Seq::<PartView>::empty());
    assert(after_parts(Seq::empty(), parse_from(cs@, 0)) =~= parse_from(cs@, 0));
    while i < cs.len()
        invariant
            cs@ == input@,
            i <= cs.len(),
            parse_from(cs@, 0) == after_parts(parts_view(parts@), parse_from(cs@, i as int)),
        decreases cs.len() - i,
    {
        match element(input, &cs, i) {
            Some((p, e)) => {
                proof {
                    lemma_element_end(cs@, i as int);
                    let ghost before = parts_view(parts@);
                    match parse_from(cs@, e as int) {
                        Ok(q) => {
                            assert(before + (seq![p@] + q) =~= before.push(p@) + q);
                        },
                        Err(_) => {},
                    }
                }
                let ghost previous = parts@;
                let ghost pv = p@;
                parts.push(p);
                assert(parts_view(parts@) =~= parts_view(previous).push(pv));
                i = e;
            },
            None => {
                return Err(parse_error(input, i));
            },
        }
    }
    assert(parts_view(parts@) + Seq::<PartView>::empty() =~= parts_view(parts@));
    Ok(parts)
}

/// The text read by one construct at the start of `input` and the input
/// after it, or the error for `input` where the construct is not there.
fn split_after(input: &str, cs: &Vec<char>, found: Option<(String, usize)>) -> (r: Result<
    (String, String),
    ParseTemplateError,
>)
    requires
        cs@ == input@,
        found matches Some((_, e)) ==> e <= cs.len(),
    ensures
        match found {
            Some((t, e)) => r matches Ok((rest, v)) && v == t && rest@ == input@.subrange(
                e as int,
                input@.len() as int,
            ),
            None => r matches Err(err) && err.message@ == parse_error_message(input@, 0),
        },
{
    match found {
        Some((t, e)) => Ok((substring(input, e, cs.len()), t)),
        None => Err(parse_error(input, 0)),
    }
}

/// Reads the part at the start of `input`, returning the rest of the input
/// and the part.
pub fn parse_element(input: &str) -> (r: Result<(String, PromptTemplatePart), ParseTemplateError>)
    ensures
        match r {
            Ok((rest, p)) => element_at(input@, 0) matches Some((q, e)) && p@ == q && rest@
                == input@.subrange(e, input@.len() as int),
            Err(err) => element_at(input@, 0) is None && err.message@ == parse_error_message(
                input@,
                0,
            ),
        },
{
    let cs = chars_of(input);
    match element(input, &cs, 0) {
        Some((p, e)) => Ok((substring(input, e, cs.len()), p)),
        None => Err(parse_error(input, 0)),
    }
}

/// Reads a run of literal text at the start of `input`: everything up to
/// the next `{{`, or all of it; the run must not be empty.
pub fn parse_literal_text(input: &str) -> (r: Result<(String, String), ParseTemplateError>)
    ensures
        match r {
            Ok((rest, t)) => literal_at(input@, 0) matches Some((u, e)) && t@ == u && rest@
                == input@.subrange(e, input@.len() as int),
            Err(err) => literal_at(input@, 0) is None && err.message@ == parse_error_message(
                input@,
                0,
            ),
        },
{
    let cs = chars_of(input);
    split_after(input, &cs, literal(input, &cs, 0))
}

/// Reads an argument `{{IDENT}}` at the start of `input`, returning the
/// rest of the input and the identifier.
pub fn parse_argument(input: &str) -> (r: Result<(String, String), ParseTemplateError>)
    ensures
        match r {
            Ok((rest, n)) => tagged_at(input@, 0, open_tag()) matches Some((m, e)) && n@ == m
                && rest@ == input@.subrange(e, input@.len() as int),
            Err(err) => tagged_at(input@, 0, open_tag()) is None && err.message@
                == parse_error_message(input@, 0),
        },
{
    let cs = chars_of(input);
    split_after(input, &cs, tagged(input, &cs, 0, &open_tag_chars()))
}

/// Reads a prompt reference `{{prompt:IDENT}}` at the start of `input`,
/// returning the rest of the input and the referenced name.
pub fn parse_prompt_reference(input: &str) -> (r: Result<(String, String), ParseTemplateError>)
    ensures
        match r {
            Ok((rest, n)) => tagged_at(input@, 0, prompt_tag()) matches Some((m, e)) && n@ == m
                && rest@ == input@.subrange(e, input@.len() as int),
            Err(err) => tagged_at(input@, 0, prompt_tag()) is None && err.message@
                == parse_error_message(input@, 0),
        },
{
    let cs = chars_of(input);
    split_after(input, &cs, tagged(input, &cs, 0, &prompt_tag_chars()))
}

/// Reads a variable prompt reference `{{prompt_var:IDENT}}` at the start of
/// `input`, returning the rest of the input and the argument's name.
pub fn parse_variable_prompt_reference(input: &str) -> (r: Result<(String, String), ParseTemplateError>)
    ensures
        match r {
            Ok((rest, n)) => tagged_at(input@, 0, prompt_var_tag()) matches Some((m, e)) && n@
                == m && rest@ == input@.subrange(e, input@.len() as int),
            Err(err) => tagged_at(input@, 0, prompt_var_tag()) is None && err.message@
                == parse_error_message(input@, 0),
        },
{
    let cs = chars_of(input);
    split_after(input, &cs, tagged(input, &cs, 0, &prompt_var_tag_chars()))
}

/// Reads an escaped literal `{{{{TEXT}}}}` at the start of `input`, where
/// TEXT ends at the first `}}}}`; returns the rest of the input and TEXT.
pub fn parse_escaped_literal(input: &str) -> (r: Result<(String, String), ParseTemplateError>)
    ensures
        match r {
            Ok((rest, t)) => escaped_at(input@, 0) matches Some((u, e)) && t@ == u && rest@
                == input@.subrange(e, input@.len() as int),
            Err(err) => escaped_at(input@, 0) is None && err.message@ == parse_error_message(
                input@,
                0,
            ),
        },
{
    let cs = chars_of(input);
    split_after(input, &cs, escaped(input, &cs, 0))
}

} // verus!
