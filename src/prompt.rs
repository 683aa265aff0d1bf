//! Prompts, parsed templates and their rendering.

use vstd::prelude::*;
use vstd::string::*;
use crate::arguments::PromptArguments;
use crate::parser::{
    close_tag, element_at, escape_close_tag, escape_open_tag, escaped_at, is_identifier,
    lemma_reference_source, lemma_text_source, open_tag, parse_error_message, parse_from,
    parse_template, prompt_tag, template_parts,
};
use crate::storage::MemoryStorage;
use crate::text::{find_from, lemma_find_from, occurs_at};

verus! {

/// One atomic unit of a parsed template.
#[derive(Debug, Clone, PartialEq, Eq)]
pub enum PromptTemplatePart {
    /// Text emitted verbatim.
    Literal(String),
    /// A placeholder filled from the caller's arguments.
    Argument(String),
    /// A reference to another stored prompt, by name.
    PromptReference(String),
    /// A reference to another stored prompt whose name is the value of the
    /// named argument.
    VariablePromptReference(String),
}

/// The mathematical value of a [`PromptTemplatePart`].
pub enum PartView {
    Literal(Seq<char>),
    Argument(Seq<char>),
    PromptReference(Seq<char>),
    VariablePromptReference(Seq<char>),
}

impl View for PromptTemplatePart {
    type V = PartView;

    open spec fn view(&self) -> PartView {
        match self {
            PromptTemplatePart::Literal(t) => PartView::Literal(t@),
            PromptTemplatePart::Argument(n) => PartView::Argument(n@),
            PromptTemplatePart::PromptReference(n) => PartView::PromptReference(n@),
            PromptTemplatePart::VariablePromptReference(n) => PartView::VariablePromptReference(n@),
        }
    }
}

/// The values of a sequence of parts.
pub open spec fn parts_view(parts: Seq<PromptTemplatePart>) -> Seq<PartView> {
    parts.map_values(|p: PromptTemplatePart| p@)
}

/// The kinds of parts that carry a name.
#[derive(Debug, Clone, Copy, PartialEq, Eq, Structural)]
pub enum PartKind {
    Argument,
    PromptReference,
    VariablePromptReference,
}

/// The name that `p` carries, if it is a part of kind `kind`.
pub open spec fn name_of_kind(p: PartView, kind: PartKind) -> Option<Seq<char>> {
    match p {
        PartView::Literal(_) => None,
        PartView::Argument(n) => if kind is Argument {
            Some(n)
        } else {
            None
        },
        PartView::PromptReference(n) => if kind is PromptReference {
            Some(n)
        } else {
            None
        },
        PartView::VariablePromptReference(n) => if kind is VariablePromptReference {
            Some(n)
        } else {
            None
        },
    }
}

/// The names that the parts of kind `kind` carry, in order of the parts.
pub open spec fn names_of_kind(parts: Seq<PartView>, kind: PartKind) -> Seq<Seq<char>>
    decreases parts.len(),
{
    if parts.len() == 0 {
        Seq::empty()
    } else {
        let rest = names_of_kind(parts.drop_last(), kind);
        match name_of_kind(parts.last(), kind) {
            Some(n) => rest.push(n),
            None => rest,
        }
    }
}

/// Malformed template source.
#[derive(Debug, Clone, PartialEq, Eq)]
pub struct ParseTemplateError {
    pub message: String,
}

/// The deepest nesting of references that rendering follows.
pub const MAX_NESTING_DEPTH: usize = 3;

/// What identifies and describes a prompt.
#[derive(Debug, Clone)]
pub struct PromptMetadata {
    /// The prompt's unique name.
    pub name: String,
    /// A short description, if any.
    pub description: Option<String>,
    /// Tags for searching, in the order given.
    pub tags: Vec<String>,
}

/// A stored prompt: its metadata and its template source.
#[derive(Debug, Clone)]
pub struct Prompt {
    pub metadata: PromptMetadata,
    pub content: String,
}

/// The mathematical value of a [`Prompt`].
pub struct PromptView {
    pub name: Seq<char>,
    pub description: Option<Seq<char>>,
    pub tags: Seq<Seq<char>>,
    pub content: Seq<char>,
}

/// The values of a sequence of strings.
pub open spec fn strings_view(v: Seq<String>) -> Seq<Seq<char>> {
    v.map_values(|t: String| t@)
}

impl View for Prompt {
    type V = PromptView;

    open spec fn view(&self) -> PromptView {
        PromptView {
            name: self.metadata.name@,
            description: match self.metadata.description {
                Some(d) => Some(d@),
                None => None,
            },
            tags: strings_view(self.metadata.tags@),
            content: self.content@,
        }
    }
}

impl PromptMetadata {
    pub fn new(name: String, description: Option<String>, tags: Vec<String>) -> (r: PromptMetadata)
        ensures
            r.name == name,
            r.description == description,
            r.tags == tags,
    {
        PromptMetadata { name, description, tags }
    }
}

impl Prompt {
    pub fn new(metadata: PromptMetadata, content: String) -> (r: Prompt)
        ensures
            r.metadata == metadata,
            r.content == content,
    {
        Prompt { metadata, content }
    }

    /// A prompt with a name, content and tags, and no description.
    pub fn new_simple(name: String, content: String, tags: Vec<String>) -> (r: Prompt)
        ensures
            r.metadata.name == name,
            r.metadata.description is None,
            r.metadata.tags == tags,
            r.content == content,
    {
        Prompt::new(PromptMetadata::new(name, None, tags), content)
    }

    pub fn name(&self) -> (r: &str)
        ensures
            r@ == self.metadata.name@,
    {
        self.metadata.name.as_str()
    }

    pub fn content(&self) -> (r: &str)
        ensures
            r@ == self.content@,
    {
        self.content.as_str()
    }

    pub fn tags(&self) -> (r: &Vec<String>)
        ensures
            *r == self.metadata.tags,
    {
        &self.metadata.tags
    }

    /// Whether the prompt carries at least one of `tags`.
    pub fn has_any_tag(&self, tags: &Vec<String>) -> (r: bool)
        ensures
            r == exists|i: int, j: int|
                0 <= i < self.metadata.tags.len() && 0 <= j < tags.len()
                    && #[trigger] self.metadata.tags@[i]@ == #[trigger] tags@[j]@,
    {
        let mut i: usize = 0;
        while i < self.metadata.tags.len()
            invariant
                i <= self.metadata.tags.len(),
                forall|a: int, b: int|
                    0 <= a < i && 0 <= b < tags.len() ==> #[trigger] self.metadata.tags@[a]@ != #[trigger] tags@[b]@,
            decreases self.metadata.tags.len() - i,
        {
            let mut j: usize = 0;
            while j < tags.len()
                invariant
                    i < self.metadata.tags.len(),
                    j <= tags.len(),
                    forall|a: int, b: int|
                        0 <= a < i && 0 <= b < tags.len() ==> #[trigger] self.metadata.tags@[a]@ != #[trigger] tags@[b]@,
                    forall|b: int| 0 <= b < j ==> self.metadata.tags@[i as int]@ != #[trigger] tags@[b]@,
                decreases tags.len() - j,
            {
                if self.metadata.tags[i] == tags[j] {
                    assert(self.metadata.tags@[i as int]@ == tags@[j as int]@);
                    return true;
                }
                j += 1;
            }
            i += 1;
        }
        false
    }
}

/// A prompt together with the parts of its content.
#[derive(Debug, Clone)]
pub struct PromptTemplate {
    /// The prompt whose content was parsed.
    pub prompt: Prompt,
    /// The parts of the prompt's content, in order.
    pub parts: Vec<PromptTemplatePart>,
}

/// Why a render failed, at the reference where it failed.
#[derive(Debug, Clone)]
pub enum RenderErrorKind {
    /// An argument that the template names has no value.
    MissingArgument(String),
    /// The named prompt is already being rendered on the current path.
    CircularReference(String),
    /// Following one more reference would nest deeper than allowed.
    MaxDepthExceeded,
    /// No stored prompt has the referenced name.
    ReferenceNotFound(String),
    /// The referenced prompt's content does not parse.
    InvalidReference(String, ParseTemplateError),
}

/// A failed render: the cause, the references through which it was reached
/// (outermost first), and a message that says both.
#[derive(Debug, Clone)]
pub struct RenderTemplateError {
    pub kind: RenderErrorKind,
    pub references: Vec<String>,
    pub message: String,
}

/// The mathematical value of a [`RenderErrorKind`].
pub enum FailureCause {
    MissingArgument(Seq<char>),
    CircularReference(Seq<char>),
    MaxDepthExceeded,
    ReferenceNotFound(Seq<char>),
    /// The name, and the message of the parse error.
    InvalidReference(Seq<char>, Seq<char>),
}

/// The mathematical value of a [`RenderTemplateError`].
pub struct RenderFailure {
    pub references: Seq<Seq<char>>,
    pub cause: FailureCause,
}

impl View for RenderErrorKind {
    type V = FailureCause;

    open spec fn view(&self) -> FailureCause {
        match self {
            RenderErrorKind::MissingArgument(n) => FailureCause::MissingArgument(n@),
            RenderErrorKind::CircularReference(n) => FailureCause::CircularReference(n@),
            RenderErrorKind::MaxDepthExceeded => FailureCause::MaxDepthExceeded,
            RenderErrorKind::ReferenceNotFound(n) => FailureCause::ReferenceNotFound(n@),
            RenderErrorKind::InvalidReference(n, e) => FailureCause::InvalidReference(n@, e.message@),
        }
    }
}

impl View for RenderTemplateError {
    type V = RenderFailure;

    open spec fn view(&self) -> RenderFailure {
        RenderFailure { references: strings_view(self.references@), cause: self.kind@ }
    }
}

/// The message for a failure with no reference around it.
pub open spec fn cause_message(cause: FailureCause) -> Seq<char> {
    match cause {
        FailureCause::MissingArgument(n) => "Missing argument: "@ + n,
        FailureCause::CircularReference(n) => "Circular reference detected: prompt '"@ + n
            + "' references itself (directly or indirectly)"@,
        FailureCause::MaxDepthExceeded => "Maximum nesting depth of 3 exceeded"@,
        FailureCause::ReferenceNotFound(n) => "Error retrieving referenced prompt '"@ + n
            + "': Prompt not found"@,
        FailureCause::InvalidReference(n, m) => "Error parsing referenced prompt '"@ + n
            + "': Error found while parsing template: "@ + m,
    }
}

/// The message for a failure reached through `references`, outermost first.
pub open spec fn failure_message(references: Seq<Seq<char>>, cause: FailureCause) -> Seq<char>
    decreases references.len(),
{
    if references.len() == 0 {
        cause_message(cause)
    } else {
        "Failed to render referenced prompt '"@ + references[0] + "': "@ + failure_message(
            references.drop_first(),
            cause,
        )
    }
}

impl RenderTemplateError {
    /// The message describes the failure.
    pub open spec fn wf(&self) -> bool {
        self.message@ == failure_message(self@.references, self@.cause)
    }
}

/// A failure with no reference around it.
pub open spec fn failure(cause: FailureCause) -> RenderFailure {
    RenderFailure { references: Seq::empty(), cause }
}

/// Rendering the first `n` of `parts`, on the path of prompts `path`
/// entered so far: the texts of the parts joined, or the first failure.
pub open spec fn render_prefix(
    parts: Seq<PartView>,
    n: int,
    args: Map<Seq<char>, Seq<char>>,
    store: Map<Seq<char>, PromptView>,
    path: Seq<Seq<char>>,
) -> Result<Seq<char>, RenderFailure>
    decreases MAX_NESTING_DEPTH - path.len(), n + 2,
{
    if n <= 0 {
        Ok(Seq::empty())
    } else {
        match render_prefix(parts, n - 1, args, store, path) {
            Err(f) => Err(f),
            Ok(done) => match render_part(parts[n - 1], args, store, path) {
                Ok(t) => Ok(done + t),
                Err(f) => Err(f),
            },
        }
    }
}

/// Rendering one part on the path `path`.
pub open spec fn render_part(
    part: PartView,
    args: Map<Seq<char>, Seq<char>>,
    store: Map<Seq<char>, PromptView>,
    path: Seq<Seq<char>>,
) -> Result<Seq<char>, RenderFailure>
    decreases MAX_NESTING_DEPTH - path.len(), 1int,
{
    match part {
        PartView::Literal(t) => Ok(t),
        PartView::Argument(n) => if args.contains_key(n) {
            Ok(args[n])
        } else {
            Err(failure(FailureCause::MissingArgument(n)))
        },
        PartView::PromptReference(n) => render_reference(n, args, store, path),
        PartView::VariablePromptReference(n) => if args.contains_key(n) {
            render_reference(args[n], args, store, path)
        } else {
            Err(failure(FailureCause::MissingArgument(n)))
        },
    }
}

/// Rendering the stored prompt `target` from the path `path`: refused if
/// `target` is on the path or the path is as deep as allowed; otherwise the
/// prompt is fetched, parsed and rendered with `target` added to the path,
/// and a failure inside it is reported through `target`.
pub open spec fn render_reference(
    target: Seq<char>,
    args: Map<Seq<char>, Seq<char>>,
    store: Map<Seq<char>, PromptView>,
    path: Seq<Seq<char>>,
) -> Result<Seq<char>, RenderFailure>
    decreases MAX_NESTING_DEPTH - path.len(), 0int,
{
    if path.contains(target) {
        Err(failure(FailureCause::CircularReference(target)))
    } else if path.len() >= MAX_NESTING_DEPTH {
        Err(failure(FailureCause::MaxDepthExceeded))
    } else if !store.contains_key(target) {
        Err(failure(FailureCause::ReferenceNotFound(target)))
    } else {
        let content = store[target].content;
        match template_parts(content) {
            Err(at) => Err(
                failure(FailureCause::InvalidReference(target, parse_error_message(content, at))),
            ),
            Ok(sub) => match render_prefix(sub, sub.len() as int, args, store, path.push(target)) {
                Ok(t) => Ok(t),
                Err(f) => Err(
                    RenderFailure { references: seq![target] + f.references, cause: f.cause },
                ),
            },
        }
    }
}

/// Rendering `parts` at the top level, where no prompt has been entered.
pub open spec fn render_template(
    parts: Seq<PartView>,
    args: Map<Seq<char>, Seq<char>>,
    store: Map<Seq<char>, PromptView>,
) -> Result<Seq<char>, RenderFailure> {
    render_prefix(parts, parts.len() as int, args, store, Seq::empty())
}

/// Once a prefix of the parts fails, every longer prefix fails the same way.
proof fn lemma_prefix_failure(
    parts: Seq<PartView>,
    n: int,
    m: int,
    args: Map<Seq<char>, Seq<char>>,
    store: Map<Seq<char>, PromptView>,
    path: Seq<Seq<char>>,
)
    requires
        0 <= n <= m,
        render_prefix(parts, n, args, store, path) is Err,
    ensures
        render_prefix(parts, m, args, store, path) == render_prefix(parts, n, args, store, path),
    decreases m - n,
{
    if n < m {
        lemma_prefix_failure(parts, n, m - 1, args, store, path);
    }
}

/// An escaped span is never substituted: `{{{{TEXT}}}}`, where the first
/// `}}}}` after the opening is the closing one, parses as the literal TEXT
/// and renders as TEXT whatever the arguments and the stored prompts.
pub proof fn lemma_escaped_renders_verbatim(
    text: Seq<char>,
    args: Map<Seq<char>, Seq<char>>,
    store: Map<Seq<char>, PromptView>,
)
    requires
        forall|k: int|
            0 <= k < text.len() ==> !occurs_at(text + escape_close_tag(), k, escape_close_tag()),
    ensures
        template_parts(escape_open_tag() + text + escape_close_tag()) == Ok::<
            Seq<PartView>,
            int,
        >(seq![PartView::Literal(text)]),
        render_template(seq![PartView::Literal(text)], args, store) == Ok::<
            Seq<char>,
            RenderFailure,
        >(text),
{
    let tail = text + escape_close_tag();
    let s = escape_open_tag() + tail;
    let end = 4 + text.len() as int;
    assert(s == escape_open_tag() + text + escape_close_tag());
    assert(s.subrange(0, 4) =~= escape_open_tag());
    assert forall|k: int| 4 <= k < end implies !occurs_at(s, k, escape_close_tag()) by {
        assert(!occurs_at(tail, k - 4, escape_close_tag()));
        if occurs_at(s, k, escape_close_tag()) {
            assert(tail.subrange(k - 4, k) =~= s.subrange(k, k + 4));
        }
    }
    assert(s.subrange(end, end + 4) =~= escape_close_tag());
    lemma_find_from(s, escape_close_tag(), 4);
    match find_from(s, escape_close_tag(), 4) {
        Some(j) => {
            if j < end {
                assert(!occurs_at(s, j, escape_close_tag()));
            }
            if j > end {
                assert(!occurs_at(s, end, escape_close_tag()));
            }
        },
        None => {
            assert(!occurs_at(s, end, escape_close_tag()));
        },
    }
    assert(s.subrange(4, end) =~= text);
    assert(escaped_at(s, 0) == Some((text, end + 4)));
    assert(element_at(s, 0) == Some((PartView::Literal(text), end + 4)));
    assert(parse_from(s, end + 4) == Ok::<Seq<PartView>, int>(Seq::empty()));
    assert(seq![PartView::Literal(text)] + Seq::<PartView>::empty() =~= seq![PartView::Literal(text)]);
    let parts = seq![PartView::Literal(text)];
    assert(parts[0] == PartView::Literal(text));
    assert(render_prefix(parts, 0, args, store, Seq::empty()) == Ok::<Seq<char>, RenderFailure>(
        Seq::empty(),
    ));
    assert(render_part(parts[0], args, store, Seq::empty()) == Ok::<Seq<char>, RenderFailure>(
        text,
    ));
    assert(Seq::<char>::empty() + text =~= text);
    assert(render_prefix(parts, 1, args, store, Seq::empty()) == Ok::<Seq<char>, RenderFailure>(
        text,
    ));
}

/// Rendering the template of `a`, which references `b`, which references
/// `a`, fails at the second visit of `b`.
proof fn lemma_cycle_from(
    a: Seq<char>,
    b: Seq<char>,
    args: Map<Seq<char>, Seq<char>>,
    store: Map<Seq<char>, PromptView>,
)
    requires
        is_identifier(a),
        is_identifier(b),
        a != b,
        store.contains_key(a),
        store.contains_key(b),
        store[a].content == prompt_tag() + b + close_tag(),
        store[b].content == prompt_tag() + a + close_tag(),
    ensures
        template_parts(store[a].content) == Ok::<Seq<PartView>, int>(
            seq![PartView::PromptReference(b)],
        ),
        render_template(seq![PartView::PromptReference(b)], args, store) == Err::<
            Seq<char>,
            RenderFailure,
        >(RenderFailure { references: seq![b, a], cause: FailureCause::CircularReference(b) }),
{
    lemma_reference_source(a);
    lemma_reference_source(b);
    let to_a = seq![PartView::PromptReference(a)];
    let to_b = seq![PartView::PromptReference(b)];
    let outer: Seq<Seq<char>> = Seq::empty();
    let once = outer.push(b);
    let twice = once.push(a);
    assert(twice.contains(b)) by {
        assert(twice[0] == b);
    }
    assert(!once.contains(a)) by {
        if once.contains(a) {
            let k = choose|k: int| 0 <= k < once.len() && once[k] == a;
            assert(once[0] == b);
        }
    }
    assert(!outer.contains(b));
    let inner = failure(FailureCause::CircularReference(b));
    assert(to_b[0] == PartView::PromptReference(b));
    assert(to_a[0] == PartView::PromptReference(a));
    assert(render_reference(b, args, store, twice) == Err::<Seq<char>, RenderFailure>(inner));
    assert(render_prefix(to_b, 1, args, store, twice) == Err::<Seq<char>, RenderFailure>(inner));
    let through_a = RenderFailure {
        references: seq![a] + inner.references,
        cause: inner.cause,
    };
    assert(render_reference(a, args, store, once) == Err::<Seq<char>, RenderFailure>(through_a));
    assert(render_prefix(to_a, 1, args, store, once) == Err::<Seq<char>, RenderFailure>(
        through_a,
    ));
    let through_b = RenderFailure {
        references: seq![b] + through_a.references,
        cause: inner.cause,
    };
    assert(render_reference(b, args, store, outer) == Err::<Seq<char>, RenderFailure>(through_b));
    assert(through_b.references =~= seq![b, a]);
    assert(render_part(to_b[0], args, store, outer) == Err::<Seq<char>, RenderFailure>(through_b));
    assert(render_prefix(to_b, 0, args, store, outer) == Ok::<Seq<char>, RenderFailure>(
        Seq::empty(),
    ));
    assert(render_prefix(to_b, 1, args, store, outer) == Err::<Seq<char>, RenderFailure>(
        through_b,
    ));
}

/// Two prompts that reference each other cannot be rendered: rendering the
/// template of either one fails with a circular reference.
pub proof fn lemma_mutual_references_are_circular(
    a: Seq<char>,
    b: Seq<char>,
    args: Map<Seq<char>, Seq<char>>,
    store: Map<Seq<char>, PromptView>,
)
    requires
        is_identifier(a),
        is_identifier(b),
        a != b,
        store.contains_key(a),
        store.contains_key(b),
        store[a].content == prompt_tag() + b + close_tag(),
        store[b].content == prompt_tag() + a + close_tag(),
    ensures
        template_parts(store[a].content) matches Ok(parts) && render_template(parts, args, store)
            matches Err(f) && f.cause is CircularReference,
        template_parts(store[b].content) matches Ok(parts) && render_template(parts, args, store)
            matches Err(f) && f.cause is CircularReference,
{
    lemma_cycle_from(a, b, args, store);
    lemma_cycle_from(b, a, args, store);
}

/// `chain` is a chain of stored prompts, each referencing the next by
/// `{{prompt:NAME}}`, the last holding the plain text `text`.
pub open spec fn is_reference_chain(
    chain: Seq<Seq<char>>,
    text: Seq<char>,
    store: Map<Seq<char>, PromptView>,
) -> bool {
    &&& chain.len() > 0
    &&& chain.no_duplicates()
    &&& forall|i: int|
        0 <= i < chain.len() ==> is_identifier(#[trigger] chain[i]) && store.contains_key(chain[i])
    &&& forall|i: int|
        0 <= i < chain.len() - 1 ==> store[#[trigger] chain[i]].content == prompt_tag() + chain[i
            + 1] + close_tag()
    &&& store[chain.last()].content == text
    &&& text.len() > 0
    &&& forall|k: int| !occurs_at(text, k, open_tag())
    &&& text.last() != '{'
}

/// Following the chain from its `j`-th prompt, with the prompts before it
/// on the path.
proof fn lemma_chain_from(
    chain: Seq<Seq<char>>,
    text: Seq<char>,
    j: int,
    args: Map<Seq<char>, Seq<char>>,
    store: Map<Seq<char>, PromptView>,
)
    requires
        is_reference_chain(chain, text, store),
        0 <= j < chain.len(),
        j <= MAX_NESTING_DEPTH,
    ensures
        chain.len() > MAX_NESTING_DEPTH ==> (render_reference(
            chain[j],
            args,
            store,
            chain.take(j),
        ) matches Err(f) && f.cause is MaxDepthExceeded),
        chain.len() <= MAX_NESTING_DEPTH ==> render_reference(chain[j], args, store, chain.take(j))
            == Ok::<Seq<char>, RenderFailure>(text),
    decreases MAX_NESTING_DEPTH - j,
{
    let path = chain.take(j);
    assert(!path.contains(chain[j])) by {
        if path.contains(chain[j]) {
            let k = choose|k: int| 0 <= k < path.len() && path[k] == chain[j];
            assert(chain[k] == chain[j]);
        }
    }
    if j < MAX_NESTING_DEPTH {
        assert(path.push(chain[j]) =~= chain.take(j + 1));
        if j == chain.len() - 1 {
            lemma_text_source(text);
            let lit = seq![PartView::Literal(text)];
            assert(lit[0] == PartView::Literal(text));
            assert(render_prefix(lit, 0, args, store, chain.take(j + 1)) == Ok::<
                Seq<char>,
                RenderFailure,
            >(Seq::empty()));
            assert(Seq::<char>::empty() + text =~= text);
            assert(render_prefix(lit, 1, args, store, chain.take(j + 1)) == Ok::<
                Seq<char>,
                RenderFailure,
            >(text));
        } else {
            lemma_reference_source(chain[j + 1]);
            lemma_chain_from(chain, text, j + 1, args, store);
            let next = seq![PartView::PromptReference(chain[j + 1])];
            assert(next[0] == PartView::PromptReference(chain[j + 1]));
            assert(render_prefix(next, 0, args, store, chain.take(j + 1)) == Ok::<
                Seq<char>,
                RenderFailure,
            >(Seq::empty()));
            if chain.len() <= MAX_NESTING_DEPTH {
                assert(Seq::<char>::empty() + text =~= text);
            }
        }
    }
}

/// References nest at most three deep: rendering `{{prompt:FIRST}}`, where
/// FIRST starts a chain of prompts each referencing the next and the last
/// holding plain text, fails for exceeding the depth when the chain holds
/// more than three prompts, and yields that text when it holds at most
/// three.
pub proof fn lemma_reference_chain_depth(
    chain: Seq<Seq<char>>,
    text: Seq<char>,
    args: Map<Seq<char>, Seq<char>>,
    store: Map<Seq<char>, PromptView>,
)
    requires
        is_reference_chain(chain, text, store),
    ensures
        chain.len() > MAX_NESTING_DEPTH ==> (render_template(
            seq![PartView::PromptReference(chain[0])],
            args,
            store,
        ) matches Err(f) && f.cause is MaxDepthExceeded),
        chain.len() <= MAX_NESTING_DEPTH ==> render_template(
            seq![PartView::PromptReference(chain[0])],
            args,
            store,
        ) == Ok::<Seq<char>, RenderFailure>(text),
{
    lemma_chain_from(chain, text, 0, args, store);
    let top = seq![PartView::PromptReference(chain[0])];
    assert(top[0] == PartView::PromptReference(chain[0]));
    assert(chain.take(0) =~= Seq::<Seq<char>>::empty());
    assert(render_part(top[0], args, store, Seq::empty()) == render_reference(
        chain[0],
        args,
        store,
        chain.take(0),
    ));
    assert(render_prefix(top, 0, args, store, Seq::empty()) == Ok::<Seq<char>, RenderFailure>(
        Seq::empty(),
    ));
    if chain.len() <= MAX_NESTING_DEPTH {
        assert(Seq::<char>::empty() + text =~= text);
    }
}

/// Two references in one template that both lead to the same prompt
/// render it twice: `x` and `y` each hold `{{prompt:shared}}`, and
/// `shared` holds plain text, so the parts referencing `x` then `y` render
/// as that text twice.
pub proof fn lemma_diamond_references_render(
    x: Seq<char>,
    y: Seq<char>,
    shared: Seq<char>,
    text: Seq<char>,
    args: Map<Seq<char>, Seq<char>>,
    store: Map<Seq<char>, PromptView>,
)
    requires
        is_reference_chain(seq![x, shared], text, store),
        is_reference_chain(seq![y, shared], text, store),
    ensures
        render_template(
            seq![PartView::PromptReference(x), PartView::PromptReference(y)],
            args,
            store,
        ) == Ok::<Seq<char>, RenderFailure>(text + text),
{
    let left = seq![x, shared];
    let right = seq![y, shared];
    lemma_chain_from(left, text, 0, args, store);
    lemma_chain_from(right, text, 0, args, store);
    assert(left.take(0) =~= Seq::<Seq<char>>::empty());
    assert(right.take(0) =~= Seq::<Seq<char>>::empty());
    let parts = seq![PartView::PromptReference(x), PartView::PromptReference(y)];
    assert(parts[0] == PartView::PromptReference(x));
    assert(parts[1] == PartView::PromptReference(y));
    assert(render_part(parts[0], args, store, Seq::empty()) == Ok::<Seq<char>, RenderFailure>(
        text,
    ));
    assert(render_part(parts[1], args, store, Seq::empty()) == Ok::<Seq<char>, RenderFailure>(
        text,
    ));
    assert(render_prefix(parts, 0, args, store, Seq::empty()) == Ok::<Seq<char>, RenderFailure>(
        Seq::empty(),
    ));
    assert(Seq::<char>::empty() + text =~= text);
    assert(render_prefix(parts, 1, args, store, Seq::empty()) == Ok::<Seq<char>, RenderFailure>(
        text,
    ));
}

/// A variable reference renders the prompt that its argument names, and
/// without that argument fails naming it: where `target` maps to a stored
/// prompt holding plain text, `{{prompt_var:target}}` renders as that text.
pub proof fn lemma_variable_reference_renders(
    target: Seq<char>,
    text: Seq<char>,
    args: Map<Seq<char>, Seq<char>>,
    store: Map<Seq<char>, PromptView>,
)
    requires
        args.contains_key(target) ==> is_reference_chain(seq![args[target]], text, store),
    ensures
        args.contains_key(target) ==> render_template(
            seq![PartView::VariablePromptReference(target)],
            args,
            store,
        ) == Ok::<Seq<char>, RenderFailure>(text),
        !args.contains_key(target) ==> render_template(
            seq![PartView::VariablePromptReference(target)],
            args,
            store,
        ) == Err::<Seq<char>, RenderFailure>(failure(FailureCause::MissingArgument(target))),
{
    let parts = seq![PartView::VariablePromptReference(target)];
    assert(parts[0] == PartView::VariablePromptReference(target));
    assert(render_prefix(parts, 0, args, store, Seq::empty()) == Ok::<Seq<char>, RenderFailure>(
        Seq::empty(),
    ));
    if args.contains_key(target) {
        let chain = seq![args[target]];
        lemma_chain_from(chain, text, 0, args, store);
        assert(chain.take(0) =~= Seq::<Seq<char>>::empty());
        assert(render_part(parts[0], args, store, Seq::empty()) == Ok::<Seq<char>, RenderFailure>(
            text,
        ));
        assert(Seq::<char>::empty() + text =~= text);
    }
}

/// `r` is the outcome `expected`, and an error's message describes it.
pub open spec fn rendered_as(
    r: Result<String, RenderTemplateError>,
    expected: Result<Seq<char>, RenderFailure>,
) -> bool {
    match r {
        Ok(t) => expected == Ok::<Seq<char>, RenderFailure>(t@),
        Err(e) => expected == Err::<Seq<char>, RenderFailure>(e@) && e.wf(),
    }
}

/// The message for `kind` with no reference around it.
fn cause_text(kind: &RenderErrorKind) -> (m: String)
    ensures
        m@ == cause_message(kind@),
{
    match kind {
        RenderErrorKind::MissingArgument(n) => {
            let mut m = String::from_str("Missing argument: ");
            m.append(n.as_str());
            m
        },
        RenderErrorKind::CircularReference(n) => {
            let mut m = String::from_str("Circular reference detected: prompt '");
            m.append(n.as_str());
            m.append("' references itself (directly or indirectly)");
            m
        },
        RenderErrorKind::MaxDepthExceeded => String::from_str(
            "Maximum nesting depth of 3 exceeded",
        ),
        RenderErrorKind::ReferenceNotFound(n) => {
            let mut m = String::from_str("Error retrieving referenced prompt '");
            m.append(n.as_str());
            m.append("': Prompt not found");
            m
        },
        RenderErrorKind::InvalidReference(n, e) => {
            let mut m = String::from_str("Error parsing referenced prompt '");
            m.append(n.as_str());
            m.append("': Error found while parsing template: ");
            m.append(e.message.as_str());
            m
        },
    }
}

impl RenderTemplateError {
    /// The error for `kind`, with no reference around it.
    fn from_kind(kind: RenderErrorKind) -> (e: RenderTemplateError)
        ensures
            e@ == failure(kind@),
            e.wf(),
    {
        let message = cause_text(&kind);
        let e = RenderTemplateError { kind, references: Vec::new(), message };
        assert(e@.references =~= Seq::<Seq<char>>::empty());
        e
    }

    /// This error, reported through the reference to `name`.
    fn through(self, name: &String) -> (e: RenderTemplateError)
        requires
            self.wf(),
        ensures
            e@ == (RenderFailure { references: seq![name@] + self@.references, cause: self@.cause }),
            e.wf(),
    {
        let RenderTemplateError { kind, references, message: inner } = self;
        let mut references = references;
        let ghost before = references@;
        references.insert(0, name.clone());
        let mut message = String::from_str("Failed to render referenced prompt '");
        message.append(name.as_str());
        message.append("': ");
        message.append(inner.as_str());
        let e = RenderTemplateError { kind, references, message };
        assert(strings_view(references@) =~= seq![name@] + strings_view(before));
        assert(strings_view(references@).drop_first() =~= strings_view(before));
        e
    }
}

/// The prompts entered on the current path of a render, and how deep it is.
struct RenderValidationContext {
    /// The names of the prompts being rendered, outermost first.
    visited_prompts: Vec<String>,
    /// The number of references being followed.
    current_depth: usize,
}

impl RenderValidationContext {
    spec fn path(&self) -> Seq<Seq<char>> {
        strings_view(self.visited_prompts@)
    }

    spec fn wf(&self) -> bool {
        self.current_depth == self.visited_prompts.len()
    }

    fn new() -> (r: RenderValidationContext)
        ensures
            r.wf(),
            r.path() == Seq::<Seq<char>>::empty(),
    {
        let r = RenderValidationContext { visited_prompts: Vec::new(), current_depth: 0 };
        assert(r.path() =~= Seq::<Seq<char>>::empty());
        r
    }

    /// Registers `name` on the path, unless it is already there or the path
    /// is as deep as allowed.
    fn enter_prompt(&mut self, name: &String) -> (r: Result<(), RenderTemplateError>)
        requires
            old(self).wf(),
        ensures
            final(self).wf(),
            match r {
                Ok(()) => !old(self).path().contains(name@) && old(self).path().len()
                    < MAX_NESTING_DEPTH && final(self).path() == old(self).path().push(name@),
                Err(e) => final(self).path() == old(self).path() && e.wf() && e@ == failure(
                    if old(self).path().contains(name@) {
                        FailureCause::CircularReference(name@)
                    } else {
                        FailureCause::MaxDepthExceeded
                    },
                ) && (old(self).path().contains(name@) || old(self).path().len()
                    >= MAX_NESTING_DEPTH),
            },
    {
        let mut j: usize = 0;
        while j < self.visited_prompts.len()
            invariant
                self.wf(),
                self.path() == old(self).path(),
                j <= self.visited_prompts.len(),
                forall|k: int| 0 <= k < j ==> self.path()[k] != name@,
            decreases self.visited_prompts.len() - j,
        {
            if self.visited_prompts[j] == *name {
                assert(self.path()[j as int] == name@);
                return Err(
                    RenderTemplateError::from_kind(RenderErrorKind::CircularReference(name.clone())),
                );
            }
            j += 1;
        }
        if self.current_depth >= MAX_NESTING_DEPTH {
            return Err(RenderTemplateError::from_kind(RenderErrorKind::MaxDepthExceeded));
        }
        self.visited_prompts.push(name.clone());
        self.current_depth += 1;
        assert(self.path() =~= old(self).path().push(name@));
        Ok(())
    }

    /// Removes `name`, the innermost prompt, from the path.
    fn exit_prompt(&mut self, name: &String)
        requires
            old(self).wf(),
            old(self).path().len() > 0,
            old(self).path().last() == name@,
        ensures
            final(self).wf(),
            final(self).path() == old(self).path().drop_last(),
    {
        self.visited_prompts.pop();
        self.current_depth -= 1;
        assert(self.path() =~= old(self).path().drop_last());
    }
}

/// Renders `parts` on the path that `context` holds, leaving the path as it
/// found it.
fn render_internal(
    parts: &Vec<PromptTemplatePart>,
    arguments: &PromptArguments,
    storage: &MemoryStorage,
    context: &mut RenderValidationContext,
) -> (r: Result<String, RenderTemplateError>)
    requires
        old(context).wf(),
    ensures
        final(context).wf(),
        final(context).path() == old(context).path(),
        rendered_as(
            r,
            render_prefix(
                parts_view(parts@),
                parts@.len() as int,
                arguments@,
                storage@,
                old(context).path(),
            ),
        ),
    decreases MAX_NESTING_DEPTH - context.current_depth, 1int,
{
    let ghost path = context.path();
    let ghost views = parts_view(parts@);
    let mut result = String::new();
    let mut i: usize = 0;
    assert(result@ =~= Seq::<char>::empty());
    while i < parts.len()
        invariant
            i <= parts.len(),
            context.wf(),
            context.path() == path,
            path == old(context).path(),
            context.current_depth == old(context).current_depth,
            views == parts_view(parts@),
            render_prefix(views, i as int, arguments@, storage@, path) == Ok::<
                Seq<char>,
                RenderFailure,
            >(result@),
        decreases parts.len() - i,
    {
        assert(views[i as int] == parts@[i as int]@);
        match &parts[i] {
            PromptTemplatePart::Literal(text) => {
                result.append(text.as_str());
            },
            PromptTemplatePart::Argument(name) => match arguments.get(name) {
                Some(value) => {
                    result.append(value.as_str());
                },
                None => {
                    proof {
                        assert(views[i as int] == PartView::Argument(name@));
                        assert(render_part(views[i as int], arguments@, storage@, path) is Err);
                        assert(render_prefix(views, i + 1, arguments@, storage@, path) is Err);
                        lemma_prefix_failure(views, i + 1, views.len() as int, arguments@, storage@, path);
                    }
                    return Err(
                        RenderTemplateError::from_kind(
                            RenderErrorKind::MissingArgument(name.clone()),
                        ),
                    );
                },
            },
            PromptTemplatePart::PromptReference(name) => {
                match render_prompt_reference(name, arguments, storage, context) {
                    Ok(text) => {
                        result.append(text.as_str());
                    },
                    Err(e) => {
                        proof {
                            lemma_prefix_failure(views, i + 1, views.len() as int, arguments@, storage@, path);
                        }
                        return Err(e);
                    },
                }
            },
            PromptTemplatePart::VariablePromptReference(name) => match arguments.get(name) {
                Some(target) => {
                    match render_prompt_reference(target, arguments, storage, context) {
                        Ok(text) => {
                            result.append(text.as_str());
                        },
                        Err(e) => {
                            proof {
                                lemma_prefix_failure(views, i + 1, views.len() as int, arguments@, storage@, path);
                            }
                            return Err(e);
                        },
                    }
                },
                None => {
                    proof {
                        lemma_prefix_failure(views, i + 1, views.len() as int, arguments@, storage@, path);
                    }
                    return Err(
                        RenderTemplateError::from_kind(
                            RenderErrorKind::MissingArgument(name.clone()),
                        ),
                    );
                },
            },
        }
        i += 1;
    }
    Ok(result)
}

/// Renders the stored prompt `target` one level below the path that
/// `context` holds, leaving the path as it found it.
fn render_prompt_reference(
    target: &String,
    arguments: &PromptArguments,
    storage: &MemoryStorage,
    context: &mut RenderValidationContext,
) -> (r: Result<String, RenderTemplateError>)
    requires
        old(context).wf(),
    ensures
        final(context).wf(),
        final(context).path() == old(context).path(),
        rendered_as(r, render_reference(target@, arguments@, storage@, old(context).path())),
    decreases MAX_NESTING_DEPTH - context.current_depth, 0int,
{
    match context.enter_prompt(target) {
        Ok(()) => {},
        Err(e) => {
            return Err(e);
        },
    }
    let prompt = match storage.get_prompt(target) {
        Some(p) => p,
        None => {
            context.exit_prompt(target);
            return Err(
                RenderTemplateError::from_kind(RenderErrorKind::ReferenceNotFound(target.clone())),
            );
        },
    };
    let parts = match parse_template(prompt.content.as_str()) {
        Ok(parts) => parts,
        Err(e) => {
            context.exit_prompt(target);
            return Err(
                RenderTemplateError::from_kind(
                    RenderErrorKind::InvalidReference(target.clone(), e),
                ),
            );
        },
    };
    let r = render_internal(&parts, arguments, storage, context);
    context.exit_prompt(target);
    match r {
        Ok(text) => Ok(text),
        Err(e) => Err(e.through(target)),
    }
}

/// The name that `part` carries, if it is of kind `kind`.
fn part_name(part: &PromptTemplatePart, kind: PartKind) -> (r: Option<&String>)
    ensures
        match r {
            Some(n) => name_of_kind(part@, kind) == Some(n@),
            None => name_of_kind(part@, kind) is None,
        },
{
    match part {
        PromptTemplatePart::Literal(_) => None,
        PromptTemplatePart::Argument(n) => match kind {
            PartKind::Argument => Some(n),
            _ => None,
        },
        PromptTemplatePart::PromptReference(n) => match kind {
            PartKind::PromptReference => Some(n),
            _ => None,
        },
        PromptTemplatePart::VariablePromptReference(n) => match kind {
            PartKind::VariablePromptReference => Some(n),
            _ => None,
        },
    }
}

/// The names that the parts of kind `kind` carry, in order.
fn names_of(parts: &Vec<PromptTemplatePart>, kind: PartKind) -> (r: Vec<String>)
    ensures
        strings_view(r@) == names_of_kind(parts_view(parts@), kind),
{
    let mut r: Vec<String> = Vec::new();
    let mut i: usize = 0;
    assert(strings_view(r@) =~= names_of_kind(parts_view(parts@).take(0), kind));
    while i < parts.len()
        invariant
            i <= parts.len(),
            strings_view(r@) == names_of_kind(parts_view(parts@).take(i as int), kind),
        decreases parts.len() - i,
    {
        let ghost before = r@;
        assert(parts_view(parts@).take(i + 1).drop_last() =~= parts_view(parts@).take(i as int));
        assert(parts_view(parts@).take(i + 1).last() == parts@[i as int]@);
        match part_name(&parts[i], kind) {
            Some(n) => {
                r.push(n.clone());
                assert(strings_view(r@) =~= strings_view(before).push(n@));
            },
            None => {},
        }
        i += 1;
    }
    assert(parts_view(parts@).take(parts.len() as int) =~= parts_view(parts@));
    r
}

impl PromptTemplate {
    /// The names of the arguments the template uses, in order of appearance.
    pub fn arguments(&self) -> (r: Vec<String>)
        ensures
            strings_view(r@) == names_of_kind(parts_view(self.parts@), PartKind::Argument),
    {
        names_of(&self.parts, PartKind::Argument)
    }

    /// The names of the prompts the template references directly, in order
    /// of appearance.
    pub fn prompt_references(&self) -> (r: Vec<String>)
        ensures
            strings_view(r@) == names_of_kind(parts_view(self.parts@), PartKind::PromptReference),
    {
        names_of(&self.parts, PartKind::PromptReference)
    }

    /// The names of the arguments whose values name referenced prompts, in
    /// order of appearance.
    pub fn variable_prompt_references(&self) -> (r: Vec<String>)
        ensures
            strings_view(r@) == names_of_kind(
                parts_view(self.parts@),
                PartKind::VariablePromptReference,
            ),
    {
        names_of(&self.parts, PartKind::VariablePromptReference)
    }

    /// Whether the template is literal text only, with no placeholder.
    pub fn is_simple(&self) -> (r: bool)
        ensures
            r == forall|i: int|
                0 <= i < self.parts.len() ==> #[trigger] self.parts@[i]@ is Literal,
    {
        let mut i: usize = 0;
        while i < self.parts.len()
            invariant
                i <= self.parts.len(),
                forall|j: int| 0 <= j < i ==> #[trigger] self.parts@[j]@ is Literal,
            decreases self.parts.len() - i,
        {
            match &self.parts[i] {
                PromptTemplatePart::Literal(_) => {},
                _ => {
                    assert(!(self.parts@[i as int]@ is Literal));
                    return false;
                },
            }
            i += 1;
        }
        true
    }

    /// Parses the content of `prompt`.
    pub fn new(prompt: Prompt) -> (r: Result<PromptTemplate, ParseTemplateError>)
        ensures
            match r {
                Ok(t) => t.prompt == prompt && template_parts(prompt.content@) == Ok::<
                    Seq<PartView>,
                    int,
                >(parts_view(t.parts@)),
                Err(e) => template_parts(prompt.content@) matches Err(at) && e.message@
                    == parse_error_message(prompt.content@, at),
            },
    {
        match parse_template(prompt.content.as_str()) {
            Ok(parts) => Ok(PromptTemplate { prompt, parts }),
            Err(e) => Err(e),
        }
    }

    /// Renders the template: literal text as it stands, arguments by their
    /// values, and references by rendering the stored prompts they name,
    /// at most three deep and never through a prompt already being
    /// rendered on the same path.
    pub fn render(&self, arguments: &PromptArguments, storage: &MemoryStorage) -> (r: Result<
        String,
        RenderTemplateError,
    >)
        ensures
            rendered_as(r, render_template(parts_view(self.parts@), arguments@, storage@)),
    {
        let mut context = RenderValidationContext::new();
        render_internal(&self.parts, arguments, storage, &mut context)
    }
}

} // verus!
