//! Diagnostics: what a check reports, and where.

use vstd::prelude::*;
use vstd::string::*;
use crate::helpers::ParsedAttribute;

verus! {

/// A half-open byte range `[start, end)` into the linted source.
#[derive(Debug, Clone, Copy, PartialEq, Eq)]
pub struct Span {
    pub start: usize,
    pub end: usize,
}

impl Span {
    /// The span `[start, end)`.
    pub fn new(start: usize, end: usize) -> (r: Span)
        ensures
            r.start == start,
            r.end == end,
    {
        Span { start, end }
    }
}

/// One finding of a check.
#[derive(Debug, Clone, PartialEq, Eq)]
pub struct Diagnostic {
    /// Rule identifier, e.g. "datastar/typo"
    pub rule: String,
    /// Human-readable explanation
    pub message: String,
    /// Whether the finding must be fixed (all findings here are advisory)
    pub enforced: bool,
    /// Where the finding is in the source
    pub span: Span,
}

/// The diagnostics of one lint run, in the order they were found.
pub type Diagnostics = Vec<Diagnostic>;

/// The mathematical content of a diagnostic.
pub struct DiagView {
    pub rule: Seq<char>,
    pub message: Seq<char>,
    pub enforced: bool,
    pub start: int,
    pub end: int,
}

impl View for Diagnostic {
    type V = DiagView;

    open spec fn view(&self) -> DiagView {
        DiagView {
            rule: self.rule@,
            message: self.message@,
            enforced: self.enforced,
            start: self.span.start as int,
            end: self.span.end as int,
        }
    }
}

/// The views of a list of diagnostics.
pub open spec fn diag_views(v: Seq<Diagnostic>) -> Seq<DiagView> {
    v.map_values(|d: Diagnostic| d@)
}

/// An advisory finding.
pub open spec fn advisory(rule: Seq<char>, message: Seq<char>, start: int, end: int) -> DiagView {
    DiagView { rule, message, enforced: false, start, end }
}

/// An advisory finding located at an attribute's name.
pub open spec fn at_name(rule: Seq<char>, message: Seq<char>, a: ParsedAttribute<'_>) -> DiagView {
    advisory(rule, message, a.name_start as int, a.name_end as int)
}

/// The diagnostics of each attribute, one after the other.
#[verifier::opaque]
pub open spec fn concat_map<'a>(
    attrs: Seq<ParsedAttribute<'a>>,
    f: spec_fn(ParsedAttribute<'a>) -> Seq<DiagView>,
) -> Seq<DiagView>
    decreases attrs.len(),
{
    if attrs.len() == 0 {
        seq![]
    } else {
        concat_map(attrs.drop_last(), f) + f(attrs.last())
    }
}

pub proof fn lemma_concat_map_step<'a>(
    attrs: Seq<ParsedAttribute<'a>>,
    f: spec_fn(ParsedAttribute<'a>) -> Seq<DiagView>,
    k: int,
)
    requires
        0 <= k < attrs.len(),
    ensures
        concat_map(attrs.subrange(0, k + 1), f) == concat_map(attrs.subrange(0, k), f) + f(
            attrs[k],
        ),
{
    reveal(concat_map);
    assert(attrs.subrange(0, k + 1).drop_last() =~= attrs.subrange(0, k));
}

pub proof fn lemma_concat_map_empty<'a>(
    attrs: Seq<ParsedAttribute<'a>>,
    f: spec_fn(ParsedAttribute<'a>) -> Seq<DiagView>,
    prior: Seq<DiagView>,
)
    ensures
        prior + concat_map(attrs.subrange(0, 0), f) == prior,
{
    reveal(concat_map);
    assert(prior + concat_map(attrs.subrange(0, 0), f) =~= prior);
}

/// Attributes whose findings agree one for one give the same findings.
pub proof fn lemma_concat_map_agree<'a, 'b>(
    x1: Seq<ParsedAttribute<'a>>,
    x2: Seq<ParsedAttribute<'b>>,
    f1: spec_fn(ParsedAttribute<'a>) -> Seq<DiagView>,
    f2: spec_fn(ParsedAttribute<'b>) -> Seq<DiagView>,
)
    requires
        x1.len() == x2.len(),
        forall|k: int| 0 <= k < x1.len() ==> f1(#[trigger] x1[k]) == f2(x2[k]),
    ensures
        concat_map(x1, f1) == concat_map(x2, f2),
    decreases x1.len(),
{
    reveal(concat_map);
    if x1.len() > 0 {
        lemma_concat_map_agree(x1.drop_last(), x2.drop_last(), f1, f2);
        assert(f1(x1.last()) == f2(x2.last()));
    }
}

/// Appends an advisory diagnostic.
pub fn push_diag(diags: &mut Diagnostics, rule: &str, message: String, start: usize, end: usize)
    ensures
        diag_views(final(diags)@) == diag_views(old(diags)@) + seq![
            advisory(rule@, message@, start as int, end as int),
        ],
{
    let ghost before = diags@;
    diags.push(
        Diagnostic { rule: String::from_str(rule), message, enforced: false, span: Span::new(start, end) },
    );
    proof {
        assert(diag_views(diags@) =~= diag_views(before) + seq![
            advisory(rule@, message@, start as int, end as int),
        ]);
    }
}

} // verus!
