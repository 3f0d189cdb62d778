//! The rule set as a whole: every enabled check over every tag of a source.

use vstd::prelude::*;
use vstd::string::*;
use crate::actions::{
    action_diags, action_f, action_one, check_actions, lemma_paren_scan, not_blank, not_letter,
    paren_scan,
};
use crate::number::{first_where, lemma_first_where};
use crate::helpers::{attr_matches, scan_tags, tag_matches, AttrSpan, ParsedAttribute, TagSpan};
use crate::modifiers::{modifier_one, modifiers_diags};
use crate::typos::typo_one;
use crate::validation::{alpine_vue_one, for_template_one, required_value_one};
use crate::config::DatastarConfig;
use crate::diagnostics::{concat_map, diag_views, lemma_concat_map_agree, DiagView, Diagnostics};
use crate::helpers::{parse_tags, tokenized, ParsedTag};
use crate::modifiers::{check_modifiers, modifier_f};
use crate::text::bytes_of;
use crate::typos::{check_typos, typo_f};
use crate::validation::{
    alpine_vue_f, check_alpine_vue, check_for_on_template, check_required_values, for_template_f,
    required_value_f,
};

verus! {

/// What a rule set can do for its host.
#[derive(Debug, Clone, Copy, PartialEq, Eq, Structural)]
pub enum Capability {
    Lint,
    AutoFix,
    Streaming,
    RuntimeConfig,
    RichDiagnostics,
}

/// The static description of a rule set that its host reads.
#[derive(Debug, Clone)]
pub struct DecreeMetadata {
    /// What the rules are about
    pub description: String,
    /// File extensions the rules apply to
    pub supported_extensions: Vec<String>,
    /// File names the rules apply to whatever their extension
    pub supported_filenames: Vec<String>,
    /// File names the rules never apply to
    pub skip_filenames: Vec<String>,
    /// What the rule set can do
    pub capabilities: Vec<Capability>,
}

/// The views of a list of strings.
pub open spec fn texts(v: Seq<String>) -> Seq<Seq<char>> {
    v.map_values(|t: String| t@)
}

/// Datastar hygiene rules - enforces Datastar best practices.
pub struct DatastarHygiene {
    config: DatastarConfig,
}

/// The findings of a check when it is enabled, none otherwise.
pub open spec fn gated(enabled: bool, found: Seq<DiagView>) -> Seq<DiagView> {
    if enabled {
        found
    } else {
        seq![]
    }
}

/// The findings of the enabled checks on one tag, check after check.
pub open spec fn tag_diags(c: DatastarConfig, t: ParsedTag<'_>) -> Seq<DiagView> {
    let attrs = t.attributes@;
    gated(c.check_alpine_vue, concat_map(attrs, alpine_vue_f())) + gated(
        c.check_required_values,
        concat_map(attrs, required_value_f()),
    ) + gated(c.check_for_template, concat_map(attrs, for_template_f(t.name@))) + gated(
        c.check_typos,
        concat_map(attrs, typo_f()),
    ) + gated(c.check_modifiers, concat_map(attrs, modifier_f())) + gated(
        c.check_actions,
        concat_map(attrs, action_f()),
    )
}

/// The findings on each tag, one tag after the other.
pub open spec fn tags_diags(c: DatastarConfig, tags: Seq<ParsedTag<'_>>) -> Seq<DiagView>
    decreases tags.len(),
{
    if tags.len() == 0 {
        seq![]
    } else {
        tags_diags(c, tags.drop_last()) + tag_diags(c, tags.last())
    }
}

proof fn lemma_gated(enabled: bool, before: Seq<DiagView>, after: Seq<DiagView>, found: Seq<DiagView>)
    requires
        enabled ==> after == before + found,
        !enabled ==> after == before,
    ensures
        after == before + gated(enabled, found),
{
    if !enabled {
        assert(before + gated(enabled, found) =~= before);
    }
}

proof fn lemma_chain(
    d0: Seq<DiagView>,
    g1: Seq<DiagView>,
    g2: Seq<DiagView>,
    g3: Seq<DiagView>,
    g4: Seq<DiagView>,
    g5: Seq<DiagView>,
    g6: Seq<DiagView>,
)
    ensures
        d0 + g1 + g2 + g3 + g4 + g5 + g6 == d0 + (g1 + g2 + g3 + g4 + g5 + g6),
{
    assert(d0 + g1 + g2 + g3 + g4 + g5 + g6 =~= d0 + (g1 + g2 + g3 + g4 + g5 + g6));
}


proof fn lemma_same_text(x: &str, y: &str)
    requires
        bytes_of(x) == bytes_of(y),
    ensures
        x@ == y@,
{
    vstd::utf8::encode_utf8_decode_utf8(x@);
    vstd::utf8::encode_utf8_decode_utf8(y@);
}

proof fn lemma_modifiers_diags_spans(
    ms: Seq<Seq<u8>>,
    base: Seq<u8>,
    a1: ParsedAttribute<'_>,
    a2: ParsedAttribute<'_>,
)
    requires
        a1.name_start == a2.name_start,
        a1.name_end == a2.name_end,
    ensures
        modifiers_diags(ms, base, a1) == modifiers_diags(ms, base, a2),
    decreases ms.len(),
{
    if ms.len() > 0 {
        lemma_modifiers_diags_spans(ms.drop_last(), base, a1, a2);
    }
}

proof fn lemma_action_diags_spans(v: Seq<u8>, i: int, a1: ParsedAttribute<'_>, a2: ParsedAttribute<'_>)
    requires
        a1.name_start == a2.name_start,
        a1.name_end == a2.name_end,
        a1.value_start == a2.value_start,
        a1.value_end == a2.value_end,
    ensures
        action_diags(v, i, a1) == action_diags(v, i, a2),
    decreases v.len() - i,
{
    if 0 <= i < v.len() {
        lemma_first_where(v, not_letter(), i + 1);
        let e = first_where(v, not_letter(), i + 1);
        lemma_first_where(v, not_blank(), e);
        let p = first_where(v, not_blank(), e);
        if v[i] != 0x40 {
            lemma_action_diags_spans(v, i + 1, a1, a2);
        } else {
            lemma_action_diags_spans(v, e, a1, a2);
            lemma_action_diags_spans(v, p, a1, a2);
            if p < v.len() {
                lemma_paren_scan(v, p + 1, 1);
                lemma_action_diags_spans(v, paren_scan(v, p + 1, 1).0, a1, a2);
            }
        }
    }
}

/// Two attributes that match the same span give the same findings.
proof fn lemma_attr_findings_agree(
    src: Seq<u8>,
    a1: ParsedAttribute<'_>,
    a2: ParsedAttribute<'_>,
    s: AttrSpan,
)
    requires
        attr_matches(src, a1, s),
        attr_matches(src, a2, s),
    ensures
        alpine_vue_one(a1) == alpine_vue_one(a2),
        required_value_one(a1) == required_value_one(a2),
        forall|n: Seq<char>| for_template_one(n, a1) == #[trigger] for_template_one(n, a2),
        typo_one(a1) == typo_one(a2),
        modifier_one(a1) == modifier_one(a2),
        action_one(a1) == action_one(a2),
{
    lemma_same_text(a1.name, a2.name);
    let n = bytes_of(a1.name);
    lemma_modifiers_diags_spans(
        crate::helpers::modifiers_of(n),
        crate::helpers::base_of(n),
        a1,
        a2,
    );
    match s.value {
        Some(_) => {
            lemma_same_text(a1.value.unwrap(), a2.value.unwrap());
            lemma_action_diags_spans(bytes_of(a1.value.unwrap()), 0, a1, a2);
        },
        None => {},
    }
}

/// Two tags that match the same span give the same findings.
proof fn lemma_tag_findings_agree(
    c: DatastarConfig,
    src: Seq<u8>,
    t1: ParsedTag<'_>,
    t2: ParsedTag<'_>,
    s: TagSpan,
)
    requires
        tag_matches(src, t1, s),
        tag_matches(src, t2, s),
    ensures
        tag_diags(c, t1) == tag_diags(c, t2),
{
    lemma_same_text(t1.name, t2.name);
    let x1 = t1.attributes@;
    let x2 = t2.attributes@;
    assert forall|k: int| 0 <= k < x1.len() implies {
        &&& alpine_vue_one(x1[k]) == alpine_vue_one(x2[k])
        &&& required_value_one(x1[k]) == required_value_one(x2[k])
        &&& for_template_one(t1.name@, x1[k]) == for_template_one(t2.name@, x2[k])
        &&& typo_one(x1[k]) == typo_one(x2[k])
        &&& modifier_one(x1[k]) == modifier_one(x2[k])
        &&& action_one(x1[k]) == action_one(x2[k])
    } by {
        lemma_attr_findings_agree(src, x1[k], x2[k], s.attrs[k]);
    }
    lemma_concat_map_agree(x1, x2, alpine_vue_f(), alpine_vue_f());
    lemma_concat_map_agree(x1, x2, required_value_f(), required_value_f());
    lemma_concat_map_agree(x1, x2, for_template_f(t1.name@), for_template_f(t2.name@));
    lemma_concat_map_agree(x1, x2, typo_f(), typo_f());
    lemma_concat_map_agree(x1, x2, modifier_f(), modifier_f());
    lemma_concat_map_agree(x1, x2, action_f(), action_f());
}

/// Two tokenizations of the same source give the same findings.
proof fn lemma_tags_findings_agree(
    c: DatastarConfig,
    src: Seq<u8>,
    t1: Seq<ParsedTag<'_>>,
    t2: Seq<ParsedTag<'_>>,
    s: Seq<TagSpan>,
)
    requires
        t1.len() == s.len(),
        t2.len() == s.len(),
        forall|k: int| 0 <= k < s.len() ==> tag_matches(src, #[trigger] t1[k], s[k]),
        forall|k: int| 0 <= k < s.len() ==> tag_matches(src, #[trigger] t2[k], s[k]),
    ensures
        tags_diags(c, t1) == tags_diags(c, t2),
    decreases s.len(),
{
    if s.len() > 0 {
        let n = s.len() - 1;
        assert forall|k: int| 0 <= k < n implies tag_matches(
            src,
            #[trigger] t1.drop_last()[k],
            s.drop_last()[k],
        ) by {
            assert(t1.drop_last()[k] == t1[k]);
        }
        assert forall|k: int| 0 <= k < n implies tag_matches(
            src,
            #[trigger] t2.drop_last()[k],
            s.drop_last()[k],
        ) by {
            assert(t2.drop_last()[k] == t2[k]);
        }
        lemma_tags_findings_agree(c, src, t1.drop_last(), t2.drop_last(), s.drop_last());
        lemma_tag_findings_agree(c, src, t1[n], t2[n], s[n]);
    }
}

impl DatastarHygiene {
    pub closed spec fn spec_config(&self) -> DatastarConfig {
        self.config
    }

    /// Create the rule set with every check enabled.
    pub fn new() -> (r: Self)
        ensures
            r.spec_config().check_alpine_vue && r.spec_config().check_required_values
                && r.spec_config().check_typos && r.spec_config().check_modifiers
                && r.spec_config().check_actions && r.spec_config().check_for_template,
    {
        DatastarHygiene { config: DatastarConfig::default() }
    }

    /// Create the rule set with a custom config.
    pub fn with_config(config: DatastarConfig) -> (r: Self)
        ensures
            r.spec_config() == config,
    {
        DatastarHygiene { config }
    }

    /// Stable identifier of this rule set.
    pub fn name(&self) -> (r: &'static str)
        ensures
            r@ == "datastar"@,
    {
        "datastar"
    }

    /// The static description of these rules: HTML files, lint only.
    pub fn metadata(&self) -> (r: DecreeMetadata)
        ensures
            r.description@ == "Datastar HTML attribute hygiene and best practices"@,
            texts(r.supported_extensions@) == seq!["html"@, "htm"@],
            r.supported_filenames@.len() == 0,
            r.skip_filenames@.len() == 0,
            r.capabilities@ == seq![Capability::Lint],
    {
        let mut supported_extensions: Vec<String> = Vec::new();
        supported_extensions.push(String::from_str("html"));
        supported_extensions.push(String::from_str("htm"));
        let mut capabilities: Vec<Capability> = Vec::new();
        capabilities.push(Capability::Lint);
        proof {
            assert(texts(supported_extensions@) =~= seq!["html"@, "htm"@]);
            assert(capabilities@ =~= seq![Capability::Lint]);
        }
        DecreeMetadata {
            description: String::from_str("Datastar HTML attribute hygiene and best practices"),
            supported_extensions,
            supported_filenames: Vec::new(),
            skip_filenames: Vec::new(),
            capabilities,
        }
    }

    /// Run the enabled checks on one tag.
    pub fn lint_tag(&self, tag: &ParsedTag<'_>, diags: &mut Diagnostics)
        ensures
            diag_views(final(diags)@) == diag_views(old(diags)@) + tag_diags(self.spec_config(), *tag),
    {
        let ghost c = self.config;
        let ghost attrs = tag.attributes@;
        let ghost d0 = diag_views(diags@);
        // Check for Alpine/Vue attributes
        if self.config.check_alpine_vue {
            check_alpine_vue(tag, diags);
        }
        let ghost d1 = diag_views(diags@);
        proof {
            lemma_gated(c.check_alpine_vue, d0, d1, concat_map(attrs, alpine_vue_f()));
        }
        // Check required values
        if self.config.check_required_values {
            check_required_values(tag, diags);
        }
        let ghost d2 = diag_views(diags@);
        proof {
            lemma_gated(c.check_required_values, d1, d2, concat_map(attrs, required_value_f()));
        }
        // Check data-for on template
        if self.config.check_for_template {
            check_for_on_template(tag, diags);
        }
        let ghost d3 = diag_views(diags@);
        proof {
            lemma_gated(c.check_for_template, d2, d3, concat_map(attrs, for_template_f(tag.name@)));
        }
        // Check for typos
        if self.config.check_typos {
            check_typos(tag, diags);
        }
        let ghost d4 = diag_views(diags@);
        proof {
            lemma_gated(c.check_typos, d3, d4, concat_map(attrs, typo_f()));
        }
        // Check modifier syntax
        if self.config.check_modifiers {
            check_modifiers(tag, diags);
        }
        let ghost d5 = diag_views(diags@);
        proof {
            lemma_gated(c.check_modifiers, d4, d5, concat_map(attrs, modifier_f()));
        }
        // Check action syntax
        if self.config.check_actions {
            check_actions(tag, diags);
        }
        proof {
            lemma_gated(c.check_actions, d5, diag_views(diags@), concat_map(attrs, action_f()));
            lemma_chain(
                d0,
                gated(c.check_alpine_vue, concat_map(attrs, alpine_vue_f())),
                gated(c.check_required_values, concat_map(attrs, required_value_f())),
                gated(c.check_for_template, concat_map(attrs, for_template_f(tag.name@))),
                gated(c.check_typos, concat_map(attrs, typo_f())),
                gated(c.check_modifiers, concat_map(attrs, modifier_f())),
                gated(c.check_actions, concat_map(attrs, action_f())),
            );
        }
    }

    /// Run the enabled checks on each of the tags, in order.
    pub fn lint_tags(&self, tags: &Vec<ParsedTag<'_>>) -> (r: Diagnostics)
        ensures
            diag_views(r@) == tags_diags(self.spec_config(), tags@),
    {
        let mut diags: Diagnostics = Vec::new();
        let mut k: usize = 0;
        proof {
            assert(diag_views(diags@) =~= seq![]);
        }
        while k < tags.len()
            invariant
                k <= tags.len(),
                diag_views(diags@) == tags_diags(self.config, tags@.subrange(0, k as int)),
            decreases tags.len() - k,
        {
            proof {
                assert(tags@.subrange(0, k + 1).drop_last() =~= tags@.subrange(0, k as int));
            }
            self.lint_tag(&tags[k], &mut diags);
            k += 1;
        }
        proof {
            assert(tags@.subrange(0, k as int) =~= tags@);
        }
        diags
    }

    /// Lint a source file: the findings of the enabled checks on every tag
    /// that the tokenizer finds, in the order found. The path is not used.
    pub fn lint(&self, _path: &str, source: &str) -> (r: Diagnostics)
        ensures
            exists|tags: Seq<ParsedTag<'_>>| #[trigger] tokenized(bytes_of(source), tags),
            forall|tags: Seq<ParsedTag<'_>>|
                #[trigger] tokenized(bytes_of(source), tags) ==> diag_views(r@) == tags_diags(
                    self.spec_config(),
                    tags,
                ),
    {
        // Parse HTML tags
        let tags = parse_tags(source);
        let r = self.lint_tags(&tags);
        proof {
            let src = bytes_of(source);
            assert(tokenized(src, tags@));
            assert forall|other: Seq<ParsedTag<'_>>| #[trigger]
                tokenized(src, other) implies diag_views(r@) == tags_diags(
                self.config,
                other,
            ) by {
                lemma_tags_findings_agree(self.config, src, tags@, other, scan_tags(src, 0));
            }
        }
        r
    }
}

impl Default for DatastarHygiene {
    /// Every check enabled.
    fn default() -> (r: Self)
        ensures
            r.spec_config().check_alpine_vue && r.spec_config().check_required_values
                && r.spec_config().check_typos && r.spec_config().check_modifiers
                && r.spec_config().check_actions && r.spec_config().check_for_template,
    {
        DatastarHygiene::new()
    }
}

} // verus!
