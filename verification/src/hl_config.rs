//! The tree-sitter grammars the browser highlights with, and the
//! highlight configurations built from them, each carrying the grammar's
//! name, the queries it was built from and the highlight names it was
//! configured with.

use vstd::prelude::*;

verus! {

#[verifier::external_type_specification]
#[verifier::external_body]
pub struct ExHighlightConfiguration(tree_sitter_highlight::HighlightConfiguration);

#[verifier::external_type_specification]
#[verifier::external_body]
pub struct ExLanguage(tree_sitter::Language);

/// A grammar under its language's name, with the queries its crate
/// bundles. Only the `grammar_*` functions below build one (its fields are
/// private to this module), each under its own language's name, so a
/// grammar's name always stands for the same tree-sitter language.
pub struct Grammar {
    name: &'static str,
    language: tree_sitter::Language,
    highlights: &'static str,
    injections: &'static str,
}

impl Grammar {
    /// The name of the grammar's language.
    pub closed spec fn spec_name(&self) -> Seq<char> {
        self.name@
    }

    /// The highlight query the grammar comes with.
    pub closed spec fn spec_highlights(&self) -> Seq<char> {
        self.highlights@
    }

    /// The injection query the grammar comes with.
    pub closed spec fn spec_injections(&self) -> Seq<char> {
        self.injections@
    }

    pub fn highlights(&self) -> (r: &'static str)
        ensures
            r@ == self.spec_highlights(),
    {
        self.highlights
    }

    pub fn injections(&self) -> (r: &'static str)
        ensures
            r@ == self.spec_injections(),
    {
        self.injections
    }
}

/// The highlight query that the grammar crate of language `lang` exports
/// (its `HIGHLIGHTS_QUERY` or `HIGHLIGHT_QUERY` constant).
pub uninterp spec fn spec_bundled_highlights(lang: Seq<char>) -> Seq<char>;

/// The injection query that the grammar crate of language `lang` exports
/// (its `INJECTIONS_QUERY` constant, or `INJECTION_QUERY_INLINE` for
/// markdown's inline grammar).
pub uninterp spec fn spec_bundled_injections(lang: Seq<char>) -> Seq<char>;

/// Under its language's name, the grammar of `tree_sitter_rust` with its crate's highlight
/// and injection queries (empty where the crate exports none that this
/// browser uses).
#[verifier::external_body]
pub(crate) fn grammar_rust() -> (g: Grammar)
    ensures
        g.spec_name() == "rust"@,
        g.spec_highlights() == spec_bundled_highlights(g.spec_name()),
        g.spec_injections() == spec_bundled_injections(g.spec_name()),
{
    Grammar { name: "rust", language: tree_sitter_rust::LANGUAGE.into(), highlights: tree_sitter_rust::HIGHLIGHTS_QUERY, injections: tree_sitter_rust::INJECTIONS_QUERY }
}

/// Under its language's name, the grammar of `tree_sitter_toml_ng` with its crate's highlight
/// and injection queries (empty where the crate exports none that this
/// browser uses).
#[verifier::external_body]
pub(crate) fn grammar_toml() -> (g: Grammar)
    ensures
        g.spec_name() == "toml"@,
        g.spec_highlights() == spec_bundled_highlights(g.spec_name()),
        g.spec_injections() == ""@,
{
    Grammar { name: "toml", language: tree_sitter_toml_ng::LANGUAGE.into(), highlights: tree_sitter_toml_ng::HIGHLIGHTS_QUERY, injections: "" }
}

/// Under its language's name, the grammar of `tree_sitter_python` with its crate's highlight
/// and injection queries (empty where the crate exports none that this
/// browser uses).
#[verifier::external_body]
pub(crate) fn grammar_python() -> (g: Grammar)
    ensures
        g.spec_name() == "python"@,
        g.spec_highlights() == spec_bundled_highlights(g.spec_name()),
        g.spec_injections() == ""@,
{
    Grammar { name: "python", language: tree_sitter_python::LANGUAGE.into(), highlights: tree_sitter_python::HIGHLIGHTS_QUERY, injections: "" }
}

/// Under its language's name, the grammar of `tree_sitter_javascript` with its crate's highlight
/// and injection queries (empty where the crate exports none that this
/// browser uses).
#[verifier::external_body]
pub(crate) fn grammar_javascript() -> (g: Grammar)
    ensures
        g.spec_name() == "javascript"@,
        g.spec_highlights() == spec_bundled_highlights(g.spec_name()),
        g.spec_injections() == spec_bundled_injections(g.spec_name()),
{
    Grammar { name: "javascript", language: tree_sitter_javascript::LANGUAGE.into(), highlights: tree_sitter_javascript::HIGHLIGHT_QUERY, injections: tree_sitter_javascript::INJECTIONS_QUERY }
}

/// Under its language's name, the grammar of `tree_sitter_typescript` (LANGUAGE_TYPESCRIPT) with its crate's highlight
/// and injection queries (empty where the crate exports none that this
/// browser uses).
#[verifier::external_body]
pub(crate) fn grammar_typescript() -> (g: Grammar)
    ensures
        g.spec_name() == "typescript"@,
        g.spec_highlights() == spec_bundled_highlights(g.spec_name()),
        g.spec_injections() == ""@,
{
    Grammar { name: "typescript", language: tree_sitter_typescript::LANGUAGE_TYPESCRIPT.into(), highlights: tree_sitter_typescript::HIGHLIGHTS_QUERY, injections: "" }
}

/// Under its language's name, the grammar of `tree_sitter_typescript` (LANGUAGE_TSX) with its crate's highlight
/// and injection queries (empty where the crate exports none that this
/// browser uses).
#[verifier::external_body]
pub(crate) fn grammar_tsx() -> (g: Grammar)
    ensures
        g.spec_name() == "tsx"@,
        g.spec_highlights() == spec_bundled_highlights(g.spec_name()),
        g.spec_injections() == ""@,
{
    Grammar { name: "tsx", language: tree_sitter_typescript::LANGUAGE_TSX.into(), highlights: tree_sitter_typescript::HIGHLIGHTS_QUERY, injections: "" }
}

/// Under its language's name, the grammar of `tree_sitter_json` with its crate's highlight
/// and injection queries (empty where the crate exports none that this
/// browser uses).
#[verifier::external_body]
pub(crate) fn grammar_json() -> (g: Grammar)
    ensures
        g.spec_name() == "json"@,
        g.spec_highlights() == ""@,
        g.spec_injections() == ""@,
{
    Grammar { name: "json", language: tree_sitter_json::LANGUAGE.into(), highlights: "", injections: "" }
}

/// Under its language's name, the grammar of `tree_sitter_yaml` with its crate's highlight
/// and injection queries (empty where the crate exports none that this
/// browser uses).
#[verifier::external_body]
pub(crate) fn grammar_yaml() -> (g: Grammar)
    ensures
        g.spec_name() == "yaml"@,
        g.spec_highlights() == spec_bundled_highlights(g.spec_name()),
        g.spec_injections() == ""@,
{
    Grammar { name: "yaml", language: tree_sitter_yaml::LANGUAGE.into(), highlights: tree_sitter_yaml::HIGHLIGHTS_QUERY, injections: "" }
}

/// Under its language's name, the grammar of `tree_sitter_c` with its crate's highlight
/// and injection queries (empty where the crate exports none that this
/// browser uses).
#[verifier::external_body]
pub(crate) fn grammar_c() -> (g: Grammar)
    ensures
        g.spec_name() == "c"@,
        g.spec_highlights() == spec_bundled_highlights(g.spec_name()),
        g.spec_injections() == ""@,
{
    Grammar { name: "c", language: tree_sitter_c::LANGUAGE.into(), highlights: tree_sitter_c::HIGHLIGHT_QUERY, injections: "" }
}

/// Under its language's name, the grammar of `tree_sitter_cpp` with its crate's highlight
/// and injection queries (empty where the crate exports none that this
/// browser uses).
#[verifier::external_body]
pub(crate) fn grammar_cpp() -> (g: Grammar)
    ensures
        g.spec_name() == "cpp"@,
        g.spec_highlights() == spec_bundled_highlights(g.spec_name()),
        g.spec_injections() == ""@,
{
    Grammar { name: "cpp", language: tree_sitter_cpp::LANGUAGE.into(), highlights: tree_sitter_cpp::HIGHLIGHT_QUERY, injections: "" }
}

/// Under its language's name, the grammar of `tree_sitter_go` with its crate's highlight
/// and injection queries (empty where the crate exports none that this
/// browser uses).
#[verifier::external_body]
pub(crate) fn grammar_go() -> (g: Grammar)
    ensures
        g.spec_name() == "go"@,
        g.spec_highlights() == spec_bundled_highlights(g.spec_name()),
        g.spec_injections() == ""@,
{
    Grammar { name: "go", language: tree_sitter_go::LANGUAGE.into(), highlights: tree_sitter_go::HIGHLIGHTS_QUERY, injections: "" }
}

/// Under its language's name, the grammar of `tree_sitter_html` with its crate's highlight
/// and injection queries (empty where the crate exports none that this
/// browser uses).
#[verifier::external_body]
pub(crate) fn grammar_html() -> (g: Grammar)
    ensures
        g.spec_name() == "html"@,
        g.spec_highlights() == spec_bundled_highlights(g.spec_name()),
        g.spec_injections() == spec_bundled_injections(g.spec_name()),
{
    Grammar { name: "html", language: tree_sitter_html::LANGUAGE.into(), highlights: tree_sitter_html::HIGHLIGHTS_QUERY, injections: tree_sitter_html::INJECTIONS_QUERY }
}

/// Under its language's name, the grammar of `tree_sitter_css` with its crate's highlight
/// and injection queries (empty where the crate exports none that this
/// browser uses).
#[verifier::external_body]
pub(crate) fn grammar_css() -> (g: Grammar)
    ensures
        g.spec_name() == "css"@,
        g.spec_highlights() == spec_bundled_highlights(g.spec_name()),
        g.spec_injections() == ""@,
{
    Grammar { name: "css", language: tree_sitter_css::LANGUAGE.into(), highlights: tree_sitter_css::HIGHLIGHTS_QUERY, injections: "" }
}

/// Under its language's name, the grammar of `tree_sitter_bash` with its crate's highlight
/// and injection queries (empty where the crate exports none that this
/// browser uses).
#[verifier::external_body]
pub(crate) fn grammar_bash() -> (g: Grammar)
    ensures
        g.spec_name() == "bash"@,
        g.spec_highlights() == spec_bundled_highlights(g.spec_name()),
        g.spec_injections() == ""@,
{
    Grammar { name: "bash", language: tree_sitter_bash::LANGUAGE.into(), highlights: tree_sitter_bash::HIGHLIGHT_QUERY, injections: "" }
}

/// Under its language's name, the grammar of `tree_sitter_java` with its crate's highlight
/// and injection queries (empty where the crate exports none that this
/// browser uses).
#[verifier::external_body]
pub(crate) fn grammar_java() -> (g: Grammar)
    ensures
        g.spec_name() == "java"@,
        g.spec_highlights() == spec_bundled_highlights(g.spec_name()),
        g.spec_injections() == ""@,
{
    Grammar { name: "java", language: tree_sitter_java::LANGUAGE.into(), highlights: tree_sitter_java::HIGHLIGHTS_QUERY, injections: "" }
}

/// Under its language's name, the grammar of `tree_sitter_lua` with its crate's highlight
/// and injection queries (empty where the crate exports none that this
/// browser uses).
#[verifier::external_body]
pub(crate) fn grammar_lua() -> (g: Grammar)
    ensures
        g.spec_name() == "lua"@,
        g.spec_highlights() == spec_bundled_highlights(g.spec_name()),
        g.spec_injections() == spec_bundled_injections(g.spec_name()),
{
    Grammar { name: "lua", language: tree_sitter_lua::LANGUAGE.into(), highlights: tree_sitter_lua::HIGHLIGHTS_QUERY, injections: tree_sitter_lua::INJECTIONS_QUERY }
}

/// Under its language's name, the grammar of `tree_sitter_ruby` with its crate's highlight
/// and injection queries (empty where the crate exports none that this
/// browser uses).
#[verifier::external_body]
pub(crate) fn grammar_ruby() -> (g: Grammar)
    ensures
        g.spec_name() == "ruby"@,
        g.spec_highlights() == spec_bundled_highlights(g.spec_name()),
        g.spec_injections() == ""@,
{
    Grammar { name: "ruby", language: tree_sitter_ruby::LANGUAGE.into(), highlights: tree_sitter_ruby::HIGHLIGHTS_QUERY, injections: "" }
}

/// Under its language's name, the grammar of `tree_sitter_md` with its crate's highlight
/// and injection queries (empty where the crate exports none that this
/// browser uses).
#[verifier::external_body]
pub(crate) fn grammar_markdown() -> (g: Grammar)
    ensures
        g.spec_name() == "markdown"@,
        g.spec_highlights() == ""@,
        g.spec_injections() == ""@,
{
    Grammar { name: "markdown", language: tree_sitter_md::LANGUAGE.into(), highlights: "", injections: "" }
}

/// Under its language's name, the grammar of `tree_sitter_md` (INLINE_LANGUAGE) with its crate's highlight
/// and injection queries (empty where the crate exports none that this
/// browser uses).
#[verifier::external_body]
pub(crate) fn grammar_markdown_inline() -> (g: Grammar)
    ensures
        g.spec_name() == "markdown_inline"@,
        g.spec_highlights() == ""@,
        g.spec_injections() == spec_bundled_injections(g.spec_name()),
{
    Grammar { name: "markdown_inline", language: tree_sitter_md::INLINE_LANGUAGE.into(), highlights: "", injections: tree_sitter_md::INJECTION_QUERY_INLINE }
}

/// Under its language's name, the grammar of `arborium_dockerfile` with its crate's highlight
/// and injection queries (empty where the crate exports none that this
/// browser uses).
#[verifier::external_body]
pub(crate) fn grammar_dockerfile() -> (g: Grammar)
    ensures
        g.spec_name() == "dockerfile"@,
        g.spec_highlights() == spec_bundled_highlights(g.spec_name()),
        g.spec_injections() == spec_bundled_injections(g.spec_name()),
{
    Grammar { name: "dockerfile", language: arborium_dockerfile::language().into(), highlights: arborium_dockerfile::HIGHLIGHTS_QUERY, injections: arborium_dockerfile::INJECTIONS_QUERY }
}

/// Whether `HighlightConfiguration::new` builds a configuration for the
/// grammar named `name` with the highlight and injection queries given:
/// it fails when a query does not compile against the grammar.
pub uninterp spec fn spec_config_builds(name: Seq<char>, highlights: Seq<char>, injections: Seq<char>) -> bool;

/// A configuration built for a grammar from two queries, not yet
/// configured, with the grammar's name and the queries it was built from.
pub struct Built {
    config: tree_sitter_highlight::HighlightConfiguration,
    lang: &'static str,
    highlights: &'static str,
    injections: &'static str,
}

impl Built {
    /// The grammar's name and the highlight and injection queries.
    pub closed spec fn model(&self) -> (Seq<char>, Seq<char>, Seq<char>) {
        (self.lang@, self.highlights@, self.injections@)
    }
}

/// The grammar's name, its highlight and injection queries, and the
/// highlight names it was configured with, in order.
pub type ConfigModel = (Seq<char>, Seq<char>, Seq<char>, Seq<Seq<char>>);

/// A configuration built for a grammar and configured with a list of
/// highlight names, with what it was built and configured from.
pub struct Configured {
    config: tree_sitter_highlight::HighlightConfiguration,
    lang: &'static str,
    highlights: &'static str,
    injections: &'static str,
    recognized: Vec<&'static str>,
}

impl Configured {
    pub closed spec fn model(&self) -> ConfigModel {
        (self.lang@, self.highlights@, self.injections@, self.recognized@.map_values(|s: &str| s@))
    }

    /// The name of the grammar's language.
    pub fn lang(&self) -> (r: &'static str)
        ensures
            r@ == self.model().0,
    {
        self.lang
    }

    /// The configuration itself, for the highlighter.
    pub fn config(&self) -> &tree_sitter_highlight::HighlightConfiguration {
        &self.config
    }
}

/// `HighlightConfiguration::new(language, name, highlights, injections,
/// "")` for `grammar`: `None` when a query does not compile. Claimed: the
/// outcome is a function of the grammar (which its name identifies, see
/// `Grammar`) and the two queries, named `spec_config_builds`; a built
/// configuration is returned with the name and the queries it was built
/// from.
#[verifier::external_body]
pub(crate) fn new_config(grammar: Grammar, highlights: &'static str, injections: &'static str) -> (r: Option<Built>)
    ensures
        r is Some <==> spec_config_builds(grammar.spec_name(), highlights@, injections@),
        r matches Some(b) ==> b.model() == (grammar.spec_name(), highlights@, injections@),
{
    match tree_sitter_highlight::HighlightConfiguration::new(grammar.language, grammar.name, highlights, injections, "") {
        Ok(config) => Some(Built { config, lang: grammar.name, highlights, injections }),
        Err(_) => None,
    }
}

/// `HighlightConfiguration::configure(names)`: maps the configuration's
/// capture names onto positions in `names`, so that the highlighter
/// reports a capture by its position there. Claimed: the configuration is
/// returned with the names it was configured with, besides what it was
/// built from.
#[verifier::external_body]
pub(crate) fn configure(built: Built, names: &Vec<&'static str>) -> (r: Configured)
    ensures
        r.model() == (built.model().0, built.model().1, built.model().2, names@.map_values(|s: &str| s@)),
{
    let mut config = built.config;
    config.configure(names.as_slice());
    Configured { config, lang: built.lang, highlights: built.highlights, injections: built.injections, recognized: names.clone() }
}

} // verus!
