//! Syntax highlighting for previews: which language a file is in (by its
//! name, its extension, or a `#!` line), how each highlight capture is
//! styled, and how the highlighter's stream of events becomes styled
//! lines — including markdown's "render" mode, which hides pure
//! formatting marks. The grammars and the highlighter itself are the
//! tree-sitter crates'.

use vstd::prelude::*;

use crate::fs::path_file_name;
use crate::sanitize::{SanitizedText, join_lines};
use crate::style::{Color, Line, Span, SpanView, Style, fg_style, lines_view, plain_style};
use crate::hl_config::{ConfigModel, Configured, Grammar, configure, new_config, spec_config_builds, spec_bundled_highlights, spec_bundled_injections, grammar_rust, grammar_toml, grammar_python, grammar_javascript, grammar_typescript, grammar_tsx, grammar_json, grammar_yaml, grammar_c, grammar_cpp, grammar_go, grammar_html, grammar_css, grammar_bash, grammar_java, grammar_lua, grammar_ruby, grammar_markdown, grammar_markdown_inline, grammar_dockerfile};
use crate::text::{split_char, split_chars, lead_while, lemma_lead_while, lemma_trail_while, trail_while, ascii_lower_seq, chars_eq, chars_is, chars_of, is_unicode_ws, is_unicode_ws_exec, slice_chars, string_of};

verus! {

pub const MARKDOWN_BLOCK_INJECTIONS_QUERY: &'static str = r#"
((fenced_code_block
  (info_string
    (language) @injection.language)
  (code_fence_content) @injection.content)
 (#set! injection.include-children))

((html_block) @injection.content
  (#set! injection.language "html")
  (#set! injection.include-children))

(document
  .
  (section
    .
    (thematic_break)
    (_) @injection.content
    (thematic_break))
  (#set! injection.language "yaml")
  (#set! injection.include-children))

((minus_metadata) @injection.content
  (#set! injection.language "yaml")
  (#set! injection.include-children))

((plus_metadata) @injection.content
  (#set! injection.language "toml")
  (#set! injection.include-children))

([
  (inline)
  (pipe_table_cell)
] @injection.content
 (#set! injection.language "markdown_inline")
 (#set! injection.include-children))
"#;

pub const MARKDOWN_BLOCK_HIGHLIGHTS_QUERY: &'static str = r#"
(atx_heading
  (atx_h1_marker)
  heading_content: (inline) @text.title.1)

(atx_heading
  (atx_h2_marker)
  heading_content: (inline) @text.title.2)

(atx_heading
  (atx_h3_marker)
  heading_content: (inline) @text.title.3)

(atx_heading
  (atx_h4_marker)
  heading_content: (inline) @text.title.4)

(atx_heading
  (atx_h5_marker)
  heading_content: (inline) @text.title.5)

(atx_heading
  (atx_h6_marker)
  heading_content: (inline) @text.title.6)

(setext_heading
  heading_content: (paragraph) @text.title.1
  (setext_h1_underline))

(setext_heading
  heading_content: (paragraph) @text.title.2
  (setext_h2_underline))

[
  (atx_h1_marker)
  (atx_h2_marker)
  (atx_h3_marker)
  (atx_h4_marker)
  (atx_h5_marker)
  (atx_h6_marker)
  (setext_h1_underline)
  (setext_h2_underline)
] @punctuation.special

[
  (link_title)
  (indented_code_block)
] @text.literal

(link_destination) @text.uri

(link_label) @text.reference

[
  (list_marker_plus)
  (list_marker_minus)
  (list_marker_star)
  (list_marker_dot)
  (list_marker_parenthesis)
] @punctuation.marker

[
  (thematic_break)
  (fenced_code_block_delimiter)
  (info_string)
] @punctuation.special

[
  (block_continuation)
  (block_quote_marker)
] @punctuation.special

(backslash_escape) @string.escape
"#;

pub const MARKDOWN_INLINE_HIGHLIGHTS_QUERY: &'static str = r#"
[
  (code_span)
  (link_title)
] @text.literal

[
  (emphasis_delimiter)
  (code_span_delimiter)
] @punctuation.special

(emphasis) @text.emphasis

(strong_emphasis) @text.strong

[
  (link_destination)
  (uri_autolink)
] @text.uri

[
  (link_label)
  (link_text)
  (image_description)
] @text.reference

[
  (backslash_escape)
  (hard_line_break)
] @string.escape

(image
  [
    "!"
    "["
    "]"
    "("
    ")"
  ] @punctuation.delimiter)

(inline_link
  [
    "["
    "]"
    "("
    ")"
  ] @punctuation.delimiter)

(shortcut_link
  [
    "["
    "]"
  ] @punctuation.delimiter)
"#;

pub const JSON_HIGHLIGHTS_QUERY: &'static str = r#"
(string) @string

(pair
  key: (_) @string.special.key)

(number) @number

[
  (null)
  (true)
  (false)
] @constant.builtin

(escape_sequence) @escape

(comment) @comment
"#;

/// Name of the toggle that shows markdown source as is.
pub const RAW_TOGGLE_NAME: &'static str = "raw";
/// The key bound to [`RAW_TOGGLE_NAME`].
pub const RAW_TOGGLE_KEY: char = 'r';

/// The highlight capture names the highlighter is configured with, in
/// order; a highlight event refers to one by its position here. Anything
/// else (punctuation and operators, say) renders as plain text.
pub open spec fn spec_recognized_names() -> Seq<Seq<char>> {
    seq!["attribute"@, "boolean"@, "comment"@, "constant"@, "constant.builtin"@, "constructor"@, "escape"@, "function"@, "function.builtin"@, "function.macro"@, "keyword"@, "label"@, "module"@, "number"@, "property"@, "string"@, "string.special"@, "string.special.key"@, "tag"@, "type"@, "type.builtin"@, "variable.builtin"@, "variable.parameter"@, "text.title.1"@, "text.title.2"@, "text.title.3"@, "text.title.4"@, "text.title.5"@, "text.title.6"@, "text.literal"@, "text.uri"@, "text.reference"@, "text.emphasis"@, "text.strong"@, "punctuation.special"@, "punctuation.marker"@]
}

/// The recognized capture names, as `spec_recognized_names` lists them.
pub fn recognized_names() -> (v: Vec<&'static str>)
    ensures
        v@.map_values(|s: &str| s@) == spec_recognized_names(),
{
    let mut v: Vec<&'static str> = Vec::new();
    v.push("attribute");
    v.push("boolean");
    v.push("comment");
    v.push("constant");
    v.push("constant.builtin");
    v.push("constructor");
    v.push("escape");
    v.push("function");
    v.push("function.builtin");
    v.push("function.macro");
    v.push("keyword");
    v.push("label");
    v.push("module");
    v.push("number");
    v.push("property");
    v.push("string");
    v.push("string.special");
    v.push("string.special.key");
    v.push("tag");
    v.push("type");
    v.push("type.builtin");
    v.push("variable.builtin");
    v.push("variable.parameter");
    v.push("text.title.1");
    v.push("text.title.2");
    v.push("text.title.3");
    v.push("text.title.4");
    v.push("text.title.5");
    v.push("text.title.6");
    v.push("text.literal");
    v.push("text.uri");
    v.push("text.reference");
    v.push("text.emphasis");
    v.push("text.strong");
    v.push("punctuation.special");
    v.push("punctuation.marker");
    proof {
        assert(v@.map_values(|s: &str| s@) =~= spec_recognized_names());
    }
    v
}

/// The style a capture name is drawn in, if it has one.
pub open spec fn spec_style_for(name: Seq<char>) -> Option<Style> {
    if name == "keyword"@ { Some(fg_style(Color::Magenta)) }
    else if name == "string"@ || name == "string.special"@ || name == "escape"@ { Some(fg_style(Color::Green)) }
    else if name == "comment"@ || name == "punctuation.special"@ || name == "punctuation.marker"@ { Some(fg_style(Color::DarkGray)) }
    else if name == "number"@ || name == "boolean"@ || name == "attribute"@ { Some(fg_style(Color::Yellow)) }
    else if name == "type"@ || name == "type.builtin"@ || name == "constructor"@ || name == "tag"@ { Some(fg_style(Color::Cyan)) }
    else if name == "function"@ || name == "function.builtin"@ || name == "function.macro"@ || name == "module"@ { Some(fg_style(Color::Blue)) }
    else if name == "constant"@ || name == "constant.builtin"@ || name == "label"@ { Some(fg_style(Color::LightRed)) }
    else if name == "variable.builtin"@ || name == "variable.parameter"@ { Some(fg_style(Color::LightMagenta)) }
    else if name == "property"@ || name == "string.special.key"@ { Some(fg_style(Color::White)) }
    else if name == "text.title.1"@ { Some(Style { bold: true, ..fg_style(Color::Red) }) }
    else if name == "text.title.2"@ { Some(Style { bold: true, ..fg_style(Color::Yellow) }) }
    else if name == "text.title.3"@ { Some(Style { bold: true, ..fg_style(Color::Green) }) }
    else if name == "text.title.4"@ { Some(Style { bold: true, ..fg_style(Color::Cyan) }) }
    else if name == "text.title.5"@ { Some(Style { bold: true, ..fg_style(Color::Blue) }) }
    else if name == "text.title.6"@ { Some(Style { bold: true, ..fg_style(Color::Magenta) }) }
    else if name == "text.literal"@ { Some(fg_style(Color::Green)) }
    else if name == "text.uri"@ { Some(fg_style(Color::Blue)) }
    else if name == "text.reference"@ { Some(fg_style(Color::Cyan)) }
    else if name == "text.emphasis"@ { Some(Style { italic: true, ..plain_style() }) }
    else if name == "text.strong"@ { Some(Style { bold: true, ..plain_style() }) }
    else { None }
}

/// The style a capture name is drawn in: one color per family of
/// captures; markdown headings bold, warm (level 1) to cool (level 6);
/// emphasis italic and strong bold.
pub fn style_for(name: &str) -> (r: Option<Style>)
    ensures
        r == spec_style_for(name@),
{
    let n = chars_of(name);
    let s = n.as_slice();
    if chars_is(s, "keyword") { Some(Style::new().fg(Color::Magenta)) }
    else if chars_is(s, "string") || chars_is(s, "string.special") || chars_is(s, "escape") { Some(Style::new().fg(Color::Green)) }
    else if chars_is(s, "comment") || chars_is(s, "punctuation.special") || chars_is(s, "punctuation.marker") { Some(Style::new().fg(Color::DarkGray)) }
    else if chars_is(s, "number") || chars_is(s, "boolean") || chars_is(s, "attribute") { Some(Style::new().fg(Color::Yellow)) }
    else if chars_is(s, "type") || chars_is(s, "type.builtin") || chars_is(s, "constructor") || chars_is(s, "tag") { Some(Style::new().fg(Color::Cyan)) }
    else if chars_is(s, "function") || chars_is(s, "function.builtin") || chars_is(s, "function.macro") || chars_is(s, "module") { Some(Style::new().fg(Color::Blue)) }
    else if chars_is(s, "constant") || chars_is(s, "constant.builtin") || chars_is(s, "label") { Some(Style::new().fg(Color::LightRed)) }
    else if chars_is(s, "variable.builtin") || chars_is(s, "variable.parameter") { Some(Style::new().fg(Color::LightMagenta)) }
    else if chars_is(s, "property") || chars_is(s, "string.special.key") { Some(Style::new().fg(Color::White)) }
    else if chars_is(s, "text.title.1") { Some(Style::new().fg(Color::Red).bold()) }
    else if chars_is(s, "text.title.2") { Some(Style::new().fg(Color::Yellow).bold()) }
    else if chars_is(s, "text.title.3") { Some(Style::new().fg(Color::Green).bold()) }
    else if chars_is(s, "text.title.4") { Some(Style::new().fg(Color::Cyan).bold()) }
    else if chars_is(s, "text.title.5") { Some(Style::new().fg(Color::Blue).bold()) }
    else if chars_is(s, "text.title.6") { Some(Style::new().fg(Color::Magenta).bold()) }
    else if chars_is(s, "text.literal") { Some(Style::new().fg(Color::Green)) }
    else if chars_is(s, "text.uri") { Some(Style::new().fg(Color::Blue)) }
    else if chars_is(s, "text.reference") { Some(Style::new().fg(Color::Cyan)) }
    else if chars_is(s, "text.emphasis") { Some(Style::new().italic()) }
    else if chars_is(s, "text.strong") { Some(Style::new().bold()) }
    else { None }
}

/// The language registered for a file extension.
pub open spec fn spec_language_for_extension(ext: Seq<char>) -> Option<Seq<char>> {
    if ext == "rs"@ { Some("rust"@) }
    else if ext == "toml"@ { Some("toml"@) }
    else if ext == "py"@ || ext == "pyw"@ { Some("python"@) }
    else if ext == "js"@ || ext == "mjs"@ || ext == "cjs"@ || ext == "jsx"@ { Some("javascript"@) }
    else if ext == "ts"@ || ext == "mts"@ || ext == "cts"@ { Some("typescript"@) }
    else if ext == "tsx"@ { Some("tsx"@) }
    else if ext == "json"@ { Some("json"@) }
    else if ext == "yaml"@ || ext == "yml"@ { Some("yaml"@) }
    else if ext == "c"@ || ext == "h"@ { Some("c"@) }
    else if ext == "cpp"@ || ext == "cc"@ || ext == "cxx"@ || ext == "hpp"@ || ext == "hh"@ || ext == "hxx"@ { Some("cpp"@) }
    else if ext == "go"@ { Some("go"@) }
    else if ext == "html"@ || ext == "htm"@ { Some("html"@) }
    else if ext == "css"@ { Some("css"@) }
    else if ext == "sh"@ || ext == "bash"@ || ext == "zsh"@ || ext == "ksh"@ { Some("bash"@) }
    else if ext == "java"@ { Some("java"@) }
    else if ext == "lua"@ { Some("lua"@) }
    else if ext == "rb"@ { Some("ruby"@) }
    else if ext == "md"@ || ext == "markdown"@ { Some("markdown"@) }
    else if ext == "dockerfile"@ { Some("dockerfile"@) }
    else { None }
}

/// The file extensions a language is recognized by, each with its
/// language.
pub open spec fn spec_extension_table() -> Seq<(Seq<char>, Seq<char>)> {
    seq![
        ("rs"@, "rust"@),
        ("toml"@, "toml"@),
        ("py"@, "python"@),
        ("pyw"@, "python"@),
        ("js"@, "javascript"@),
        ("mjs"@, "javascript"@),
        ("cjs"@, "javascript"@),
        ("jsx"@, "javascript"@),
        ("ts"@, "typescript"@),
        ("mts"@, "typescript"@),
        ("cts"@, "typescript"@),
        ("tsx"@, "tsx"@),
        ("json"@, "json"@),
        ("yaml"@, "yaml"@),
        ("yml"@, "yaml"@),
        ("c"@, "c"@),
        ("h"@, "c"@),
        ("cpp"@, "cpp"@),
        ("cc"@, "cpp"@),
        ("cxx"@, "cpp"@),
        ("hpp"@, "cpp"@),
        ("hh"@, "cpp"@),
        ("hxx"@, "cpp"@),
        ("go"@, "go"@),
        ("html"@, "html"@),
        ("htm"@, "html"@),
        ("css"@, "css"@),
        ("sh"@, "bash"@),
        ("bash"@, "bash"@),
        ("zsh"@, "bash"@),
        ("ksh"@, "bash"@),
        ("java"@, "java"@),
        ("lua"@, "lua"@),
        ("rb"@, "ruby"@),
        ("md"@, "markdown"@),
        ("markdown"@, "markdown"@),
        ("dockerfile"@, "dockerfile"@)
    ]
}

/// An extension maps to a language exactly when the extension table lists
/// it with that language: every listed alias (`yml` as much as `yaml`)
/// picks its language, and no unlisted extension picks any.
#[verifier::spinoff_prover]
#[verifier::rlimit(50)]
pub proof fn lemma_extensions_follow_table(ext: Seq<char>)
    ensures
        forall|i: int| 0 <= i < spec_extension_table().len()
            ==> spec_language_for_extension(#[trigger] spec_extension_table()[i].0) == Some(spec_extension_table()[i].1),
        spec_language_for_extension(ext) matches Some(l) ==> spec_extension_table().contains((ext, l)),
        spec_language_for_extension(ext) is None ==> forall|i: int| 0 <= i < spec_extension_table().len()
            ==> #[trigger] spec_extension_table()[i].0 != ext,
{
    let t = spec_extension_table();
    reveal_strlit("rs");
    assert("rs"@.len() == 2 && "rs"@[0] == 'r' && "rs"@[1] == 's');
    reveal_strlit("toml");
    assert("toml"@.len() == 4 && "toml"@[0] == 't' && "toml"@[1] == 'o' && "toml"@[2] == 'm' && "toml"@[3] == 'l');
    reveal_strlit("py");
    assert("py"@.len() == 2 && "py"@[0] == 'p' && "py"@[1] == 'y');
    reveal_strlit("pyw");
    assert("pyw"@.len() == 3 && "pyw"@[0] == 'p' && "pyw"@[1] == 'y' && "pyw"@[2] == 'w');
    reveal_strlit("js");
    assert("js"@.len() == 2 && "js"@[0] == 'j' && "js"@[1] == 's');
    reveal_strlit("mjs");
    assert("mjs"@.len() == 3 && "mjs"@[0] == 'm' && "mjs"@[1] == 'j' && "mjs"@[2] == 's');
    reveal_strlit("cjs");
    assert("cjs"@.len() == 3 && "cjs"@[0] == 'c' && "cjs"@[1] == 'j' && "cjs"@[2] == 's');
    reveal_strlit("jsx");
    assert("jsx"@.len() == 3 && "jsx"@[0] == 'j' && "jsx"@[1] == 's' && "jsx"@[2] == 'x');
    reveal_strlit("ts");
    assert("ts"@.len() == 2 && "ts"@[0] == 't' && "ts"@[1] == 's');
    reveal_strlit("mts");
    assert("mts"@.len() == 3 && "mts"@[0] == 'm' && "mts"@[1] == 't' && "mts"@[2] == 's');
    reveal_strlit("cts");
    assert("cts"@.len() == 3 && "cts"@[0] == 'c' && "cts"@[1] == 't' && "cts"@[2] == 's');
    reveal_strlit("tsx");
    assert("tsx"@.len() == 3 && "tsx"@[0] == 't' && "tsx"@[1] == 's' && "tsx"@[2] == 'x');
    reveal_strlit("json");
    assert("json"@.len() == 4 && "json"@[0] == 'j' && "json"@[1] == 's' && "json"@[2] == 'o' && "json"@[3] == 'n');
    reveal_strlit("yaml");
    assert("yaml"@.len() == 4 && "yaml"@[0] == 'y' && "yaml"@[1] == 'a' && "yaml"@[2] == 'm' && "yaml"@[3] == 'l');
    reveal_strlit("yml");
    assert("yml"@.len() == 3 && "yml"@[0] == 'y' && "yml"@[1] == 'm' && "yml"@[2] == 'l');
    reveal_strlit("c");
    assert("c"@.len() == 1 && "c"@[0] == 'c');
    reveal_strlit("h");
    assert("h"@.len() == 1 && "h"@[0] == 'h');
    reveal_strlit("cpp");
    assert("cpp"@.len() == 3 && "cpp"@[0] == 'c' && "cpp"@[1] == 'p' && "cpp"@[2] == 'p');
    reveal_strlit("cc");
    assert("cc"@.len() == 2 && "cc"@[0] == 'c' && "cc"@[1] == 'c');
    reveal_strlit("cxx");
    assert("cxx"@.len() == 3 && "cxx"@[0] == 'c' && "cxx"@[1] == 'x' && "cxx"@[2] == 'x');
    reveal_strlit("hpp");
    assert("hpp"@.len() == 3 && "hpp"@[0] == 'h' && "hpp"@[1] == 'p' && "hpp"@[2] == 'p');
    reveal_strlit("hh");
    assert("hh"@.len() == 2 && "hh"@[0] == 'h' && "hh"@[1] == 'h');
    reveal_strlit("hxx");
    assert("hxx"@.len() == 3 && "hxx"@[0] == 'h' && "hxx"@[1] == 'x' && "hxx"@[2] == 'x');
    reveal_strlit("go");
    assert("go"@.len() == 2 && "go"@[0] == 'g' && "go"@[1] == 'o');
    reveal_strlit("html");
    assert("html"@.len() == 4 && "html"@[0] == 'h' && "html"@[1] == 't' && "html"@[2] == 'm' && "html"@[3] == 'l');
    reveal_strlit("htm");
    assert("htm"@.len() == 3 && "htm"@[0] == 'h' && "htm"@[1] == 't' && "htm"@[2] == 'm');
    reveal_strlit("css");
    assert("css"@.len() == 3 && "css"@[0] == 'c' && "css"@[1] == 's' && "css"@[2] == 's');
    reveal_strlit("sh");
    assert("sh"@.len() == 2 && "sh"@[0] == 's' && "sh"@[1] == 'h');
    reveal_strlit("bash");
    assert("bash"@.len() == 4 && "bash"@[0] == 'b' && "bash"@[1] == 'a' && "bash"@[2] == 's' && "bash"@[3] == 'h');
    reveal_strlit("zsh");
    assert("zsh"@.len() == 3 && "zsh"@[0] == 'z' && "zsh"@[1] == 's' && "zsh"@[2] == 'h');
    reveal_strlit("ksh");
    assert("ksh"@.len() == 3 && "ksh"@[0] == 'k' && "ksh"@[1] == 's' && "ksh"@[2] == 'h');
    reveal_strlit("java");
    assert("java"@.len() == 4 && "java"@[0] == 'j' && "java"@[1] == 'a' && "java"@[2] == 'v' && "java"@[3] == 'a');
    reveal_strlit("lua");
    assert("lua"@.len() == 3 && "lua"@[0] == 'l' && "lua"@[1] == 'u' && "lua"@[2] == 'a');
    reveal_strlit("rb");
    assert("rb"@.len() == 2 && "rb"@[0] == 'r' && "rb"@[1] == 'b');
    reveal_strlit("md");
    assert("md"@.len() == 2 && "md"@[0] == 'm' && "md"@[1] == 'd');
    reveal_strlit("markdown");
    assert("markdown"@.len() == 8 && "markdown"@[0] == 'm' && "markdown"@[1] == 'a' && "markdown"@[2] == 'r' && "markdown"@[3] == 'k' && "markdown"@[4] == 'd' && "markdown"@[5] == 'o' && "markdown"@[6] == 'w' && "markdown"@[7] == 'n');
    reveal_strlit("dockerfile");
    assert("dockerfile"@.len() == 10 && "dockerfile"@[0] == 'd' && "dockerfile"@[1] == 'o' && "dockerfile"@[2] == 'c' && "dockerfile"@[3] == 'k' && "dockerfile"@[4] == 'e' && "dockerfile"@[5] == 'r' && "dockerfile"@[6] == 'f' && "dockerfile"@[7] == 'i' && "dockerfile"@[8] == 'l' && "dockerfile"@[9] == 'e');
    assert forall|i: int| 0 <= i < t.len()
        implies spec_language_for_extension(#[trigger] t[i].0) == Some(t[i].1) by {
        if i == 0 { assert(t[0] == ("rs"@, "rust"@)); assert(spec_language_for_extension("rs"@) == Some("rust"@)); }
        else if i == 1 { assert(t[1] == ("toml"@, "toml"@)); assert(spec_language_for_extension("toml"@) == Some("toml"@)); }
        else if i == 2 { assert(t[2] == ("py"@, "python"@)); assert(spec_language_for_extension("py"@) == Some("python"@)); }
        else if i == 3 { assert(t[3] == ("pyw"@, "python"@)); assert(spec_language_for_extension("pyw"@) == Some("python"@)); }
        else if i == 4 { assert(t[4] == ("js"@, "javascript"@)); assert(spec_language_for_extension("js"@) == Some("javascript"@)); }
        else if i == 5 { assert(t[5] == ("mjs"@, "javascript"@)); assert(spec_language_for_extension("mjs"@) == Some("javascript"@)); }
        else if i == 6 { assert(t[6] == ("cjs"@, "javascript"@)); assert(spec_language_for_extension("cjs"@) == Some("javascript"@)); }
        else if i == 7 { assert(t[7] == ("jsx"@, "javascript"@)); assert(spec_language_for_extension("jsx"@) == Some("javascript"@)); }
        else if i == 8 { assert(t[8] == ("ts"@, "typescript"@)); assert(spec_language_for_extension("ts"@) == Some("typescript"@)); }
        else if i == 9 { assert(t[9] == ("mts"@, "typescript"@)); assert(spec_language_for_extension("mts"@) == Some("typescript"@)); }
        else if i == 10 { assert(t[10] == ("cts"@, "typescript"@)); assert(spec_language_for_extension("cts"@) == Some("typescript"@)); }
        else if i == 11 { assert(t[11] == ("tsx"@, "tsx"@)); assert(spec_language_for_extension("tsx"@) == Some("tsx"@)); }
        else if i == 12 { assert(t[12] == ("json"@, "json"@)); assert(spec_language_for_extension("json"@) == Some("json"@)); }
        else if i == 13 { assert(t[13] == ("yaml"@, "yaml"@)); assert(spec_language_for_extension("yaml"@) == Some("yaml"@)); }
        else if i == 14 { assert(t[14] == ("yml"@, "yaml"@)); assert(spec_language_for_extension("yml"@) == Some("yaml"@)); }
        else if i == 15 { assert(t[15] == ("c"@, "c"@)); assert(spec_language_for_extension("c"@) == Some("c"@)); }
        else if i == 16 { assert(t[16] == ("h"@, "c"@)); assert(spec_language_for_extension("h"@) == Some("c"@)); }
        else if i == 17 { assert(t[17] == ("cpp"@, "cpp"@)); assert(spec_language_for_extension("cpp"@) == Some("cpp"@)); }
        else if i == 18 { assert(t[18] == ("cc"@, "cpp"@)); assert(spec_language_for_extension("cc"@) == Some("cpp"@)); }
        else if i == 19 { assert(t[19] == ("cxx"@, "cpp"@)); assert(spec_language_for_extension("cxx"@) == Some("cpp"@)); }
        else if i == 20 { assert(t[20] == ("hpp"@, "cpp"@)); assert(spec_language_for_extension("hpp"@) == Some("cpp"@)); }
        else if i == 21 { assert(t[21] == ("hh"@, "cpp"@)); assert(spec_language_for_extension("hh"@) == Some("cpp"@)); }
        else if i == 22 { assert(t[22] == ("hxx"@, "cpp"@)); assert(spec_language_for_extension("hxx"@) == Some("cpp"@)); }
        else if i == 23 { assert(t[23] == ("go"@, "go"@)); assert(spec_language_for_extension("go"@) == Some("go"@)); }
        else if i == 24 { assert(t[24] == ("html"@, "html"@)); assert(spec_language_for_extension("html"@) == Some("html"@)); }
        else if i == 25 { assert(t[25] == ("htm"@, "html"@)); assert(spec_language_for_extension("htm"@) == Some("html"@)); }
        else if i == 26 { assert(t[26] == ("css"@, "css"@)); assert(spec_language_for_extension("css"@) == Some("css"@)); }
        else if i == 27 { assert(t[27] == ("sh"@, "bash"@)); assert(spec_language_for_extension("sh"@) == Some("bash"@)); }
        else if i == 28 { assert(t[28] == ("bash"@, "bash"@)); assert(spec_language_for_extension("bash"@) == Some("bash"@)); }
        else if i == 29 { assert(t[29] == ("zsh"@, "bash"@)); assert(spec_language_for_extension("zsh"@) == Some("bash"@)); }
        else if i == 30 { assert(t[30] == ("ksh"@, "bash"@)); assert(spec_language_for_extension("ksh"@) == Some("bash"@)); }
        else if i == 31 { assert(t[31] == ("java"@, "java"@)); assert(spec_language_for_extension("java"@) == Some("java"@)); }
        else if i == 32 { assert(t[32] == ("lua"@, "lua"@)); assert(spec_language_for_extension("lua"@) == Some("lua"@)); }
        else if i == 33 { assert(t[33] == ("rb"@, "ruby"@)); assert(spec_language_for_extension("rb"@) == Some("ruby"@)); }
        else if i == 34 { assert(t[34] == ("md"@, "markdown"@)); assert(spec_language_for_extension("md"@) == Some("markdown"@)); }
        else if i == 35 { assert(t[35] == ("markdown"@, "markdown"@)); assert(spec_language_for_extension("markdown"@) == Some("markdown"@)); }
        else if i == 36 { assert(t[36] == ("dockerfile"@, "dockerfile"@)); assert(spec_language_for_extension("dockerfile"@) == Some("dockerfile"@)); }
    }
    match spec_language_for_extension(ext) {
        Some(l) => {
            if ext == "rs"@ { assert(t[0] == (ext, l)); }
            if ext == "toml"@ { assert(t[1] == (ext, l)); }
            if ext == "py"@ { assert(t[2] == (ext, l)); }
            if ext == "pyw"@ { assert(t[3] == (ext, l)); }
            if ext == "js"@ { assert(t[4] == (ext, l)); }
            if ext == "mjs"@ { assert(t[5] == (ext, l)); }
            if ext == "cjs"@ { assert(t[6] == (ext, l)); }
            if ext == "jsx"@ { assert(t[7] == (ext, l)); }
            if ext == "ts"@ { assert(t[8] == (ext, l)); }
            if ext == "mts"@ { assert(t[9] == (ext, l)); }
            if ext == "cts"@ { assert(t[10] == (ext, l)); }
            if ext == "tsx"@ { assert(t[11] == (ext, l)); }
            if ext == "json"@ { assert(t[12] == (ext, l)); }
            if ext == "yaml"@ { assert(t[13] == (ext, l)); }
            if ext == "yml"@ { assert(t[14] == (ext, l)); }
            if ext == "c"@ { assert(t[15] == (ext, l)); }
            if ext == "h"@ { assert(t[16] == (ext, l)); }
            if ext == "cpp"@ { assert(t[17] == (ext, l)); }
            if ext == "cc"@ { assert(t[18] == (ext, l)); }
            if ext == "cxx"@ { assert(t[19] == (ext, l)); }
            if ext == "hpp"@ { assert(t[20] == (ext, l)); }
            if ext == "hh"@ { assert(t[21] == (ext, l)); }
            if ext == "hxx"@ { assert(t[22] == (ext, l)); }
            if ext == "go"@ { assert(t[23] == (ext, l)); }
            if ext == "html"@ { assert(t[24] == (ext, l)); }
            if ext == "htm"@ { assert(t[25] == (ext, l)); }
            if ext == "css"@ { assert(t[26] == (ext, l)); }
            if ext == "sh"@ { assert(t[27] == (ext, l)); }
            if ext == "bash"@ { assert(t[28] == (ext, l)); }
            if ext == "zsh"@ { assert(t[29] == (ext, l)); }
            if ext == "ksh"@ { assert(t[30] == (ext, l)); }
            if ext == "java"@ { assert(t[31] == (ext, l)); }
            if ext == "lua"@ { assert(t[32] == (ext, l)); }
            if ext == "rb"@ { assert(t[33] == (ext, l)); }
            if ext == "md"@ { assert(l == "markdown"@); assert(t[34] == (ext, l)); }
            if ext == "markdown"@ { assert(t[35] == (ext, l)); }
            if ext == "dockerfile"@ { assert(t[36] == (ext, l)); }
        },
        None => {},
    }
}

pub fn language_for_extension(ext: &str) -> (r: Option<&'static str>)
    ensures
        match r {
            Some(l) => spec_language_for_extension(ext@) == Some(l@),
            None => spec_language_for_extension(ext@) is None,
        },
{
    let e = chars_of(ext);
    let s = e.as_slice();
    if chars_is(s, "rs") { Some("rust") }
    else if chars_is(s, "toml") { Some("toml") }
    else if chars_is(s, "py") || chars_is(s, "pyw") { Some("python") }
    else if chars_is(s, "js") || chars_is(s, "mjs") || chars_is(s, "cjs") || chars_is(s, "jsx") { Some("javascript") }
    else if chars_is(s, "ts") || chars_is(s, "mts") || chars_is(s, "cts") { Some("typescript") }
    else if chars_is(s, "tsx") { Some("tsx") }
    else if chars_is(s, "json") { Some("json") }
    else if chars_is(s, "yaml") || chars_is(s, "yml") { Some("yaml") }
    else if chars_is(s, "c") || chars_is(s, "h") { Some("c") }
    else if chars_is(s, "cpp") || chars_is(s, "cc") || chars_is(s, "cxx") || chars_is(s, "hpp") || chars_is(s, "hh") || chars_is(s, "hxx") { Some("cpp") }
    else if chars_is(s, "go") { Some("go") }
    else if chars_is(s, "html") || chars_is(s, "htm") { Some("html") }
    else if chars_is(s, "css") { Some("css") }
    else if chars_is(s, "sh") || chars_is(s, "bash") || chars_is(s, "zsh") || chars_is(s, "ksh") { Some("bash") }
    else if chars_is(s, "java") { Some("java") }
    else if chars_is(s, "lua") { Some("lua") }
    else if chars_is(s, "rb") { Some("ruby") }
    else if chars_is(s, "md") || chars_is(s, "markdown") { Some("markdown") }
    else if chars_is(s, "dockerfile") { Some("dockerfile") }
    else { None }
}

/// The text before the first `.` (all of `s` when it has none).
pub open spec fn before_first_dot(s: Seq<char>) -> Seq<char>
    decreases s.len(),
{
    if s.len() == 0 || s[0] == '.' { Seq::empty() } else { seq![s[0]] + before_first_dot(s.drop_first()) }
}

/// The language registered for a well-known file name, checked before
/// the extension: any name whose part before the first `.` is
/// `Dockerfile` or `Containerfile` (in any ASCII case), and a few exact
/// names.
pub open spec fn spec_language_for_filename(name: Seq<char>) -> Option<Seq<char>> {
    let stem = before_first_dot(name);
    if ascii_lower_seq(stem) == "dockerfile"@ || ascii_lower_seq(stem) == "containerfile"@ {
        Some("dockerfile"@)
    } else if name == "Cargo.lock"@ {
        Some("toml"@)
    } else if name == "Gemfile"@ || name == "Rakefile"@ || name == "Vagrantfile"@ {
        Some("ruby"@)
    } else if name == ".bashrc"@ || name == ".bash_profile"@ || name == ".bash_login"@ || name == ".profile"@ || name == ".zshrc"@
        || name == ".zprofile"@ || name == ".zshenv"@ || name == ".zlogin"@ || name == ".zlogout"@ {
        Some("bash"@)
    } else {
        None
    }
}

/// The exact file names a language is recognized by, each with its
/// language.
pub open spec fn spec_filename_table() -> Seq<(Seq<char>, Seq<char>)> {
    seq![
        ("Cargo.lock"@, "toml"@),
        ("Gemfile"@, "ruby"@),
        ("Rakefile"@, "ruby"@),
        ("Vagrantfile"@, "ruby"@),
        (".bashrc"@, "bash"@),
        (".bash_profile"@, "bash"@),
        (".bash_login"@, "bash"@),
        (".profile"@, "bash"@),
        (".zshrc"@, "bash"@),
        (".zprofile"@, "bash"@),
        (".zshenv"@, "bash"@),
        (".zlogin"@, "bash"@),
        (".zlogout"@, "bash"@)
    ]
}

/// The part of `a + x` before its first `.` is `a`, when `a` holds no `.`
/// and `x` is empty or starts with one.
proof fn lemma_stem_of(a: Seq<char>, x: Seq<char>)
    requires
        forall|i: int| 0 <= i < a.len() ==> a[i] != '.',
        x.len() == 0 || x[0] == '.',
    ensures
        before_first_dot(a + x) == a,
    decreases a.len(),
{
    if a.len() == 0 {
        assert(a + x =~= x);
    } else {
        lemma_stem_of(a.drop_first(), x);
        assert((a + x).drop_first() =~= a.drop_first() + x);
        assert(seq![a[0]] + a.drop_first() =~= a);
    }
}

/// The part of `s` before its first `.` is no longer than `k` when `s`
/// has no `.` before position `k`... nor longer than `s`.
proof fn lemma_stem_short(s: Seq<char>, k: int)
    requires
        0 <= k <= s.len(),
        k < s.len() ==> s[k] == '.',
    ensures
        before_first_dot(s).len() <= k,
    decreases s.len(),
{
    if s.len() > 0 && s[0] != '.' {
        assert(k > 0);
        lemma_stem_short(s.drop_first(), k - 1);
    }
}

/// Every exact name in the file-name table picks its language, and any
/// name whose part before the first `.` is `Dockerfile` or `Containerfile`
/// (`Dockerfile`, `Dockerfile.dev`, `Containerfile.prod`) is a Dockerfile.
#[verifier::spinoff_prover]
pub proof fn lemma_filenames_follow_table(x: Seq<char>)
    ensures
        forall|i: int| 0 <= i < spec_filename_table().len()
            ==> spec_language_for_filename(#[trigger] spec_filename_table()[i].0) == Some(spec_filename_table()[i].1),
        x.len() == 0 || x[0] == '.' ==> spec_language_for_filename("Dockerfile"@ + x) == Some("dockerfile"@)
            && spec_language_for_filename("Containerfile"@ + x) == Some("dockerfile"@),
{
    let t = spec_filename_table();
    reveal_strlit("dockerfile");
    reveal_strlit("containerfile");
    reveal_strlit("Dockerfile");
    reveal_strlit("Containerfile");
    assert("dockerfile"@.len() == 10 && "containerfile"@.len() == 13);
    reveal_strlit(".bash_login");
    assert(".bash_login"@.len() == 11 && ".bash_login"@[0] == '.' && ".bash_login"@[1] == 'b' && ".bash_login"@[2] == 'a' && ".bash_login"@[3] == 's' && ".bash_login"@[4] == 'h' && ".bash_login"@[5] == '_' && ".bash_login"@[6] == 'l' && ".bash_login"@[7] == 'o' && ".bash_login"@[8] == 'g' && ".bash_login"@[9] == 'i' && ".bash_login"@[10] == 'n');
    reveal_strlit(".bash_profile");
    assert(".bash_profile"@.len() == 13 && ".bash_profile"@[0] == '.' && ".bash_profile"@[1] == 'b' && ".bash_profile"@[2] == 'a' && ".bash_profile"@[3] == 's' && ".bash_profile"@[4] == 'h' && ".bash_profile"@[5] == '_' && ".bash_profile"@[6] == 'p' && ".bash_profile"@[7] == 'r' && ".bash_profile"@[8] == 'o' && ".bash_profile"@[9] == 'f' && ".bash_profile"@[10] == 'i' && ".bash_profile"@[11] == 'l' && ".bash_profile"@[12] == 'e');
    reveal_strlit(".bashrc");
    assert(".bashrc"@.len() == 7 && ".bashrc"@[0] == '.' && ".bashrc"@[1] == 'b' && ".bashrc"@[2] == 'a' && ".bashrc"@[3] == 's' && ".bashrc"@[4] == 'h' && ".bashrc"@[5] == 'r' && ".bashrc"@[6] == 'c');
    reveal_strlit(".profile");
    assert(".profile"@.len() == 8 && ".profile"@[0] == '.' && ".profile"@[1] == 'p' && ".profile"@[2] == 'r' && ".profile"@[3] == 'o' && ".profile"@[4] == 'f' && ".profile"@[5] == 'i' && ".profile"@[6] == 'l' && ".profile"@[7] == 'e');
    reveal_strlit(".zlogin");
    assert(".zlogin"@.len() == 7 && ".zlogin"@[0] == '.' && ".zlogin"@[1] == 'z' && ".zlogin"@[2] == 'l' && ".zlogin"@[3] == 'o' && ".zlogin"@[4] == 'g' && ".zlogin"@[5] == 'i' && ".zlogin"@[6] == 'n');
    reveal_strlit(".zlogout");
    assert(".zlogout"@.len() == 8 && ".zlogout"@[0] == '.' && ".zlogout"@[1] == 'z' && ".zlogout"@[2] == 'l' && ".zlogout"@[3] == 'o' && ".zlogout"@[4] == 'g' && ".zlogout"@[5] == 'o' && ".zlogout"@[6] == 'u' && ".zlogout"@[7] == 't');
    reveal_strlit(".zprofile");
    assert(".zprofile"@.len() == 9 && ".zprofile"@[0] == '.' && ".zprofile"@[1] == 'z' && ".zprofile"@[2] == 'p' && ".zprofile"@[3] == 'r' && ".zprofile"@[4] == 'o' && ".zprofile"@[5] == 'f' && ".zprofile"@[6] == 'i' && ".zprofile"@[7] == 'l' && ".zprofile"@[8] == 'e');
    reveal_strlit(".zshenv");
    assert(".zshenv"@.len() == 7 && ".zshenv"@[0] == '.' && ".zshenv"@[1] == 'z' && ".zshenv"@[2] == 's' && ".zshenv"@[3] == 'h' && ".zshenv"@[4] == 'e' && ".zshenv"@[5] == 'n' && ".zshenv"@[6] == 'v');
    reveal_strlit(".zshrc");
    assert(".zshrc"@.len() == 6 && ".zshrc"@[0] == '.' && ".zshrc"@[1] == 'z' && ".zshrc"@[2] == 's' && ".zshrc"@[3] == 'h' && ".zshrc"@[4] == 'r' && ".zshrc"@[5] == 'c');
    reveal_strlit("Cargo.lock");
    assert("Cargo.lock"@.len() == 10 && "Cargo.lock"@[0] == 'C' && "Cargo.lock"@[1] == 'a' && "Cargo.lock"@[2] == 'r' && "Cargo.lock"@[3] == 'g' && "Cargo.lock"@[4] == 'o' && "Cargo.lock"@[5] == '.' && "Cargo.lock"@[6] == 'l' && "Cargo.lock"@[7] == 'o' && "Cargo.lock"@[8] == 'c' && "Cargo.lock"@[9] == 'k');
    reveal_strlit("Gemfile");
    assert("Gemfile"@.len() == 7 && "Gemfile"@[0] == 'G' && "Gemfile"@[1] == 'e' && "Gemfile"@[2] == 'm' && "Gemfile"@[3] == 'f' && "Gemfile"@[4] == 'i' && "Gemfile"@[5] == 'l' && "Gemfile"@[6] == 'e');
    reveal_strlit("Rakefile");
    assert("Rakefile"@.len() == 8 && "Rakefile"@[0] == 'R' && "Rakefile"@[1] == 'a' && "Rakefile"@[2] == 'k' && "Rakefile"@[3] == 'e' && "Rakefile"@[4] == 'f' && "Rakefile"@[5] == 'i' && "Rakefile"@[6] == 'l' && "Rakefile"@[7] == 'e');
    reveal_strlit("Vagrantfile");
    assert("Vagrantfile"@.len() == 11 && "Vagrantfile"@[0] == 'V' && "Vagrantfile"@[1] == 'a' && "Vagrantfile"@[2] == 'g' && "Vagrantfile"@[3] == 'r' && "Vagrantfile"@[4] == 'a' && "Vagrantfile"@[5] == 'n' && "Vagrantfile"@[6] == 't' && "Vagrantfile"@[7] == 'f' && "Vagrantfile"@[8] == 'i' && "Vagrantfile"@[9] == 'l' && "Vagrantfile"@[10] == 'e');
    assert forall|i: int| 0 <= i < t.len()
        implies spec_language_for_filename(#[trigger] t[i].0) == Some(t[i].1) by {
        if i == 0 { assert(t[0] == ("Cargo.lock"@, "toml"@)); lemma_stem_short("Cargo.lock"@, 5); assert(ascii_lower_seq(before_first_dot("Cargo.lock"@)).len() == before_first_dot("Cargo.lock"@).len()); assert(ascii_lower_seq(before_first_dot("Cargo.lock"@)) != "dockerfile"@); assert(ascii_lower_seq(before_first_dot("Cargo.lock"@)) != "containerfile"@); }
        else if i == 1 { assert(t[1] == ("Gemfile"@, "ruby"@)); lemma_stem_short("Gemfile"@, 7); assert(ascii_lower_seq(before_first_dot("Gemfile"@)).len() == before_first_dot("Gemfile"@).len()); assert(ascii_lower_seq(before_first_dot("Gemfile"@)) != "dockerfile"@); assert(ascii_lower_seq(before_first_dot("Gemfile"@)) != "containerfile"@); }
        else if i == 2 { assert(t[2] == ("Rakefile"@, "ruby"@)); lemma_stem_short("Rakefile"@, 8); assert(ascii_lower_seq(before_first_dot("Rakefile"@)).len() == before_first_dot("Rakefile"@).len()); assert(ascii_lower_seq(before_first_dot("Rakefile"@)) != "dockerfile"@); assert(ascii_lower_seq(before_first_dot("Rakefile"@)) != "containerfile"@); }
        else if i == 3 { assert(t[3] == ("Vagrantfile"@, "ruby"@)); assert(forall|j: int| 0 <= j < "Vagrantfile"@.len() ==> "Vagrantfile"@[j] != '.'); lemma_stem_of("Vagrantfile"@, Seq::<char>::empty()); assert("Vagrantfile"@ + Seq::<char>::empty() =~= "Vagrantfile"@); assert(ascii_lower_seq(before_first_dot("Vagrantfile"@)).len() == before_first_dot("Vagrantfile"@).len()); assert(ascii_lower_seq(before_first_dot("Vagrantfile"@)) != "dockerfile"@); assert(ascii_lower_seq(before_first_dot("Vagrantfile"@)) != "containerfile"@); }
        else if i == 4 { assert(t[4] == (".bashrc"@, "bash"@)); lemma_stem_short(".bashrc"@, 0); assert(ascii_lower_seq(before_first_dot(".bashrc"@)).len() == before_first_dot(".bashrc"@).len()); assert(ascii_lower_seq(before_first_dot(".bashrc"@)) != "dockerfile"@); assert(ascii_lower_seq(before_first_dot(".bashrc"@)) != "containerfile"@); }
        else if i == 5 { assert(t[5] == (".bash_profile"@, "bash"@)); lemma_stem_short(".bash_profile"@, 0); assert(ascii_lower_seq(before_first_dot(".bash_profile"@)).len() == before_first_dot(".bash_profile"@).len()); assert(ascii_lower_seq(before_first_dot(".bash_profile"@)) != "dockerfile"@); assert(ascii_lower_seq(before_first_dot(".bash_profile"@)) != "containerfile"@); }
        else if i == 6 { assert(t[6] == (".bash_login"@, "bash"@)); lemma_stem_short(".bash_login"@, 0); assert(ascii_lower_seq(before_first_dot(".bash_login"@)).len() == before_first_dot(".bash_login"@).len()); assert(ascii_lower_seq(before_first_dot(".bash_login"@)) != "dockerfile"@); assert(ascii_lower_seq(before_first_dot(".bash_login"@)) != "containerfile"@); }
        else if i == 7 { assert(t[7] == (".profile"@, "bash"@)); lemma_stem_short(".profile"@, 0); assert(ascii_lower_seq(before_first_dot(".profile"@)).len() == before_first_dot(".profile"@).len()); assert(ascii_lower_seq(before_first_dot(".profile"@)) != "dockerfile"@); assert(ascii_lower_seq(before_first_dot(".profile"@)) != "containerfile"@); }
        else if i == 8 { assert(t[8] == (".zshrc"@, "bash"@)); lemma_stem_short(".zshrc"@, 0); assert(ascii_lower_seq(before_first_dot(".zshrc"@)).len() == before_first_dot(".zshrc"@).len()); assert(ascii_lower_seq(before_first_dot(".zshrc"@)) != "dockerfile"@); assert(ascii_lower_seq(before_first_dot(".zshrc"@)) != "containerfile"@); }
        else if i == 9 { assert(t[9] == (".zprofile"@, "bash"@)); lemma_stem_short(".zprofile"@, 0); assert(ascii_lower_seq(before_first_dot(".zprofile"@)).len() == before_first_dot(".zprofile"@).len()); assert(ascii_lower_seq(before_first_dot(".zprofile"@)) != "dockerfile"@); assert(ascii_lower_seq(before_first_dot(".zprofile"@)) != "containerfile"@); }
        else if i == 10 { assert(t[10] == (".zshenv"@, "bash"@)); lemma_stem_short(".zshenv"@, 0); assert(ascii_lower_seq(before_first_dot(".zshenv"@)).len() == before_first_dot(".zshenv"@).len()); assert(ascii_lower_seq(before_first_dot(".zshenv"@)) != "dockerfile"@); assert(ascii_lower_seq(before_first_dot(".zshenv"@)) != "containerfile"@); }
        else if i == 11 { assert(t[11] == (".zlogin"@, "bash"@)); lemma_stem_short(".zlogin"@, 0); assert(ascii_lower_seq(before_first_dot(".zlogin"@)).len() == before_first_dot(".zlogin"@).len()); assert(ascii_lower_seq(before_first_dot(".zlogin"@)) != "dockerfile"@); assert(ascii_lower_seq(before_first_dot(".zlogin"@)) != "containerfile"@); }
        else if i == 12 { assert(t[12] == (".zlogout"@, "bash"@)); lemma_stem_short(".zlogout"@, 0); assert(ascii_lower_seq(before_first_dot(".zlogout"@)).len() == before_first_dot(".zlogout"@).len()); assert(ascii_lower_seq(before_first_dot(".zlogout"@)) != "dockerfile"@); assert(ascii_lower_seq(before_first_dot(".zlogout"@)) != "containerfile"@); }
    }
    if x.len() == 0 || x[0] == '.' {
        assert forall|i: int| 0 <= i < "Dockerfile"@.len() implies "Dockerfile"@[i] != '.' by {
            assert("Dockerfile"@ =~= seq!['D', 'o', 'c', 'k', 'e', 'r', 'f', 'i', 'l', 'e']);
        }
        assert forall|i: int| 0 <= i < "Containerfile"@.len() implies "Containerfile"@[i] != '.' by {
            assert("Containerfile"@ =~= seq!['C', 'o', 'n', 't', 'a', 'i', 'n', 'e', 'r', 'f', 'i', 'l', 'e']);
        }
        lemma_stem_of("Dockerfile"@, x);
        lemma_stem_of("Containerfile"@, x);
        assert("Dockerfile"@ =~= seq!['D', 'o', 'c', 'k', 'e', 'r', 'f', 'i', 'l', 'e']);
        assert("dockerfile"@ =~= seq!['d', 'o', 'c', 'k', 'e', 'r', 'f', 'i', 'l', 'e']);
        assert(ascii_lower_seq("Dockerfile"@) =~= "dockerfile"@);
        assert("Containerfile"@ =~= seq!['C', 'o', 'n', 't', 'a', 'i', 'n', 'e', 'r', 'f', 'i', 'l', 'e']);
        assert("containerfile"@ =~= seq!['c', 'o', 'n', 't', 'a', 'i', 'n', 'e', 'r', 'f', 'i', 'l', 'e']);
        assert(ascii_lower_seq("Containerfile"@) =~= "containerfile"@);
    }
}

fn before_first_dot_chars(s: &[char]) -> (r: Vec<char>)
    ensures
        r@ == before_first_dot(s@),
{
    let mut i: usize = 0;
    while i < s.len() && s[i] != '.'
        invariant
            i <= s@.len(),
            forall|j: int| 0 <= j < i ==> s@[j] != '.',
        decreases s.len() - i,
    {
        i = i + 1;
    }
    proof {
        lemma_before_first_dot(s@, i as int);
    }
    slice_chars(s, 0, i)
}

proof fn lemma_before_first_dot(s: Seq<char>, i: int)
    requires
        0 <= i <= s.len(),
        forall|j: int| 0 <= j < i ==> s[j] != '.',
        i < s.len() ==> s[i] == '.',
    ensures
        before_first_dot(s) == s.subrange(0, i),
    decreases s.len(),
{
    if i > 0 {
        assert forall|j: int| 0 <= j < i - 1 implies s.drop_first()[j] != '.' by {
            assert(s.drop_first()[j] == s[j + 1]);
        }
        lemma_before_first_dot(s.drop_first(), i - 1);
        assert(seq![s[0]] + s.drop_first().subrange(0, i - 1) =~= s.subrange(0, i));
    } else {
        assert(s.subrange(0, 0) =~= Seq::<char>::empty());
    }
}

pub fn language_for_filename(name: &str) -> (r: Option<&'static str>)
    ensures
        match r {
            Some(l) => spec_language_for_filename(name@) == Some(l@),
            None => spec_language_for_filename(name@) is None,
        },
{
    let n = chars_of(name);
    let stem = before_first_dot_chars(n.as_slice());
    let low = crate::text::ascii_lower_chars(stem.as_slice());
    let s = n.as_slice();
    if chars_is(low.as_slice(), "dockerfile") || chars_is(low.as_slice(), "containerfile") { Some("dockerfile") }
    else if chars_is(s, "Cargo.lock") { Some("toml") }
    else if chars_is(s, "Gemfile") || chars_is(s, "Rakefile") || chars_is(s, "Vagrantfile") { Some("ruby") }
    else if chars_is(s, ".bashrc") || chars_is(s, ".bash_profile") || chars_is(s, ".bash_login") || chars_is(s, ".profile") || chars_is(s, ".zshrc")
        || chars_is(s, ".zprofile") || chars_is(s, ".zshenv") || chars_is(s, ".zlogin") || chars_is(s, ".zlogout") { Some("bash") }
    else { None }
}


pub open spec fn ws_pred() -> spec_fn(char) -> bool {
    |c: char| is_unicode_ws(c)
}

pub open spec fn word_pred() -> spec_fn(char) -> bool {
    |c: char| !is_unicode_ws(c)
}

pub open spec fn not_nl_pred() -> spec_fn(char) -> bool {
    |c: char| c != '\n'
}

pub open spec fn not_slash_pred() -> spec_fn(char) -> bool {
    |c: char| c != '/'
}

pub open spec fn digit_or_dot_pred() -> spec_fn(char) -> bool {
    |c: char| ('0' <= c && c <= '9') || c == '.'
}

/// `text.lines().next()`: the text before the first line break (without a
/// trailing `\r`), or `None` for empty text.
pub open spec fn first_line(text: Seq<char>) -> Option<Seq<char>> {
    if text.len() == 0 {
        None
    } else {
        let l = text.subrange(0, lead_while(text, not_nl_pred()) as int);
        Some(if l.len() > 0 && l.last() == '\r' { l.drop_last() } else { l })
    }
}

/// The first whitespace-separated word of `s` and what follows it, as
/// `split_whitespace` reads them.
pub open spec fn first_word(s: Seq<char>) -> Option<(Seq<char>, Seq<char>)> {
    let t = s.skip(lead_while(s, ws_pred()) as int);
    if t.len() == 0 {
        None
    } else {
        let n = lead_while(t, word_pred()) as int;
        Some((t.subrange(0, n), t.skip(n)))
    }
}

/// The last `/`-separated piece of `s`.
pub open spec fn after_last_slash(s: Seq<char>) -> Seq<char> {
    s.skip(s.len() - trail_while(s, not_slash_pred()))
}

/// The language a `#!` line names: its interpreter's last path component
/// (or, through `env`, that of the word after it), with trailing version
/// digits and dots dropped.
pub open spec fn spec_language_for_shebang(text: Seq<char>) -> Option<Seq<char>> {
    match first_line(text) {
        None => None,
        Some(line) => if !(line.len() >= 2 && line[0] == '#' && line[1] == '!') {
            None
        } else {
            match first_word(line.skip(2)) {
                None => None,
                Some((w1, rest)) => {
                    let i1 = after_last_slash(w1);
                    let interp = if i1 == "env"@ {
                        match first_word(rest) {
                            None => None,
                            Some((w2, _)) => Some(after_last_slash(w2)),
                        }
                    } else {
                        Some(i1)
                    };
                    match interp {
                        None => None,
                        Some(i) => {
                            let base = i.subrange(0, i.len() - trail_while(i, digit_or_dot_pred()));
                            if base == "python"@ { Some("python"@) }
                            else if base == "sh"@ || base == "bash"@ || base == "dash"@ || base == "ksh"@ || base == "zsh"@ { Some("bash"@) }
                            else if base == "node"@ || base == "nodejs"@ { Some("javascript"@) }
                            else if base == "ruby"@ { Some("ruby"@) }
                            else if base == "lua"@ { Some("lua"@) }
                            else { None }
                        },
                    }
                },
            }
        },
    }
}

fn skip_ws_from(s: &[char], from: usize) -> (r: usize)
    requires
        from <= s@.len(),
    ensures
        from <= r <= s@.len(),
        r - from == lead_while(s@.skip(from as int), ws_pred()),
{
    let mut i: usize = from;
    while i < s.len() && is_unicode_ws_exec(s[i])
        invariant
            from <= i <= s@.len(),
            forall|j: int| from <= j < i ==> is_unicode_ws(#[trigger] s@[j]),
        decreases s.len() - i,
    {
        i = i + 1;
    }
    proof {
        let t = s@.skip(from as int);
        assert forall|j: int| 0 <= j < i - from implies (ws_pred())(#[trigger] t[j]) by {
            assert(t[j] == s@[from + j]);
        }
        if i < s@.len() {
            assert(t[i - from] == s@[i as int]);
        }
        lemma_lead_while(t, ws_pred(), (i - from) as nat);
    }
    i
}

fn word_end_from(s: &[char], from: usize) -> (r: usize)
    requires
        from <= s@.len(),
    ensures
        from <= r <= s@.len(),
        r - from == lead_while(s@.skip(from as int), word_pred()),
{
    let mut i: usize = from;
    while i < s.len() && !is_unicode_ws_exec(s[i])
        invariant
            from <= i <= s@.len(),
            forall|j: int| from <= j < i ==> !is_unicode_ws(#[trigger] s@[j]),
        decreases s.len() - i,
    {
        i = i + 1;
    }
    proof {
        let t = s@.skip(from as int);
        assert forall|j: int| 0 <= j < i - from implies (word_pred())(#[trigger] t[j]) by {
            assert(t[j] == s@[from + j]);
        }
        if i < s@.len() {
            assert(t[i - from] == s@[i as int]);
        }
        lemma_lead_while(t, word_pred(), (i - from) as nat);
    }
    i
}

/// The word starting at or after `from` (skipping whitespace), as the
/// range it occupies, matching `first_word` of the text from `from` on.
fn next_word(s: &[char], from: usize) -> (r: Option<(usize, usize)>)
    requires
        from <= s@.len(),
    ensures
        match r {
            None => first_word(s@.skip(from as int)) is None,
            Some((a, b)) => from <= a < b <= s@.len()
                && first_word(s@.skip(from as int)) == Some((s@.subrange(a as int, b as int), s@.skip(b as int))),
        },
{
    let a = skip_ws_from(s, from);
    proof {
        assert(s@.skip(from as int).skip((a - from) as int) =~= s@.skip(a as int));
    }
    if a == s.len() {
        return None;
    }
    let b = word_end_from(s, a);
    proof {
        let t = s@.skip(a as int);
        assert(t.subrange(0, (b - a) as int) =~= s@.subrange(a as int, b as int));
        assert(t.skip((b - a) as int) =~= s@.skip(b as int));
        assert(b > a) by {
            assert(t[0] == s@[a as int]);
            assert(lead_while(s@.skip(from as int), ws_pred()) == a - from);
            if a < s@.len() {
                let u = s@.skip(from as int);
                lemma_lead_stops(u, ws_pred());
                assert(u[(a - from) as int] == s@[a as int]);
            }
        }
    }
    Some((a, b))
}

proof fn lemma_lead_stops(s: Seq<char>, p: spec_fn(char) -> bool)
    ensures
        lead_while(s, p) <= s.len(),
        lead_while(s, p) < s.len() ==> !p(s[lead_while(s, p) as int]),
    decreases s.len(),
{
    if s.len() > 0 && p(s[0]) {
        lemma_lead_stops(s.drop_first(), p);
        if lead_while(s, p) < s.len() {
            assert(s.drop_first()[lead_while(s.drop_first(), p) as int] == s[lead_while(s, p) as int]);
        }
    }
}

/// `s[from..to]`'s last `/`-separated piece, as a range.
fn last_piece(s: &[char], from: usize, to: usize) -> (r: usize)
    requires
        from <= to <= s@.len(),
    ensures
        from <= r <= to,
        s@.subrange(r as int, to as int) == after_last_slash(s@.subrange(from as int, to as int)),
{
    let mut i: usize = to;
    while i > from && s[i - 1] != '/'
        invariant
            from <= i <= to,
            to <= s@.len(),
            forall|j: int| i <= j < to ==> #[trigger] s@[j] != '/',
        decreases i,
    {
        i = i - 1;
    }
    proof {
        let w = s@.subrange(from as int, to as int);
        assert forall|j: int| w.len() - (to - i) <= j < w.len() implies (not_slash_pred())(#[trigger] w[j]) by {
            assert(w[j] == s@[from + j]);
        }
        if i > from {
            assert(w[w.len() - (to - i) - 1] == s@[i - 1]);
        }
        lemma_trail_while(w, not_slash_pred(), (to - i) as nat);
        assert(w.skip(w.len() - (to - i)) =~= s@.subrange(i as int, to as int));
    }
    i
}

/// The language a `#!` first line names, as `spec_language_for_shebang`
/// states.
#[verifier::spinoff_prover]
#[verifier::rlimit(50)]
pub fn language_for_shebang(text: &str) -> (r: Option<&'static str>)
    ensures
        match r {
            Some(l) => spec_language_for_shebang(text@) == Some(l@),
            None => spec_language_for_shebang(text@) is None,
        },
{
    let t = chars_of(text);
    if t.len() == 0 {
        return None;
    }
    let mut e: usize = 0;
    while e < t.len() && t[e] != '\n'
        invariant
            e <= t@.len(),
            forall|j: int| 0 <= j < e ==> #[trigger] t@[j] != '\n',
        decreases t.len() - e,
    {
        e = e + 1;
    }
    proof {
        lemma_lead_while(t@, not_nl_pred(), e as nat);
    }
    let end: usize = if e > 0 && t[e - 1] == '\r' { e - 1 } else { e };
    let ghost line = t@.subrange(0, end as int);
    proof {
        assert(first_line(text@) == Some(line));
    }
    if !(end >= 2 && t[0] == '#' && t[1] == '!') {
        return None;
    }
    let line_v = slice_chars(t.as_slice(), 0, end);
    proof {
        assert(line_v@ == line);
        assert(line.skip(2) =~= line_v@.skip(2));
    }
    let (a1, b1) = match next_word(line_v.as_slice(), 2) {
        None => {
            return None;
        },
        Some(w) => w,
    };
    let s1 = last_piece(line_v.as_slice(), a1, b1);
    let interp_range: (usize, usize) = if chars_is(slice_chars(line_v.as_slice(), s1, b1).as_slice(), "env") {
        match next_word(line_v.as_slice(), b1) {
            None => {
                return None;
            },
            Some((a2, b2)) => {
                let s2 = last_piece(line_v.as_slice(), a2, b2);
                (s2, b2)
            },
        }
    } else {
        (s1, b1)
    };
    let (ia, ib) = interp_range;
    let mut k: usize = ib;
    while k > ia && ((line_v[k - 1] >= '0' && line_v[k - 1] <= '9') || line_v[k - 1] == '.')
        invariant
            ia <= k <= ib,
            ib <= line_v@.len(),
            forall|j: int| k <= j < ib ==> (digit_or_dot_pred())(#[trigger] line_v@[j]),
        decreases k,
    {
        k = k - 1;
    }
    let ghost interp = line_v@.subrange(ia as int, ib as int);
    proof {
        assert forall|j: int| interp.len() - (ib - k) <= j < interp.len() implies (digit_or_dot_pred())(#[trigger] interp[j]) by {
            assert(interp[j] == line_v@[ia + j]);
        }
        if k > ia {
            assert(interp[interp.len() - (ib - k) - 1] == line_v@[k - 1]);
        }
        lemma_trail_while(interp, digit_or_dot_pred(), (ib - k) as nat);
        assert(interp.subrange(0, interp.len() - (ib - k)) =~= line_v@.subrange(ia as int, k as int));
    }
    let base = slice_chars(line_v.as_slice(), ia, k);
    let b = base.as_slice();
    if chars_is(b, "python") { Some("python") }
    else if chars_is(b, "sh") || chars_is(b, "bash") || chars_is(b, "dash") || chars_is(b, "ksh") || chars_is(b, "zsh") { Some("bash") }
    else if chars_is(b, "node") || chars_is(b, "nodejs") { Some("javascript") }
    else if chars_is(b, "ruby") { Some("ruby") }
    else if chars_is(b, "lua") { Some("lua") }
    else { None }
}


/// `Path::extension` of a file name: the text after its last `.`, unless
/// that dot starts the name.
pub open spec fn spec_extension(name: Seq<char>) -> Option<Seq<char>> {
    match crate::fs::last_dot(name) {
        None => None,
        Some(i) => if i == 0 { None } else { Some(name.skip(i + 1)) },
    }
}

/// The language for a file, trying (in order of confidence) a well-known
/// file name, then the extension, then a `#!` line.
pub open spec fn spec_language_for(path: Seq<char>, text: Seq<char>) -> Option<Seq<char>> {
    let by_name = match path_file_name(path) {
        Some(n) => match spec_language_for_filename(n) {
            Some(l) => Some(l),
            None => match spec_extension(n) {
                Some(e) => spec_language_for_extension(e),
                None => None,
            },
        },
        None => None,
    };
    match by_name {
        Some(l) => Some(l),
        None => spec_language_for_shebang(text),
    }
}

/// Resolves a file's path and text to a registered language name, as
/// `spec_language_for` states.
pub fn language_for(path: &str, text: &str) -> (r: Option<&'static str>)
    ensures
        match r {
            Some(l) => spec_language_for(path@, text@) == Some(l@),
            None => spec_language_for(path@, text@) is None,
        },
{
    match crate::fs::file_name_of(path) {
        Some(n) => {
            match language_for_filename(n.as_str()) {
                Some(l) => {
                    return Some(l);
                },
                None => {},
            }
            let nc = chars_of(n.as_str());
            match crate::fs::find_last_dot(nc.as_slice()) {
                Some(i) => {
                    if i > 0 {
                        let len = nc.len();
                        let e = slice_chars(nc.as_slice(), i + 1, len);
                        proof {
                            assert(e@ =~= nc@.skip(i + 1));
                        }
                        let es = string_of(e.as_slice());
                        match language_for_extension(es.as_str()) {
                            Some(l) => {
                                return Some(l);
                            },
                            None => {},
                        }
                    }
                },
                None => {},
            }
        },
        None => {},
    }
    language_for_shebang(text)
}


/// Every language name a configuration is built for, in order.
pub open spec fn spec_language_names() -> Seq<Seq<char>> {
    seq!["rust"@, "toml"@, "python"@, "javascript"@, "typescript"@, "tsx"@, "json"@, "yaml"@, "c"@, "cpp"@, "go"@, "html"@, "css"@, "bash"@, "java"@, "lua"@, "ruby"@, "markdown"@, "markdown_inline"@, "dockerfile"@]
}

/// The highlight configurations, one per language that built, in the
/// order they were built: a `Vec`, searched by the language's name,
/// standing for a `HashMap` from name to configuration.
pub struct Registry {
    configs: Vec<Configured>,
    /// Each configuration that was tried, in order: the language's name and
    /// the highlight and injection queries it was tried with.
    tried: Ghost<Seq<(Seq<char>, Seq<char>, Seq<char>)>>,
}

/// The names of the `tried` configurations that built, in order.
pub open spec fn built_names(tried: Seq<(Seq<char>, Seq<char>, Seq<char>)>) -> Seq<Seq<char>>
    decreases tried.len(),
{
    if tried.len() == 0 {
        Seq::empty()
    } else {
        let t = tried.last();
        let rest = built_names(tried.drop_last());
        if spec_config_builds(t.0, t.1, t.2) { rest.push(t.0) } else { rest }
    }
}

/// The `tried` configurations that built, in order, each configured with
/// the recognized highlight names.
pub open spec fn built_models(tried: Seq<(Seq<char>, Seq<char>, Seq<char>)>) -> Seq<ConfigModel>
    decreases tried.len(),
{
    if tried.len() == 0 {
        Seq::empty()
    } else {
        let t = tried.last();
        let rest = built_models(tried.drop_last());
        if spec_config_builds(t.0, t.1, t.2) { rest.push((t.0, t.1, t.2, spec_recognized_names())) } else { rest }
    }
}

/// The language names of `configs`, in order.
pub open spec fn config_names(configs: Seq<ConfigModel>) -> Seq<Seq<char>> {
    configs.map_values(|m: ConfigModel| m.0)
}

/// The configurations the registry tries to build, in order: each
/// supported language with its grammar crate's queries, except JSON and
/// markdown, which use this browser's own highlight queries, and the
/// languages whose injections this browser leaves out.
pub open spec fn spec_registry_queries() -> Seq<(Seq<char>, Seq<char>, Seq<char>)> {
    seq![
        ("rust"@, spec_bundled_highlights("rust"@), spec_bundled_injections("rust"@)),
        ("toml"@, spec_bundled_highlights("toml"@), ""@),
        ("python"@, spec_bundled_highlights("python"@), ""@),
        ("javascript"@, spec_bundled_highlights("javascript"@), spec_bundled_injections("javascript"@)),
        ("typescript"@, spec_bundled_highlights("typescript"@), ""@),
        ("tsx"@, spec_bundled_highlights("tsx"@), ""@),
        ("json"@, JSON_HIGHLIGHTS_QUERY@, ""@),
        ("yaml"@, spec_bundled_highlights("yaml"@), ""@),
        ("c"@, spec_bundled_highlights("c"@), ""@),
        ("cpp"@, spec_bundled_highlights("cpp"@), ""@),
        ("go"@, spec_bundled_highlights("go"@), ""@),
        ("html"@, spec_bundled_highlights("html"@), spec_bundled_injections("html"@)),
        ("css"@, spec_bundled_highlights("css"@), ""@),
        ("bash"@, spec_bundled_highlights("bash"@), ""@),
        ("java"@, spec_bundled_highlights("java"@), ""@),
        ("lua"@, spec_bundled_highlights("lua"@), spec_bundled_injections("lua"@)),
        ("ruby"@, spec_bundled_highlights("ruby"@), ""@),
        ("markdown"@, MARKDOWN_BLOCK_HIGHLIGHTS_QUERY@, MARKDOWN_BLOCK_INJECTIONS_QUERY@),
        ("markdown_inline"@, MARKDOWN_INLINE_HIGHLIGHTS_QUERY@, spec_bundled_injections("markdown_inline"@)),
        ("dockerfile"@, spec_bundled_highlights("dockerfile"@), spec_bundled_injections("dockerfile"@))
    ]
}

impl Registry {
    /// What each registered configuration was built and configured from.
    pub closed spec fn spec_models(&self) -> Seq<ConfigModel> {
        self.configs@.map_values(|c: Configured| c.model())
    }

    pub open spec fn spec_names(&self) -> Seq<Seq<char>> {
        config_names(self.spec_models())
    }

    /// Each configuration that was tried: the language's name and the two
    /// queries.
    pub closed spec fn spec_tried(&self) -> Seq<(Seq<char>, Seq<char>, Seq<char>)> {
        self.tried@
    }

    /// The number of registered configurations.
    pub closed spec fn spec_len(&self) -> nat {
        self.configs@.len()
    }

    pub proof fn lemma_len(&self)
        ensures
            self.spec_len() == self.spec_names().len(),
    {
    }

    /// The configuration registered under `name`, for the highlighter's
    /// injections.
    pub fn get(&self, name: &str) -> (r: Option<&tree_sitter_highlight::HighlightConfiguration>)
        ensures
            r is Some <==> self.spec_names().contains(name@),
    {
        match self.index_of(name) {
            Some(i) => Some(self.configs[i].config()),
            None => {
                proof {
                    if self.spec_names().contains(name@) {
                        let j = choose|j: int| 0 <= j < self.spec_names().len() && self.spec_names()[j] == name@;
                        lemma_first_index_exists(self.spec_names(), name@, j);
                    }
                }
                None
            },
        }
    }

    /// The position of the first configuration registered under `name`,
    /// if any.
    pub fn index_of(&self, name: &str) -> (r: Option<usize>)
        ensures
            r matches Some(i) ==> i < self.spec_names().len(),
            (match r { Some(i) => Some(i as int), None => None }) == spec_first_index(self.spec_names(), name@),
    {
        let n = chars_of(name);
        let ghost names = self.spec_names();
        let mut i: usize = 0;
        while i < self.configs.len()
            invariant
                i <= self.configs@.len(),
                n@ == name@,
                names == self.spec_names(),
                names.len() == self.configs@.len(),
                forall|j: int| 0 <= j < i ==> names[j] != name@,
            decreases self.configs.len() - i,
        {
            let c = chars_of(self.configs[i].lang());
            proof {
                assert(names[i as int] == self.configs@[i as int].model().0);
            }
            if chars_eq(c.as_slice(), n.as_slice()) {
                proof {
                    lemma_first_index_at(names, name@, i as int);
                }
                return Some(i);
            }
            i = i + 1;
        }
        proof {
            lemma_first_index_none(names, name@);
        }
        None
    }
}

/// The position of the first `x` in `names`, if `x` occurs.
pub open spec fn spec_first_index(names: Seq<Seq<char>>, x: Seq<char>) -> Option<int> {
    if exists|i: int| 0 <= i < names.len() && names[i] == x && forall|j: int| 0 <= j < i ==> names[j] != x {
        Some(choose|i: int| 0 <= i < names.len() && names[i] == x && forall|j: int| 0 <= j < i ==> names[j] != x)
    } else {
        None
    }
}

proof fn lemma_first_index_at(names: Seq<Seq<char>>, x: Seq<char>, i: int)
    requires
        0 <= i < names.len(),
        names[i] == x,
        forall|j: int| 0 <= j < i ==> names[j] != x,
    ensures
        spec_first_index(names, x) == Some(i),
{
    let k = choose|k: int| 0 <= k < names.len() && names[k] == x && forall|j: int| 0 <= j < k ==> names[j] != x;
    assert(k == i) by {
        if k < i {
            assert(names[k] != x);
        } else if i < k {
            assert(names[i] != x);
        }
    }
}

proof fn lemma_first_index_none(names: Seq<Seq<char>>, x: Seq<char>)
    requires
        forall|j: int| 0 <= j < names.len() ==> names[j] != x,
    ensures
        spec_first_index(names, x) is None,
{
}

proof fn lemma_first_index_exists(names: Seq<Seq<char>>, x: Seq<char>, i: int)
    requires
        0 <= i < names.len(),
        names[i] == x,
    ensures
        spec_first_index(names, x) is Some,
    decreases i,
{
    if exists|j: int| 0 <= j < i && names[j] == x {
        let j = choose|j: int| 0 <= j < i && names[j] == x;
        lemma_first_index_exists(names, x, j);
    } else {
        lemma_first_index_at(names, x, i);
    }
}

/// Every name in `names` is one of the supported languages.
pub open spec fn names_ok(names: Seq<Seq<char>>) -> bool {
    forall|i: int| 0 <= i < names.len() ==> spec_language_names().contains(#[trigger] names[i])
}

fn add_config(configs: &mut Vec<Configured>, grammar: Grammar, highlights: &'static str, injections: &'static str,
    recognized: &Vec<&'static str>, Ghost(tried): Ghost<Seq<(Seq<char>, Seq<char>, Seq<char>)>>)
    requires
        recognized@.map_values(|s: &str| s@) == spec_recognized_names(),
        spec_language_names().contains(grammar.spec_name()),
        old(configs)@.map_values(|c: Configured| c.model()) == built_models(tried),
        config_names(built_models(tried)) == built_names(tried),
        names_ok(built_names(tried)),
    ensures
        final(configs)@.map_values(|c: Configured| c.model()) == built_models(tried.push((grammar.spec_name(), highlights@, injections@))),
        config_names(built_models(tried.push((grammar.spec_name(), highlights@, injections@))))
            == built_names(tried.push((grammar.spec_name(), highlights@, injections@))),
        names_ok(built_names(tried.push((grammar.spec_name(), highlights@, injections@)))),
{
    let ghost t = (grammar.spec_name(), highlights@, injections@);
    let ghost m = (t.0, t.1, t.2, spec_recognized_names());
    proof {
        assert(tried.push(t).drop_last() =~= tried);
        assert(tried.push(t).last() == t);
        assert(config_names(built_models(tried).push(m)) =~= config_names(built_models(tried)).push(t.0));
        if spec_config_builds(t.0, t.1, t.2) {
            assert forall|i: int| 0 <= i < built_names(tried).push(t.0).len()
                implies spec_language_names().contains(#[trigger] built_names(tried).push(t.0)[i]) by {
                if i < built_names(tried).len() {
                    assert(built_names(tried).push(t.0)[i] == built_names(tried)[i]);
                }
            }
        }
    }
    match new_config(grammar, highlights, injections) {
        Some(b) => {
            let c = configure(b, recognized);
            let ghost before = configs@;
            configs.push(c);
            proof {
                assert(configs@.map_values(|c: Configured| c.model()) =~= before.map_values(|c: Configured| c.model()).push(m));
            }
        },
        None => {},
    }
}

/// Tries to build a highlight configuration for every supported language,
/// in order, with the queries `spec_registry_queries` lists, and
/// configures each that builds with the recognized highlight names.
/// Exactly the languages whose configuration builds are registered, in
/// that order: a grammar whose queries fail to compile is left out, so its
/// files render unhighlighted.
pub fn build_registry() -> (r: Registry)
    ensures
        r.spec_tried() == spec_registry_queries(),
        r.spec_tried().map_values(|t: (Seq<char>, Seq<char>, Seq<char>)| t.0) == spec_language_names(),
        r.spec_models() == built_models(r.spec_tried()),
        r.spec_names() == built_names(r.spec_tried()),
        forall|i: int| 0 <= i < r.spec_models().len() ==> (#[trigger] r.spec_models()[i]).3 == spec_recognized_names(),
        names_ok(r.spec_names()),
{
    let recognized = recognized_names();
    let mut configs: Vec<Configured> = Vec::new();
    let ghost langs = spec_language_names();
    let ghost mut tried: Seq<(Seq<char>, Seq<char>, Seq<char>)> = Seq::empty();
    proof {
        assert(configs@.map_values(|c: Configured| c.model()) =~= built_models(tried));
        assert(config_names(built_models(tried)) =~= built_names(tried));
    }
    let g = grammar_rust();
    let (h, i) = (g.highlights(), g.injections());
    let ghost t = (g.spec_name(), h@, i@);
    proof { assert(langs[0] == t.0); }
    add_config(&mut configs, g, h, i, &recognized, Ghost(tried));
    proof { tried = tried.push(t); assert(tried[0] == t); }
    let g = grammar_toml();
    let (h, i) = (g.highlights(), g.injections());
    let ghost t = (g.spec_name(), h@, i@);
    proof { assert(langs[1] == t.0); }
    add_config(&mut configs, g, h, i, &recognized, Ghost(tried));
    proof { tried = tried.push(t); assert(tried[1] == t); }
    let g = grammar_python();
    let (h, i) = (g.highlights(), g.injections());
    let ghost t = (g.spec_name(), h@, i@);
    proof { assert(langs[2] == t.0); }
    add_config(&mut configs, g, h, i, &recognized, Ghost(tried));
    proof { tried = tried.push(t); assert(tried[2] == t); }
    let g = grammar_javascript();
    let (h, i) = (g.highlights(), g.injections());
    let ghost t = (g.spec_name(), h@, i@);
    proof { assert(langs[3] == t.0); }
    add_config(&mut configs, g, h, i, &recognized, Ghost(tried));
    proof { tried = tried.push(t); assert(tried[3] == t); }
    let g = grammar_typescript();
    let (h, i) = (g.highlights(), g.injections());
    let ghost t = (g.spec_name(), h@, i@);
    proof { assert(langs[4] == t.0); }
    add_config(&mut configs, g, h, i, &recognized, Ghost(tried));
    proof { tried = tried.push(t); assert(tried[4] == t); }
    let g = grammar_tsx();
    let (h, i) = (g.highlights(), g.injections());
    let ghost t = (g.spec_name(), h@, i@);
    proof { assert(langs[5] == t.0); }
    add_config(&mut configs, g, h, i, &recognized, Ghost(tried));
    proof { tried = tried.push(t); assert(tried[5] == t); }
    let g = grammar_json();
    let (h, i) = (JSON_HIGHLIGHTS_QUERY, "");
    let ghost t = (g.spec_name(), h@, i@);
    proof { assert(langs[6] == t.0); }
    add_config(&mut configs, g, h, i, &recognized, Ghost(tried));
    proof { tried = tried.push(t); assert(tried[6] == t); }
    let g = grammar_yaml();
    let (h, i) = (g.highlights(), g.injections());
    let ghost t = (g.spec_name(), h@, i@);
    proof { assert(langs[7] == t.0); }
    add_config(&mut configs, g, h, i, &recognized, Ghost(tried));
    proof { tried = tried.push(t); assert(tried[7] == t); }
    let g = grammar_c();
    let (h, i) = (g.highlights(), g.injections());
    let ghost t = (g.spec_name(), h@, i@);
    proof { assert(langs[8] == t.0); }
    add_config(&mut configs, g, h, i, &recognized, Ghost(tried));
    proof { tried = tried.push(t); assert(tried[8] == t); }
    let g = grammar_cpp();
    let (h, i) = (g.highlights(), g.injections());
    let ghost t = (g.spec_name(), h@, i@);
    proof { assert(langs[9] == t.0); }
    add_config(&mut configs, g, h, i, &recognized, Ghost(tried));
    proof { tried = tried.push(t); assert(tried[9] == t); }
    let g = grammar_go();
    let (h, i) = (g.highlights(), g.injections());
    let ghost t = (g.spec_name(), h@, i@);
    proof { assert(langs[10] == t.0); }
    add_config(&mut configs, g, h, i, &recognized, Ghost(tried));
    proof { tried = tried.push(t); assert(tried[10] == t); }
    let g = grammar_html();
    let (h, i) = (g.highlights(), g.injections());
    let ghost t = (g.spec_name(), h@, i@);
    proof { assert(langs[11] == t.0); }
    add_config(&mut configs, g, h, i, &recognized, Ghost(tried));
    proof { tried = tried.push(t); assert(tried[11] == t); }
    let g = grammar_css();
    let (h, i) = (g.highlights(), g.injections());
    let ghost t = (g.spec_name(), h@, i@);
    proof { assert(langs[12] == t.0); }
    add_config(&mut configs, g, h, i, &recognized, Ghost(tried));
    proof { tried = tried.push(t); assert(tried[12] == t); }
    let g = grammar_bash();
    let (h, i) = (g.highlights(), g.injections());
    let ghost t = (g.spec_name(), h@, i@);
    proof { assert(langs[13] == t.0); }
    add_config(&mut configs, g, h, i, &recognized, Ghost(tried));
    proof { tried = tried.push(t); assert(tried[13] == t); }
    let g = grammar_java();
    let (h, i) = (g.highlights(), g.injections());
    let ghost t = (g.spec_name(), h@, i@);
    proof { assert(langs[14] == t.0); }
    add_config(&mut configs, g, h, i, &recognized, Ghost(tried));
    proof { tried = tried.push(t); assert(tried[14] == t); }
    let g = grammar_lua();
    let (h, i) = (g.highlights(), g.injections());
    let ghost t = (g.spec_name(), h@, i@);
    proof { assert(langs[15] == t.0); }
    add_config(&mut configs, g, h, i, &recognized, Ghost(tried));
    proof { tried = tried.push(t); assert(tried[15] == t); }
    let g = grammar_ruby();
    let (h, i) = (g.highlights(), g.injections());
    let ghost t = (g.spec_name(), h@, i@);
    proof { assert(langs[16] == t.0); }
    add_config(&mut configs, g, h, i, &recognized, Ghost(tried));
    proof { tried = tried.push(t); assert(tried[16] == t); }
    let g = grammar_markdown();
    let (h, i) = (MARKDOWN_BLOCK_HIGHLIGHTS_QUERY, MARKDOWN_BLOCK_INJECTIONS_QUERY);
    let ghost t = (g.spec_name(), h@, i@);
    proof { assert(langs[17] == t.0); }
    add_config(&mut configs, g, h, i, &recognized, Ghost(tried));
    proof { tried = tried.push(t); assert(tried[17] == t); }
    let g = grammar_markdown_inline();
    let (h, i) = (MARKDOWN_INLINE_HIGHLIGHTS_QUERY, g.injections());
    let ghost t = (g.spec_name(), h@, i@);
    proof { assert(langs[18] == t.0); }
    add_config(&mut configs, g, h, i, &recognized, Ghost(tried));
    proof { tried = tried.push(t); assert(tried[18] == t); }
    let g = grammar_dockerfile();
    let (h, i) = (g.highlights(), g.injections());
    let ghost t = (g.spec_name(), h@, i@);
    proof { assert(langs[19] == t.0); }
    add_config(&mut configs, g, h, i, &recognized, Ghost(tried));
    proof { tried = tried.push(t); assert(tried[19] == t); }
    proof {
        assert(tried =~= spec_registry_queries());
        assert(tried.map_values(|t: (Seq<char>, Seq<char>, Seq<char>)| t.0) =~= langs);
        lemma_built_models_recognized(tried);
    }
    Registry { configs, tried: Ghost(tried) }
}

proof fn lemma_built_models_recognized(tried: Seq<(Seq<char>, Seq<char>, Seq<char>)>)
    ensures
        forall|i: int| 0 <= i < built_models(tried).len() ==> (#[trigger] built_models(tried)[i]).3 == spec_recognized_names(),
    decreases tried.len(),
{
    if tried.len() > 0 {
        let rest = built_models(tried.drop_last());
        lemma_built_models_recognized(tried.drop_last());
        let t = tried.last();
        if spec_config_builds(t.0, t.1, t.2) {
            let m = (t.0, t.1, t.2, spec_recognized_names());
            assert forall|i: int| 0 <= i < rest.push(m).len() implies (#[trigger] rest.push(m)[i]).3 == spec_recognized_names() by {
                if i < rest.len() {
                    assert(rest.push(m)[i] == rest[i]);
                }
            }
        }
    }
}

proof fn lemma_built_all(tried: Seq<(Seq<char>, Seq<char>, Seq<char>)>)
    requires
        forall|i: int| 0 <= i < tried.len() ==> spec_config_builds((#[trigger] tried[i]).0, tried[i].1, tried[i].2),
    ensures
        built_names(tried) == tried.map_values(|t: (Seq<char>, Seq<char>, Seq<char>)| t.0),
    decreases tried.len(),
{
    if tried.len() > 0 {
        let d = tried.drop_last();
        assert forall|i: int| 0 <= i < d.len() implies spec_config_builds((#[trigger] d[i]).0, d[i].1, d[i].2) by {
            assert(d[i] == tried[i]);
        }
        lemma_built_all(d);
        assert(tried[tried.len() - 1] == tried.last());
        assert(d.map_values(|t: (Seq<char>, Seq<char>, Seq<char>)| t.0).push(tried.last().0)
            =~= tried.map_values(|t: (Seq<char>, Seq<char>, Seq<char>)| t.0));
    }
}

/// Every language the extension, file-name and `#!` rules pick is one of
/// the supported languages.
proof fn lemma_language_for_supported(path: Seq<char>, text: Seq<char>)
    ensures
        spec_language_for(path, text) matches Some(l) ==> spec_language_names().contains(l),
{
    let names = spec_language_names();
    assert(names[0] == "rust"@ && names[1] == "toml"@ && names[2] == "python"@ && names[3] == "javascript"@);
    assert(names[4] == "typescript"@ && names[5] == "tsx"@ && names[6] == "json"@ && names[7] == "yaml"@);
    assert(names[8] == "c"@ && names[9] == "cpp"@ && names[10] == "go"@ && names[11] == "html"@);
    assert(names[12] == "css"@ && names[13] == "bash"@ && names[14] == "java"@ && names[15] == "lua"@);
    assert(names[16] == "ruby"@ && names[17] == "markdown"@ && names[19] == "dockerfile"@);
}

/// When every supported language's configuration builds, every supported
/// language is registered, in order, and so every language a file is
/// recognized as has a configuration to highlight it with.
pub proof fn lemma_every_language_registered(r: &Registry, path: Seq<char>, text: Seq<char>)
    requires
        r.spec_tried().map_values(|t: (Seq<char>, Seq<char>, Seq<char>)| t.0) == spec_language_names(),
        r.spec_names() == built_names(r.spec_tried()),
        forall|i: int| 0 <= i < r.spec_tried().len()
            ==> spec_config_builds((#[trigger] r.spec_tried()[i]).0, r.spec_tried()[i].1, r.spec_tried()[i].2),
    ensures
        r.spec_names() == spec_language_names(),
        spec_language_for(path, text) matches Some(l) ==> r.spec_names().contains(l),
{
    lemma_built_all(r.spec_tried());
    lemma_language_for_supported(path, text);
}

/// One highlighter event: a run of source text (as UTF-8 byte offsets
/// into the highlighted text), the start of a capture (by its position
/// among the recognized names), or the end of the innermost capture.
#[derive(Clone, Copy, Debug, PartialEq, Eq, Structural)]
pub enum HlEvent {
    Source { start: usize, end: usize },
    Start(usize),
    End,
}

/// What the tree-sitter highlighter reports for `text` highlighted with
/// the configuration at position `idx` of `configs`, each configuration
/// given by its grammar's name, the queries it was built from and the
/// highlight names it was configured with, and languages injected into the
/// text resolved by name among `configs`: its events in order, or `None`
/// when it fails.
pub uninterp spec fn spec_highlight_events(configs: Seq<ConfigModel>, idx: int, text: Seq<char>) -> Option<Seq<HlEvent>>;

/// `Highlighter::highlight` over `text` with the configuration registered
/// at `idx`, injections resolved through the registry, every event
/// collected; `None` if the highlighter or any event fails. The events are
/// named by `spec_highlight_events` over what the registry's
/// configurations were built and configured from: nothing more about them
/// is stated.
#[verifier::external_body]
fn run_highlighter(reg: &Registry, idx: usize, text: &str) -> (r: Option<Vec<HlEvent>>)
    requires
        idx < reg.spec_len(),
    ensures
        match r {
            Some(v) => spec_highlight_events(reg.spec_models(), idx as int, text@) == Some(v@),
            None => spec_highlight_events(reg.spec_models(), idx as int, text@) is None,
        },
{
    let mut highlighter = tree_sitter_highlight::Highlighter::new();
    let events = highlighter.highlight(reg.configs[idx].config(), text.as_bytes(), None, None, |name| reg.get(name)).ok()?;
    let mut out = Vec::new();
    for event in events {
        out.push(match event.ok()? {
            tree_sitter_highlight::HighlightEvent::Source { start, end } => HlEvent::Source { start, end },
            tree_sitter_highlight::HighlightEvent::HighlightStart(h) => HlEvent::Start(h.0),
            tree_sitter_highlight::HighlightEvent::HighlightEnd => HlEvent::End,
        });
    }
    Some(out)
}

/// The number of bytes UTF-8 spends on `c`.
pub open spec fn utf8_len(c: char) -> nat {
    if (c as u32) < 0x80 { 1 } else if (c as u32) < 0x800 { 2 } else if (c as u32) < 0x10000 { 3 } else { 4 }
}

/// The UTF-8 length of the first `i` characters of `s`.
pub open spec fn byte_len(s: Seq<char>, i: nat) -> nat
    decreases i,
{
    if i == 0 || s.len() == 0 { 0 } else { utf8_len(s[0]) + byte_len(s.drop_first(), (i - 1) as nat) }
}

/// The character position at UTF-8 byte offset `byte` of `s`, if that
/// offset falls on a character boundary.
pub open spec fn char_pos(s: Seq<char>, byte: int) -> Option<int>
    decreases s.len(),
{
    if byte == 0 {
        Some(0)
    } else if s.len() == 0 || byte < utf8_len(s[0]) {
        None
    } else {
        match char_pos(s.drop_first(), byte - utf8_len(s[0])) {
            Some(k) => Some(k + 1),
            None => None,
        }
    }
}

/// The characters between two byte offsets of `text`, when both fall on
/// character boundaries in order.
pub open spec fn region(text: Seq<char>, start: int, end: int) -> Option<Seq<char>> {
    match (char_pos(text, start), char_pos(text, end)) {
        (Some(a), Some(b)) => if a <= b { Some(text.subrange(a, b)) } else { None },
        _ => None,
    }
}

proof fn lemma_byte_len_pos(s: Seq<char>, i: nat)
    requires
        1 <= i <= s.len(),
    ensures
        byte_len(s, i) >= utf8_len(s[0]) >= 1,
    decreases i,
{
}

proof fn lemma_char_pos_nonneg(s: Seq<char>, x: int)
    ensures
        char_pos(s, x) matches Some(k) ==> 0 <= k <= s.len(),
    decreases s.len(),
{
    if x != 0 && s.len() > 0 && x >= utf8_len(s[0]) {
        lemma_char_pos_nonneg(s.drop_first(), x - utf8_len(s[0]));
    }
}

proof fn lemma_char_pos(s: Seq<char>, x: int, i: int)
    requires
        0 <= i <= s.len(),
        x >= 0,
    ensures
        char_pos(s, x) == Some(i) <==> x == byte_len(s, i as nat),
    decreases s.len(),
{
    lemma_char_pos_nonneg(s, x);
    if i > 0 {
        lemma_byte_len_pos(s, i as nat);
        assert(byte_len(s, i as nat) == utf8_len(s[0]) + byte_len(s.drop_first(), (i - 1) as nat));
    } else {
        assert(byte_len(s, 0) == 0);
    }
    if x == 0 {
    } else if s.len() == 0 {
    } else if x < utf8_len(s[0]) {
    } else {
        lemma_char_pos_nonneg(s.drop_first(), x - utf8_len(s[0]));
        if i > 0 {
            lemma_char_pos(s.drop_first(), x - utf8_len(s[0]), i - 1);
        }
    }
}

proof fn lemma_byte_len_step(s: Seq<char>, i: nat)
    requires
        i < s.len(),
    ensures
        byte_len(s, i + 1) == byte_len(s, i) + utf8_len(s[i as int]),
    decreases i,
{
    assert(byte_len(s, i + 1) == utf8_len(s[0]) + byte_len(s.drop_first(), i));
    if i > 0 {
        lemma_byte_len_step(s.drop_first(), (i - 1) as nat);
        assert(s.drop_first()[(i - 1) as int] == s[i as int]);
        assert(byte_len(s, i) == utf8_len(s[0]) + byte_len(s.drop_first(), (i - 1) as nat));
    } else {
        assert(byte_len(s.drop_first(), 0) == 0);
        assert(byte_len(s, 0) == 0);
    }
}

proof fn lemma_byte_len_mono(s: Seq<char>, i: nat, j: nat)
    requires
        i < j <= s.len(),
    ensures
        byte_len(s, i) < byte_len(s, j),
    decreases j - i,
{
    lemma_byte_len_step(s, (j - 1) as nat);
    if i < j - 1 {
        lemma_byte_len_mono(s, i, (j - 1) as nat);
    }
}

fn utf8_len_exec(c: char) -> (n: u128)
    ensures
        n == utf8_len(c),
{
    let code: u32 = c as u32;
    if code < 0x80 { 1 } else if code < 0x800 { 2 } else if code < 0x10000 { 3 } else { 4 }
}

/// The UTF-8 offset of every character boundary of `s`.
fn byte_offsets(s: &[char]) -> (offs: Vec<u128>)
    ensures
        offs@.len() == s@.len() + 1,
        forall|i: int| 0 <= i <= s@.len() ==> offs@[i] == byte_len(s@, i as nat),
{
    let mut offs: Vec<u128> = Vec::new();
    offs.push(0);
    let mut total: u128 = 0;
    let mut i: usize = 0;
    while i < s.len()
        invariant
            i <= s@.len(),
            offs@.len() == i + 1,
            total == byte_len(s@, i as nat),
            total <= 4 * i,
            forall|k: int| 0 <= k <= i ==> offs@[k] == byte_len(s@, k as nat),
        decreases s.len() - i,
    {
        proof {
            lemma_byte_len_step(s@, i as nat);
        }
        total = total + utf8_len_exec(s[i]);
        offs.push(total);
        i = i + 1;
    }
    offs
}

/// The position of `x` in the strictly increasing `offs`, if present.
fn find_offset(offs: &Vec<u128>, x: u128) -> (r: Option<usize>)
    requires
        forall|i: int, j: int| 0 <= i < j < offs@.len() ==> offs@[i] < offs@[j],
    ensures
        r matches Some(i) ==> i < offs@.len() && offs@[i as int] == x,
        r is None ==> forall|i: int| 0 <= i < offs@.len() ==> offs@[i] != x,
{
    let mut lo: usize = 0;
    let mut hi: usize = offs.len();
    while lo < hi
        invariant
            lo <= hi <= offs@.len(),
            forall|i: int, j: int| 0 <= i < j < offs@.len() ==> offs@[i] < offs@[j],
            forall|i: int| 0 <= i < lo ==> offs@[i] < x,
            forall|i: int| hi <= i < offs@.len() ==> offs@[i] > x,
        decreases hi - lo,
    {
        let mid = lo + (hi - lo) / 2;
        if offs[mid] == x {
            return Some(mid);
        } else if offs[mid] < x {
            lo = mid + 1;
        } else {
            hi = mid;
        }
    }
    None
}

/// Where turning events into lines stands: the lines so far (never none),
/// the stack of open captures, and whether the next uncaptured text's
/// leading spaces are swallowed (right after a hidden heading marker).
pub struct HlState {
    pub lines: Seq<Seq<SpanView>>,
    pub stack: Seq<usize>,
    pub swallow: bool,
}

pub open spec fn hl_init() -> HlState {
    HlState { lines: seq![Seq::empty()], stack: Seq::empty(), swallow: false }
}

/// The innermost open capture's name.
pub open spec fn cur_name(st: HlState) -> Option<Seq<char>> {
    if st.stack.len() > 0 { Some(spec_recognized_names()[st.stack.last() as int]) } else { None }
}

/// The number of line breaks in `s`.
pub open spec fn count_nl(s: Seq<char>) -> nat
    decreases s.len(),
{
    if s.len() == 0 { 0 } else { count_nl(s.drop_last()) + if s.last() == '\n' { 1nat } else { 0nat } }
}

/// Every character of `s` is `#`.
pub open spec fn all_hash(s: Seq<char>) -> bool {
    forall|i: int| 0 <= i < s.len() ==> s[i] == '#'
}

pub open spec fn space_pred() -> spec_fn(char) -> bool {
    |c: char| c == ' '
}

/// `lines` with `pieces` (a region split at its line breaks) added: the
/// first piece continues the last line, each later one starts a new line;
/// an empty piece adds no span.
pub open spec fn add_pieces(lines: Seq<Seq<SpanView>>, pieces: Seq<Seq<char>>, style: Style) -> Seq<Seq<SpanView>>
    decreases pieces.len(),
{
    if pieces.len() == 0 {
        lines
    } else {
        let l2 = add_pieces(lines, pieces.drop_last(), style);
        let l3 = if pieces.len() > 1 { l2.push(Seq::empty()) } else { l2 };
        if pieces.last().len() > 0 {
            l3.update(l3.len() - 1, l3.last().push(SpanView { content: pieces.last(), style }))
        } else {
            l3
        }
    }
}

/// One run of source text. In hide-markers mode a run captured as
/// `punctuation.special` (a pure formatting mark) contributes only its
/// line breaks; an uncaptured run right after a hidden all-`#` marker
/// loses its leading spaces (the gap after a heading marker).
pub open spec fn source_step(st: HlState, region: Seq<char>, hide: bool) -> HlState {
    let name = cur_name(st);
    let hidden = hide && name == Some("punctuation.special"@);
    let r2 = if st.swallow && name is None { region.skip(lead_while(region, space_pred()) as int) } else { region };
    let sw = hidden && r2.len() > 0 && all_hash(r2);
    if hidden {
        HlState { lines: st.lines + Seq::new(count_nl(r2), |i: int| Seq::<SpanView>::empty()), stack: st.stack, swallow: sw }
    } else {
        let style = match name {
            Some(n) => match spec_style_for(n) { Some(s) => s, None => plain_style() },
            None => plain_style(),
        };
        HlState { lines: add_pieces(st.lines, split_char(r2, '\n'), style), stack: st.stack, swallow: sw }
    }
}

pub open spec fn hl_step(text: Seq<char>, st: HlState, ev: HlEvent, hide: bool) -> Option<HlState> {
    match ev {
        HlEvent::Start(h) => if h < spec_recognized_names().len() { Some(HlState { stack: st.stack.push(h), ..st }) } else { None },
        HlEvent::End => Some(HlState { stack: if st.stack.len() > 0 { st.stack.drop_last() } else { st.stack }, ..st }),
        HlEvent::Source { start, end } => match region(text, start as int, end as int) {
            Some(r) => Some(source_step(st, r, hide)),
            None => None,
        },
    }
}

pub open spec fn hl_fold(text: Seq<char>, evs: Seq<HlEvent>, hide: bool) -> Option<HlState>
    decreases evs.len(),
{
    if evs.len() == 0 {
        Some(hl_init())
    } else {
        match hl_fold(text, evs.drop_last(), hide) {
            Some(st) => hl_step(text, st, evs.last(), hide),
            None => None,
        }
    }
}

/// The styled lines a highlighter's events over `text` make (`None` if an
/// event names a capture or a byte range the text does not have).
pub open spec fn spec_lines_from_events(text: Seq<char>, evs: Seq<HlEvent>, hide: bool) -> Option<Seq<Seq<SpanView>>> {
    match hl_fold(text, evs, hide) {
        Some(st) => Some(st.lines),
        None => None,
    }
}

pub open spec fn vlines(ls: Seq<Line>) -> Seq<Seq<SpanView>> {
    lines_view(ls)
}


/// Adds the span `content` in `style` to the end of the last line.
fn push_on_last(lines: &mut Vec<Line>, content: &[char], style: Style)
    requires
        old(lines)@.len() >= 1,
    ensures
        final(lines)@.len() == old(lines)@.len(),
        vlines(final(lines)@) == vlines(old(lines)@).update(vlines(old(lines)@).len() - 1,
            vlines(old(lines)@).last().push(SpanView { content: content@, style })),
{
    let ghost v0 = vlines(lines@);
    let mut last = match lines.pop() {
        Some(l) => l,
        None => Line { spans: Vec::new() },
    };
    last.spans.push(Span::styled(string_of(content), style));
    lines.push(last);
    proof {
        assert(vlines(lines@) =~~= v0.update(v0.len() - 1, v0.last().push(SpanView { content: content@, style })));
    }
}

/// Applies one run of source text to the state, as `source_step` states.
fn apply_source(lines: &mut Vec<Line>, stack: &Vec<usize>, swallow: &mut bool, region: &[char], hide: bool, names: &Vec<&'static str>)
    requires
        old(lines)@.len() >= 1,
        names@.map_values(|n: &str| n@) == spec_recognized_names(),
        forall|i: int| 0 <= i < stack@.len() ==> #[trigger] stack@[i] < spec_recognized_names().len(),
    ensures
        final(lines)@.len() >= 1,
        ({
            let st = HlState { lines: vlines(old(lines)@), stack: stack@, swallow: *old(swallow) };
            let st2 = source_step(st, region@, hide);
            vlines(final(lines)@) == st2.lines && *final(swallow) == st2.swallow
        }),
{
    let ghost st = HlState { lines: vlines(lines@), stack: stack@, swallow: *swallow };
    let name: Option<&str> = if stack.len() > 0 {
        let k = stack[stack.len() - 1];
        proof {
            assert(names@.map_values(|n: &str| n@)[k as int] == names@[k as int]@);
        }
        Some(names[k])
    } else {
        None
    };
    proof {
        match name {
            Some(n) => assert(cur_name(st) == Some(n@)),
            None => assert(cur_name(st) is None),
        }
    }
    let hidden: bool = hide && match name {
        Some(n) => crate::text::str_is(n, "punctuation.special"),
        None => false,
    };
    proof {
        assert(hidden == (hide && cur_name(st) == Some("punctuation.special"@)));
    }
    let mut from: usize = 0;
    if *swallow && name.is_none() {
        while from < region.len() && region[from] == ' '
            invariant
                from <= region@.len(),
                forall|j: int| 0 <= j < from ==> #[trigger] region@[j] == ' ',
            decreases region.len() - from,
        {
            from = from + 1;
        }
        proof {
            lemma_lead_while(region@, space_pred(), from as nat);
        }
    }
    let len = region.len();
    let r2 = slice_chars(region, from, len);
    proof {
        assert(r2@ =~= (if st.swallow && cur_name(st) is None { region@.skip(lead_while(region@, space_pred()) as int) } else { region@ }));
    }
    let mut hashes = r2.len() > 0;
    let mut j: usize = 0;
    while j < r2.len()
        invariant
            j <= r2@.len(),
            hashes == (r2@.len() > 0 && forall|k: int| 0 <= k < j ==> r2@[k] == '#'),
        decreases r2.len() - j,
    {
        if r2[j] != '#' {
            hashes = false;
        }
        j = j + 1;
    }
    *swallow = hidden && hashes;
    if hidden {
        let mut n: usize = 0;
        let mut k: usize = 0;
        let ghost base = vlines(lines@);
        while k < r2.len()
            invariant
                k <= r2@.len(),
                lines@.len() >= 1,
                vlines(lines@) == base + Seq::new(count_nl(r2@.subrange(0, k as int)), |i: int| Seq::<SpanView>::empty()),
            decreases r2.len() - k,
        {
            proof {
                assert(r2@.subrange(0, k + 1).drop_last() =~= r2@.subrange(0, k as int));
            }
            if r2[k] == '\n' {
                let nl = Line { spans: Vec::new() };
                let ghost before = lines@;
                proof {
                    assert(nl.view() =~= Seq::<SpanView>::empty());
                }
                lines.push(nl);
                proof {
                    assert(vlines(lines@) =~= vlines(before).push(Seq::<SpanView>::empty()));
                    let n0 = count_nl(r2@.subrange(0, k as int));
                    assert(Seq::new(n0 + 1, |i: int| Seq::<SpanView>::empty()) =~= Seq::new(n0, |i: int| Seq::<SpanView>::empty()).push(Seq::<SpanView>::empty()));
                    assert(r2@.subrange(0, k + 1).last() == '\n');
                    assert(count_nl(r2@.subrange(0, k + 1)) == count_nl(r2@.subrange(0, k as int)) + 1);
                    assert(vlines(lines@) =~~= base + Seq::new(count_nl(r2@.subrange(0, k + 1)), |i: int| Seq::<SpanView>::empty()));
                }
            } else {
                proof {
                    assert(r2@.subrange(0, k + 1).last() != '\n');
                    assert(count_nl(r2@.subrange(0, k + 1)) == count_nl(r2@.subrange(0, k as int)));
                    assert(vlines(lines@) =~~= base + Seq::new(count_nl(r2@.subrange(0, k + 1)), |i: int| Seq::<SpanView>::empty()));
                }
            }
            k = k + 1;
        }
        proof {
            assert(r2@.subrange(0, r2@.len() as int) =~= r2@);
            assert(vlines(lines@) == base + Seq::new(count_nl(r2@), |i: int| Seq::<SpanView>::empty()));
            assert(*swallow == (hidden && r2@.len() > 0 && all_hash(r2@)));
            assert(vlines(lines@) == source_step(st, region@, hide).lines);
            assert(*swallow == source_step(st, region@, hide).swallow);
        }
    } else {
        let style: Style = match name {
            Some(n) => match style_for(n) {
                Some(s) => s,
                None => Style::new(),
            },
            None => Style::new(),
        };
        let pieces = split_chars(r2.as_slice(), '\n');
        let ghost pv = pieces@.map_values(|x: Vec<char>| x@);
        proof {
            assert(pv =~= split_char(r2@, '\n'));
        }
        let ghost base = vlines(lines@);
        let mut k: usize = 0;
        while k < pieces.len()
            invariant
                k <= pieces@.len(),
                pv == pieces@.map_values(|x: Vec<char>| x@),
                lines@.len() >= 1,
                vlines(lines@) == add_pieces(base, pv.subrange(0, k as int), style),
            decreases pieces.len() - k,
        {
            proof {
                assert(pv.subrange(0, k + 1).drop_last() =~= pv.subrange(0, k as int));
                assert(pv.subrange(0, k + 1).last() == pieces@[k as int]@);
            }
            if k > 0 {
                let nl = Line { spans: Vec::new() };
                let ghost before = lines@;
                proof {
                    assert(nl.view() =~= Seq::<SpanView>::empty());
                }
                lines.push(nl);
                proof {
                    assert(vlines(lines@) =~= vlines(before).push(Seq::<SpanView>::empty()));
                }
            }
            if pieces[k].len() > 0 {
                push_on_last(lines, pieces[k].as_slice(), style);
            }
            proof {
                let prev = add_pieces(base, pv.subrange(0, k as int), style);
                let l3 = if k + 1 > 1 { prev.push(Seq::empty()) } else { prev };
                assert(vlines(lines@) =~~= add_pieces(base, pv.subrange(0, k + 1), style));
            }
            k = k + 1;
        }
        proof {
            assert(pv.subrange(0, pieces@.len() as int) =~= pv);
            assert(style == (match cur_name(st) {
                Some(n) => match spec_style_for(n) { Some(s) => s, None => plain_style() },
                None => plain_style(),
            }));
            assert(*swallow == (hidden && r2@.len() > 0 && all_hash(r2@)));
            assert(vlines(lines@) == source_step(st, region@, hide).lines);
            assert(*swallow == source_step(st, region@, hide).swallow);
        }
    }
}

proof fn lemma_fold_none_stays(text: Seq<char>, evs: Seq<HlEvent>, hide: bool, k: int)
    requires
        0 <= k <= evs.len(),
        hl_fold(text, evs.subrange(0, k), hide) is None,
    ensures
        hl_fold(text, evs, hide) is None,
    decreases evs.len() - k,
{
    if k < evs.len() {
        assert(evs.subrange(0, k + 1).drop_last() =~= evs.subrange(0, k));
        lemma_fold_none_stays(text, evs, hide, k + 1);
    } else {
        assert(evs.subrange(0, k) =~= evs);
    }
}

/// Turns the highlighter's events over `text` into styled lines, as
/// `spec_lines_from_events` states.
pub fn lines_from_events(text: &str, events: &Vec<HlEvent>, hide_markers: bool) -> (r: Option<Vec<Line>>)
    ensures
        match spec_lines_from_events(text@, events@, hide_markers) {
            Some(ls) => r matches Some(v) && lines_view(v@) == ls,
            None => r is None,
        },
{
    let tc = chars_of(text);
    let offs = byte_offsets(tc.as_slice());
    proof {
        assert forall|i: int, j: int| 0 <= i < j < offs@.len() implies offs@[i] < offs@[j] by {
            lemma_byte_len_mono(tc@, i as nat, j as nat);
        }
    }
    let names = recognized_names();
    let mut lines: Vec<Line> = Vec::new();
    let nl = Line { spans: Vec::new() };
    proof {
        assert(nl.view() =~= Seq::<SpanView>::empty());
    }
    lines.push(nl);
    let mut stack: Vec<usize> = Vec::new();
    let mut swallow = false;
    let mut i: usize = 0;
    proof {
        assert(vlines(lines@) =~~= seq![Seq::<SpanView>::empty()]);
        assert(events@.subrange(0, 0) =~= Seq::<HlEvent>::empty());
    }
    while i < events.len()
        invariant
            i <= events@.len(),
            tc@ == text@,
            offs@.len() == tc@.len() + 1,
            forall|k: int| 0 <= k <= tc@.len() ==> offs@[k] == byte_len(tc@, k as nat),
            forall|a: int, b: int| 0 <= a < b < offs@.len() ==> offs@[a] < offs@[b],
            names@.map_values(|n: &str| n@) == spec_recognized_names(),
            lines@.len() >= 1,
            forall|k: int| 0 <= k < stack@.len() ==> #[trigger] stack@[k] < spec_recognized_names().len(),
            hl_fold(text@, events@.subrange(0, i as int), hide_markers)
                == Some(HlState { lines: vlines(lines@), stack: stack@, swallow }),
        decreases events.len() - i,
    {
        proof {
            assert(events@.subrange(0, i + 1).drop_last() =~= events@.subrange(0, i as int));
            assert(events@.subrange(0, i + 1).last() == events@[i as int]);
        }
        match events[i] {
            HlEvent::Start(h) => {
                if h >= names.len() {
                    proof {
                        lemma_fold_none_stays(text@, events@, hide_markers, i + 1);
                    }
                    return None;
                }
                stack.push(h);
            },
            HlEvent::End => {
                if stack.len() > 0 {
                    stack.pop();
                }
            },
            HlEvent::Source { start, end } => {
                let a = find_offset(&offs, start as u128);
                let b = find_offset(&offs, end as u128);
                match (a, b) {
                    (Some(a), Some(b)) => {
                        proof {
                            lemma_char_pos(tc@, start as int, a as int);
                            lemma_char_pos(tc@, end as int, b as int);
                        }
                        if a > b {
                            proof {
                                lemma_fold_none_stays(text@, events@, hide_markers, i + 1);
                            }
                            return None;
                        }
                        let reg = slice_chars(tc.as_slice(), a, b);
                        apply_source(&mut lines, &stack, &mut swallow, reg.as_slice(), hide_markers, &names);
                    },
                    _ => {
                        proof {
                            lemma_char_pos_nonneg(tc@, start as int);
                            lemma_char_pos_nonneg(tc@, end as int);
                            match char_pos(tc@, start as int) {
                                Some(k) => {
                                    lemma_char_pos(tc@, start as int, k);
                                    if a is None {
                                        assert(offs@[k] == start);
                                    }
                                },
                                None => {},
                            }
                            match char_pos(tc@, end as int) {
                                Some(k) => {
                                    lemma_char_pos(tc@, end as int, k);
                                    if b is None {
                                        assert(offs@[k] == end);
                                    }
                                },
                                None => {},
                            }
                            assert(region(text@, start as int, end as int) is None);
                            lemma_fold_none_stays(text@, events@, hide_markers, i + 1);
                        }
                        return None;
                    },
                }
            },
        }
        i = i + 1;
    }
    proof {
        assert(events@.subrange(0, events@.len() as int) =~= events@);
    }
    Some(lines)
}


/// The lines highlighting `text` as the file `path` gives, with the
/// registered configurations `configs`: `None` when no language is
/// recognized or registered, or the highlighter fails.
pub open spec fn spec_highlight(configs: Seq<ConfigModel>, path: Seq<char>, text: Seq<char>, hide: bool) -> Option<Seq<Seq<SpanView>>> {
    match spec_language_for(path, text) {
        None => None,
        Some(lang) => match spec_first_index(config_names(configs), lang) {
            Some(idx) => match spec_highlight_events(configs, idx, text) {
                Some(evs) => spec_lines_from_events(text, evs, hide),
                None => None,
            },
            None => None,
        },
    }
}

/// Syntax-highlights `text` based on the language inferred from `path`
/// (its file name, its extension, or a `#!` line in `text`). `None` when
/// nothing is recognized, so the caller falls back to plain text.
///
/// `hide_markers` drives markdown's render mode: every span captured as
/// `punctuation.special` (heading and quote markers, fence lines, emphasis
/// and code-span delimiters) is dropped while everything else is styled
/// as if the markers were shown; list markers (`punctuation.marker`) stay,
/// since they carry structure. A plain run of spaces right after a hidden
/// heading marker is swallowed too.
pub fn highlight(reg: &Registry, path: &str, text: &str, hide_markers: bool) -> (r: Option<Vec<Line>>)
    ensures
        match spec_highlight(reg.spec_models(), path@, text@, hide_markers) {
            Some(ls) => r matches Some(v) && lines_view(v@) == ls,
            None => r is None,
        },
{
    let lang = match language_for(path, text) {
        Some(l) => l,
        None => {
            return None;
        },
    };
    let idx = match reg.index_of(lang) {
        Some(i) => i,
        None => {
            return None;
        },
    };
    proof {
        reg.lemma_len();
    }
    let events = match run_highlighter(reg, idx, text) {
        Some(e) => e,
        None => {
            return None;
        },
    };
    lines_from_events(text, &events, hide_markers)
}

/// The preview for `text` shown as the file `path`: the text sanitized
/// (tabs expanded, control characters escaped), then highlighted as
/// exactly what ends up on screen; plain sanitized text when no language
/// applies.
pub open spec fn spec_highlighted_text(configs: Seq<ConfigModel>, path: Seq<char>, text: Seq<char>, hide: bool) -> Seq<Seq<SpanView>> {
    let san = crate::sanitize::spec_sanitize_lines(text, plain_style(), true);
    match spec_highlight(configs, path, join_lines(san), hide) {
        Some(ls) => ls,
        None => san,
    }
}

pub fn highlighted_text(reg: &Registry, path: &str, text: &str, hide_markers: bool) -> (t: SanitizedText)
    ensures
        t.view() == spec_highlighted_text(reg.spec_models(), path@, text@, hide_markers),
{
    let sanitized = SanitizedText::from_text(text, Style::new());
    let plain = sanitized.plain();
    match highlight(reg, path, plain.as_str(), hide_markers) {
        Some(lines) => SanitizedText::assume_sanitized(lines),
        None => sanitized,
    }
}

} // verus!

