//! Conversion of math source to output markup, shared by the inline and
//! display math rules.  A conversion that fails, or whose output carries
//! the converter's own error rendering, falls back to the escaped source
//! text.
use crate::text::spec_contains;
use crate::text::str_contains;
use vstd::prelude::*;
use vstd::string::*;

verus! {

/// Text encoding as the outside encoder does it: `&`, `<` and `>` become
/// their character references.
pub open spec fn spec_encode_text(s: Seq<char>) -> Seq<char>
    decreases s.len(),
{
    if s.len() == 0 {
        Seq::empty()
    } else {
        (if s[0] == '&' {
            seq!['&', 'a', 'm', 'p', ';']
        } else if s[0] == '<' {
            seq!['&', 'l', 't', ';']
        } else if s[0] == '>' {
            seq!['&', 'g', 't', ';']
        } else {
            seq![s[0]]
        }) + spec_encode_text(s.drop_first())
    }
}

/// Relies on html_escape::encode_text: escapes exactly `&`, `<` and `>`
/// as their character references and keeps every other character.
#[verifier::external_body]
fn encode_text_str(s: &str) -> (r: String)
    ensures
        r@ == spec_encode_text(s@),
{
    html_escape::encode_text(s).into_owned()
}

/// Whether the math-to-markup conversion succeeds on this source.
pub uninterp spec fn mathml_ok(s: Seq<char>, block: bool) -> bool;

/// What the math-to-markup conversion yields on this source.
pub uninterp spec fn mathml_of(s: Seq<char>, block: bool) -> Seq<char>;

/// Relies on pulldown_latex (Storage::new, Parser::new, RenderConfig and
/// mathml::push_mathml): converts math source to markup in inline or
/// block display mode; the result depends on the source and the mode
/// alone.
#[verifier::external_body]
fn mathml_render_raw(math: &str, block: bool) -> (r: Option<String>)
    ensures
        r is Some <==> mathml_ok(math@, block),
        r matches Some(m) ==> m@ == mathml_of(math@, block),
{
    let storage = pulldown_latex::Storage::new();
    let parser = pulldown_latex::Parser::new(math, &storage);
    let mut config = pulldown_latex::RenderConfig::default();
    config.display_mode = if block {
        pulldown_latex::config::DisplayMode::Block
    } else {
        pulldown_latex::config::DisplayMode::Inline
    };
    let mut out = String::new();
    match pulldown_latex::mathml::push_mathml(&mut out, parser, config) {
        Ok(()) => Some(out),
        Err(_) => None,
    }
}

/// What rendering math yields: the converted markup, unless conversion
/// fails or its output carries the converter's own error rendering, in
/// which case the escaped source text is shown instead.
pub open spec fn spec_math_render(s: Seq<char>, block: bool) -> Seq<char> {
    if mathml_ok(s, block) {
        let m = mathml_of(s, block);
        if spec_contains(m, "parsing error"@) && spec_contains(m, "\u{256d}\u{2500}\u{25ba}"@) {
            spec_encode_text(s)
        } else {
            m
        }
    } else {
        spec_encode_text(s)
    }
}

/// Renders math source to output markup, falling back to the escaped
/// source text when conversion fails or reports an error in its output.
pub fn math_render(math: String, block_display_mode: bool) -> (r: String)
    ensures
        r@ == spec_math_render(math@, block_display_mode),
{
    let converted = mathml_render_raw(math.as_str(), block_display_mode);
    match converted {
        Some(m) => {
            if str_contains(m.as_str(), "parsing error") && str_contains(
                m.as_str(),
                "\u{256d}\u{2500}\u{25ba}",
            ) {
                encode_text_str(math.as_str())
            } else {
                m
            }
        },
        None => encode_text_str(math.as_str()),
    }
}

/// What entity decoding yields on this text.
pub uninterp spec fn decoded_entities_of(s: Seq<char>) -> Seq<char>;

/// Relies on html_escape::decode_html_entities: the result depends on the
/// characters alone.
#[verifier::external_body]
pub(crate) fn decode_entities(s: &str) -> (r: String)
    ensures
        r@ == decoded_entities_of(s@),
{
    html_escape::decode_html_entities(s).into_owned()
}

/// Whether the anchored pattern matches at the head of the text.
pub uninterp spec fn fancy_found(pattern: Seq<char>, text: Seq<char>) -> bool;

/// The character count of the whole match.
pub uninterp spec fn fancy_match_chars(pattern: Seq<char>, text: Seq<char>) -> int;

/// The text of the capture group named `math`.
pub uninterp spec fn fancy_math_group(pattern: Seq<char>, text: Seq<char>) -> Seq<char>;

/// Relies on fancy_regex::Regex::new and Regex::captures: matches the
/// pattern against the text and hands back the whole match's character
/// count and the capture group named `math`; the result depends on the
/// two arguments alone.  No match, a missing group, a pattern that does
/// not compile, or a runtime error all count as no match.
#[verifier::external_body]
pub(crate) fn fancy_captures_math(pattern: &str, text: &str) -> (r: Option<(usize, String)>)
    ensures
        r is Some <==> fancy_found(pattern@, text@),
        r matches Some((len, g)) ==> len == fancy_match_chars(pattern@, text@) && g@
            == fancy_math_group(pattern@, text@),
{
    match fancy_regex::Regex::new(pattern) {
        Ok(re) => match re.captures(text) {
            Ok(Some(caps)) => match (caps.get(0), caps.name("math")) {
                (Some(w), Some(m)) => Some((w.as_str().chars().count(), m.as_str().to_string())),
                _ => None,
            },
            _ => None,
        },
        Err(_) => None,
    }
}

} // verus!
