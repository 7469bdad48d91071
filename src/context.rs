//! The maps that templates read besides the listings: structured data,
//! markdown turned into HTML, and highlighted source. Each published file
//! goes to at most one of them, by its extension, under its path relative to
//! the content root (extension included). A file that cannot be read,
//! parsed or converted is left out; the build goes on.
//!
//! A published data file is both copied to the output and loaded here.
use crate::classify::{move_type_of, opt_view, skipped, FileDetails, FileMoveType};
use crate::lists::json_ext;
use crate::paths::{extension, extension_of, file_name, is_underscored, parent, same_text};
use crate::text::{highlight_code, highlighted};
use vstd::prelude::*;
use vstd::string::*;

verus! {

#[verifier::external_type_specification]
#[verifier::external_body]
pub struct ExValue(minijinja::Value);

/// Which map a file feeds.
#[derive(Debug, Clone, Copy, PartialEq, Eq, Structural)]
pub enum ContextSlot {
    /// JSON data.
    Data,
    /// JSON5 data.
    Data5,
    Markdown,
    Highlight,
}

pub open spec fn json5_ext() -> Seq<char> {
    seq!['j', 's', 'o', 'n', '5']
}

pub open spec fn md_ext() -> Seq<char> {
    seq!['m', 'd']
}

/// Extensions of the source files shown highlighted.
pub open spec fn source_exts() -> Seq<Seq<char>> {
    seq![
        seq!['c', 's', 's'],
        seq!['h', 't', 'm', 'l'],
        seq!['j', 's'],
        seq!['p', 'y'],
        seq!['r', 's'],
    ]
}

pub open spec fn slot_of(dir: Seq<char>, name: Seq<char>) -> Option<ContextSlot> {
    if skipped(dir, name) {
        None
    } else {
        match extension(name) {
            Some(e) => if e == json_ext() {
                Some(ContextSlot::Data)
            } else if e == json5_ext() {
                Some(ContextSlot::Data5)
            } else if e == md_ext() {
                Some(ContextSlot::Markdown)
            } else if source_exts().contains(e) {
                Some(ContextSlot::Highlight)
            } else {
                None
            },
            None => None,
        }
    }
}

/// The map that a classified file feeds, if any.
pub fn context_slot(f: &FileDetails) -> (r: Option<ContextSlot>)
    requires
        f.wf(),
    ensures
        r == slot_of(f.input_dir@, f.input_name@),
{
    if f.move_type == FileMoveType::Skip {
        return None;
    }
    proof {
        reveal_strlit("json");
        reveal_strlit("json5");
        reveal_strlit("md");
        reveal_strlit("css");
        reveal_strlit("html");
        reveal_strlit("js");
        reveal_strlit("py");
        reveal_strlit("rs");
        assert("json"@ =~= json_ext());
        assert("json5"@ =~= json5_ext());
        assert("md"@ =~= md_ext());
        assert("css"@ =~= source_exts()[0]);
        assert("html"@ =~= source_exts()[1]);
        assert("js"@ =~= source_exts()[2]);
        assert("py"@ =~= source_exts()[3]);
        assert("rs"@ =~= source_exts()[4]);
    }
    match extension_of(f.input_name.as_str()) {
        Some(e) => {
            let e = e.as_str();
            if same_text(e, "json") {
                Some(ContextSlot::Data)
            } else if same_text(e, "json5") {
                Some(ContextSlot::Data5)
            } else if same_text(e, "md") {
                Some(ContextSlot::Markdown)
            } else if same_text(e, "css") || same_text(e, "html") || same_text(e, "js")
                || same_text(e, "py") || same_text(e, "rs") {
                proof {
                    assert(source_exts().contains(e@));
                }
                Some(ContextSlot::Highlight)
            } else {
                proof {
                    if source_exts().contains(e@) {
                        let k = choose|k: int| 0 <= k < source_exts().len() && source_exts()[k] == e@;
                        assert(false);
                    }
                }
                None
            }
        },
        None => None,
    }
}

/// Whether `serde_json` reads the text as JSON.
pub uninterp spec fn json_accepts(s: Seq<char>) -> bool;

/// Whether `serde_json5` reads the text as JSON5.
pub uninterp spec fn json5_accepts(s: Seq<char>) -> bool;

/// What `markdown` makes of the text: its HTML, or `None` for an error.
pub uninterp spec fn markdown_result(s: Seq<char>) -> Option<Seq<char>>;

/// Relies on serde_json::from_str into a minijinja::Value: a value for
/// JSON text, an error otherwise.
#[verifier::external_body]
fn parse_json(text: &str) -> (r: Option<minijinja::Value>)
    ensures
        r is Some == json_accepts(text@),
{
    serde_json::from_str::<minijinja::Value>(text).ok()
}

/// Relies on serde_json5::from_str into a minijinja::Value: a value for
/// JSON5 text, an error otherwise.
#[verifier::external_body]
fn parse_json5(text: &str) -> (r: Option<minijinja::Value>)
    ensures
        r is Some == json5_accepts(text@),
{
    serde_json5::from_str::<minijinja::Value>(text).ok()
}

/// Relies on markdown::to_html_with_options, with raw HTML let through and
/// the other options at their defaults: the HTML of the markdown text.
#[verifier::external_body]
fn markdown_to_html(text: &str) -> (r: Option<String>)
    ensures
        opt_view(r) == markdown_result(text@),
{
    let options = markdown::Options {
        compile: markdown::CompileOptions {
            allow_dangerous_html: true,
            ..markdown::CompileOptions::default()
        },
        ..markdown::Options::default()
    };
    markdown::to_html_with_options(text, &options).ok()
}

pub const MARKDOWN_FAILED: &'static str = "[unable to parse markdown]";

/// Markdown as HTML, for templates; a notice where it cannot be converted.
pub fn mj_markdown(value: String) -> (r: String)
    ensures
        r@ == match markdown_result(value@) {
            Some(h) => h,
            None => MARKDOWN_FAILED@,
        },
{
    match markdown_to_html(value.as_str()) {
        Some(h) => h,
        None => String::from_str(MARKDOWN_FAILED),
    }
}

/// The data map's key for a file with this text, where it parses.
pub open spec fn data_entry(f: FileDetails, src: Option<String>) -> Option<Seq<char>> {
    match src {
        Some(t) => match slot_of(f.input_dir@, f.input_name@) {
            Some(ContextSlot::Data) => if json_accepts(t@) {
                Some(f.input_path_spec())
            } else {
                None
            },
            Some(ContextSlot::Data5) => if json5_accepts(t@) {
                Some(f.input_path_spec())
            } else {
                None
            },
            _ => None,
        },
        None => None,
    }
}

/// The markdown map's entry for a file with this text.
pub open spec fn markdown_entry(f: FileDetails, src: Option<String>) -> Option<(Seq<char>, Seq<char>)> {
    match src {
        Some(t) => if slot_of(f.input_dir@, f.input_name@) == Some(ContextSlot::Markdown) {
            match markdown_result(t@) {
                Some(h) => Some((f.input_path_spec(), h)),
                None => None,
            }
        } else {
            None
        },
        None => None,
    }
}

/// The highlighted-source map's entry for a file with this text: the text
/// highlighted as its extension's language.
pub open spec fn highlight_entry(f: FileDetails, src: Option<String>) -> Option<(Seq<char>, Seq<char>)> {
    match src {
        Some(t) => if slot_of(f.input_dir@, f.input_name@) == Some(ContextSlot::Highlight) {
            Some((f.input_path_spec(), highlighted(t@, extension(f.input_name@)->Some_0)))
        } else {
            None
        },
        None => None,
    }
}

pub open spec fn data_keys(files: Seq<FileDetails>, srcs: Seq<Option<String>>) -> Seq<Seq<char>>
    decreases files.len(),
{
    if files.len() == 0 || srcs.len() == 0 {
        Seq::empty()
    } else {
        let rest = data_keys(files.drop_last(), srcs.drop_last());
        match data_entry(files.last(), srcs.last()) {
            Some(k) => rest.push(k),
            None => rest,
        }
    }
}

pub open spec fn markdown_entries(files: Seq<FileDetails>, srcs: Seq<Option<String>>) -> Seq<
    (Seq<char>, Seq<char>),
>
    decreases files.len(),
{
    if files.len() == 0 || srcs.len() == 0 {
        Seq::empty()
    } else {
        let rest = markdown_entries(files.drop_last(), srcs.drop_last());
        match markdown_entry(files.last(), srcs.last()) {
            Some(e) => rest.push(e),
            None => rest,
        }
    }
}

pub open spec fn highlight_entries(files: Seq<FileDetails>, srcs: Seq<Option<String>>) -> Seq<
    (Seq<char>, Seq<char>),
>
    decreases files.len(),
{
    if files.len() == 0 || srcs.len() == 0 {
        Seq::empty()
    } else {
        let rest = highlight_entries(files.drop_last(), srcs.drop_last());
        match highlight_entry(files.last(), srcs.last()) {
            Some(e) => rest.push(e),
            None => rest,
        }
    }
}

/// The maps of one build.
pub struct BuildContext {
    /// Parsed data, by path.
    pub data: Vec<(String, minijinja::Value)>,
    /// HTML of markdown files, by path.
    pub markdown: Vec<(String, String)>,
    /// Highlighted source files, by path.
    pub highlight: Vec<(String, String)>,
}

pub open spec fn value_keys(v: Seq<(String, minijinja::Value)>) -> Seq<Seq<char>> {
    v.map_values(|e: (String, minijinja::Value)| e.0@)
}

pub open spec fn text_pairs(v: Seq<(String, String)>) -> Seq<(Seq<char>, Seq<char>)> {
    v.map_values(|e: (String, String)| (e.0@, e.1@))
}

/// Builds the maps from the classified files and the text read from each
/// (`None` where it could not be read).
pub fn assemble_context(files: &Vec<FileDetails>, sources: &Vec<Option<String>>) -> (r:
    BuildContext)
    requires
        files@.len() == sources@.len(),
        forall|i: int| 0 <= i < files@.len() ==> (#[trigger] files@[i]).wf(),
    ensures
        value_keys(r.data@) == data_keys(files@, sources@),
        text_pairs(r.markdown@) == markdown_entries(files@, sources@),
        text_pairs(r.highlight@) == highlight_entries(files@, sources@),
{
    let mut data: Vec<(String, minijinja::Value)> = Vec::new();
    let mut markdown: Vec<(String, String)> = Vec::new();
    let mut highlight: Vec<(String, String)> = Vec::new();
    let n = files.len();
    let mut i: usize = 0;
    while i < n
        invariant
            n == files@.len(),
            n == sources@.len(),
            i <= n,
            forall|k: int| 0 <= k < files@.len() ==> (#[trigger] files@[k]).wf(),
            value_keys(data@) == data_keys(files@.take(i as int), sources@.take(i as int)),
            text_pairs(markdown@) == markdown_entries(files@.take(i as int), sources@.take(i as int)),
            text_pairs(highlight@) == highlight_entries(
                files@.take(i as int),
                sources@.take(i as int),
            ),
        decreases n - i,
    {
        let f = &files[i];
        proof {
            assert(files@.take(i + 1).drop_last() =~= files@.take(i as int));
            assert(sources@.take(i + 1).drop_last() =~= sources@.take(i as int));
            assert(files@.take(i + 1).last() == files@[i as int]);
            assert(sources@.take(i + 1).last() == sources@[i as int]);
        }
        let ghost (d0, m0, h0) = (data@, markdown@, highlight@);
        match &sources[i] {
            Some(text) => {
                let t = text.as_str();
                match context_slot(f) {
                    Some(ContextSlot::Data) => {
                        if let Some(v) = parse_json(t) {
                            data.push((f.input_path(), v));
                        }
                    },
                    Some(ContextSlot::Data5) => {
                        if let Some(v) = parse_json5(t) {
                            data.push((f.input_path(), v));
                        }
                    },
                    Some(ContextSlot::Markdown) => {
                        if let Some(h) = markdown_to_html(t) {
                            markdown.push((f.input_path(), h));
                        }
                    },
                    Some(ContextSlot::Highlight) => {
                        let e = extension_of(f.input_name.as_str());
                        if let Some(lang) = e {
                            highlight.push((f.input_path(), highlight_code(t, lang.as_str())));
                        }
                    },
                    None => {},
                }
            },
            None => {},
        }
        proof {
            if data@.len() > d0.len() {
                assert(value_keys(data@) =~= value_keys(d0).push(data@.last().0@));
            } else {
                assert(data@ == d0);
            }
            if markdown@.len() > m0.len() {
                assert(text_pairs(markdown@) =~= text_pairs(m0).push(
                    (markdown@.last().0@, markdown@.last().1@),
                ));
            } else {
                assert(markdown@ == m0);
            }
            if highlight@.len() > h0.len() {
                assert(text_pairs(highlight@) =~= text_pairs(h0).push(
                    (highlight@.last().0@, highlight@.last().1@),
                ));
            } else {
                assert(highlight@ == h0);
            }
        }
        i = i + 1;
    }
    proof {
        assert(files@.take(n as int) =~= files@);
        assert(sources@.take(n as int) =~= sources@);
    }
    BuildContext { data, markdown, highlight }
}

/// A published JSON file is used twice: copied as it is, and loaded as data.
pub proof fn lemma_data_file_is_copied_and_loaded(p: Seq<char>)
    requires
        !is_underscored(p),
        extension(file_name(p)) == Some(json_ext()),
    ensures
        move_type_of(parent(p), file_name(p)) == FileMoveType::Copy,
        slot_of(parent(p), file_name(p)) == Some(ContextSlot::Data),
{
    crate::classify::lemma_skipped_iff_underscored(p);
    assert(json_ext() != seq!['h', 't', 'm', 'l']);
}

} // verus!
