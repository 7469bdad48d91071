//! Source text shown on pages: split into lines, trimmed of leading blank
//! lines, highlighted, and marked line by line.
use crate::lists::views;
use regex::Regex;
use syntect::html::{ClassStyle, ClassedHTMLGenerator};
use syntect::parsing::SyntaxSet;
use syntect::util::LinesWithEndings;
use vstd::prelude::*;
use vstd::string::*;

verus! {

/// The pieces of `s` between the `c`s: one more than there are `c`s.
pub open spec fn split_on(s: Seq<char>, c: char) -> Seq<Seq<char>>
    decreases s.len(),
{
    if s.len() == 0 {
        seq![Seq::empty()]
    } else {
        let r = split_on(s.drop_last(), c);
        if s.last() == c {
            r.push(Seq::empty())
        } else {
            r.update(r.len() - 1, r.last().push(s.last()))
        }
    }
}

pub proof fn lemma_split_on_len(s: Seq<char>, c: char)
    ensures
        split_on(s, c).len() >= 1,
    decreases s.len(),
{
    if s.len() > 0 {
        lemma_split_on_len(s.drop_last(), c);
    }
}

/// Splits `s` at each `c`.
pub fn split_text(s: &str, c: char) -> (r: Vec<String>)
    ensures
        views(r@) == split_on(s@, c),
{
    let n = s.unicode_len();
    let mut pieces: Vec<String> = Vec::new();
    let mut start: usize = 0;
    let mut i: usize = 0;
    assert(s@.take(0) =~= Seq::<char>::empty());
    assert(s@.subrange(0, 0) =~= Seq::<char>::empty());
    while i < n
        invariant
            n == s@.len(),
            start <= i <= n,
            split_on(s@.take(i as int), c) == views(pieces@).push(s@.subrange(start as int, i as int)),
        decreases n - i,
    {
        let ch = s.get_char(i);
        proof {
            assert(s@.take(i + 1).drop_last() =~= s@.take(i as int));
            assert(s@.take(i + 1).last() == ch);
            lemma_split_on_len(s@.take(i as int), c);
        }
        if ch == c {
            let piece = String::from_str(s.substring_char(start, i));
            let ghost before = pieces@;
            pieces.push(piece);
            proof {
                assert(views(pieces@) =~= views(before).push(s@.subrange(start as int, i as int)));
                assert(s@.subrange(i + 1, i + 1) =~= Seq::<char>::empty());
            }
            start = i + 1;
        } else {
            proof {
                let cur = s@.subrange(start as int, i as int);
                assert(cur.push(ch) =~= s@.subrange(start as int, i + 1));
                assert(views(pieces@).push(cur).update(views(pieces@).len() as int, cur.push(ch))
                    =~= views(pieces@).push(cur.push(ch)));
            }
        }
        i = i + 1;
    }
    let last = String::from_str(s.substring_char(start, n));
    let ghost before = pieces@;
    pieces.push(last);
    proof {
        assert(s@.take(n as int) =~= s@);
        assert(views(pieces@) =~= views(before).push(s@.subrange(start as int, n as int)));
    }
    pieces
}

pub open spec fn strip_cr(l: Seq<char>) -> Seq<char> {
    if l.len() > 0 && l.last() == '\r' {
        l.drop_last()
    } else {
        l
    }
}

/// The lines of `s` as `str::lines` gives them: split at `\n`, a `\r`
/// before a `\n` dropped, and no empty line after a final `\n`.
pub open spec fn lines_of(s: Seq<char>) -> Seq<Seq<char>> {
    let parts = split_on(s, '\n');
    let ended = parts.drop_last().map_values(|l: Seq<char>| strip_cr(l));
    if parts.last().len() == 0 {
        ended
    } else {
        ended.push(parts.last())
    }
}

pub const LINE_MARKER: &'static str = "<span class=\"line-marker\"></span>";

/// The lines, each after a marker, joined by `\n`.
pub open spec fn with_markers(lines: Seq<Seq<char>>) -> Seq<char>
    decreases lines.len(),
{
    if lines.len() == 0 {
        Seq::empty()
    } else if lines.len() == 1 {
        LINE_MARKER@ + lines[0]
    } else {
        with_markers(lines.drop_last()) + seq!['\n'] + LINE_MARKER@ + lines.last()
    }
}

fn strip_cr_exec(l: &str) -> (r: String)
    ensures
        r@ == strip_cr(l@),
{
    let n = l.unicode_len();
    if n > 0 && l.get_char(n - 1) == '\r' {
        String::from_str(l.substring_char(0, n - 1))
    } else {
        String::from_str(l)
    }
}

pub fn text_lines(s: &str) -> (r: Vec<String>)
    ensures
        views(r@) == lines_of(s@),
{
    let parts = split_text(s, '\n');
    proof {
        lemma_split_on_len(s@, '\n');
    }
    let n = parts.len();
    let mut r: Vec<String> = Vec::new();
    let mut i: usize = 0;
    let ghost ended = views(parts@).drop_last().map_values(|l: Seq<char>| strip_cr(l));
    while i + 1 < n
        invariant
            n == parts@.len(),
            n >= 1,
            i + 1 <= n,
            ended == views(parts@).drop_last().map_values(|l: Seq<char>| strip_cr(l)),
            views(r@) == ended.take(i as int),
        decreases n - i,
    {
        let l = strip_cr_exec(parts[i].as_str());
        let ghost before = r@;
        r.push(l);
        proof {
            assert(views(r@) =~= views(before).push(l@));
            assert(ended.take(i + 1) =~= ended.take(i as int).push(ended[i as int]));
        }
        i = i + 1;
    }
    assert(ended.take(i as int) =~= ended);
    let last = &parts[n - 1];
    if last.unicode_len() > 0 {
        let ghost before = r@;
        r.push(last.clone());
        proof {
            assert(views(r@) =~= views(before).push(last@));
        }
    }
    r
}

/// Puts a marker before each line of `html`, for styling line by line.
pub fn add_line_markers(html: &str) -> (r: String)
    ensures
        r@ == with_markers(lines_of(html@)),
{
    let lines = text_lines(html);
    let n = lines.len();
    let mut out = String::new();
    let mut i: usize = 0;
    proof {
        reveal_strlit("\n");
    }
    while i < n
        invariant
            n == lines@.len(),
            i <= n,
            out@ == with_markers(views(lines@).take(i as int)),
            "\n"@ == seq!['\n'],
        decreases n - i,
    {
        let ghost ls = views(lines@);
        proof {
            assert(ls.take(i + 1).drop_last() =~= ls.take(i as int));
            assert(ls.take(i + 1).last() == ls[i as int]);
        }
        if i > 0 {
            out = out.concat("\n");
        } else {
            assert(out@ =~= Seq::<char>::empty());
        }
        out = out.concat(LINE_MARKER).concat(lines[i].as_str());
        proof {
            if i == 0 {
                assert(out@ =~= LINE_MARKER@ + ls[0]);
            } else {
                assert(out@ =~= with_markers(ls.take(i as int)) + seq!['\n'] + LINE_MARKER@ + ls[i as int]);
            }
        }
        i = i + 1;
    }
    assert(views(lines@).take(n as int) =~= views(lines@));
    out
}

/// What `regex` makes of `\S` on the text: it holds a character that is not
/// white space.
pub uninterp spec fn non_space_match(s: Seq<char>) -> bool;

/// Relies on regex::Regex::is_match with the pattern `\S`: whether the text
/// holds a character that is not white space; an empty text holds none.
#[verifier::external_body]
fn has_non_space(line: &str) -> (r: bool)
    ensures
        r == non_space_match(line@),
        line@.len() == 0 ==> !r,
{
    Regex::new(r"\S").unwrap().is_match(line)
}

pub uninterp spec fn trim_end_of(s: Seq<char>) -> Seq<char>;

/// Relies on str::trim_end: the text without its trailing white space.
#[verifier::external_body]
fn trim_end(s: &str) -> (r: String)
    ensures
        r@ == trim_end_of(s@),
{
    s.trim_end().to_string()
}

/// The lines from the first that holds more than white space on.
pub open spec fn from_first_text(lines: Seq<Seq<char>>) -> Seq<Seq<char>>
    decreases lines.len(),
{
    if lines.len() == 0 {
        lines
    } else if non_space_match(lines[0]) {
        lines
    } else {
        from_first_text(lines.drop_first())
    }
}

/// Each line followed by `\n`.
pub open spec fn line_block(lines: Seq<Seq<char>>) -> Seq<char>
    decreases lines.len(),
{
    if lines.len() == 0 {
        Seq::empty()
    } else {
        line_block(lines.drop_last()) + lines.last() + seq!['\n']
    }
}

pub open spec fn trimmed_source(source: Seq<char>) -> Seq<char> {
    trim_end_of(line_block(from_first_text(split_on(source, '\n'))))
}

/// The source without its leading blank lines and its trailing white space.
pub fn trim_empty_leading_lines(source: &str) -> (r: String)
    ensures
        r@ == trimmed_source(source@),
{
    let lines = split_text(source, '\n');
    let n = lines.len();
    let mut k: usize = 0;
    proof {
        assert(views(lines@).skip(0) =~= views(lines@));
    }
    while k < n && !has_non_space(lines[k].as_str())
        invariant
            n == lines@.len(),
            k <= n,
            from_first_text(views(lines@)) == from_first_text(views(lines@).skip(k as int)),
        decreases n - k,
    {
        proof {
            let rest = views(lines@).skip(k as int);
            assert(rest.drop_first() =~= views(lines@).skip(k + 1));
        }
        k = k + 1;
    }
    let ghost kept = views(lines@).skip(k as int);
    proof {
        if k == n {
            assert(kept.len() == 0);
        }
    }
    let mut block = String::new();
    let mut i: usize = k;
    proof {
        reveal_strlit("\n");
        assert(kept.take(0) =~= Seq::<Seq<char>>::empty());
    }
    while i < n
        invariant
            n == lines@.len(),
            k <= i <= n,
            kept == views(lines@).skip(k as int),
            block@ == line_block(kept.take(i - k)),
            "\n"@ == seq!['\n'],
        decreases n - i,
    {
        proof {
            assert(kept.take(i - k + 1).drop_last() =~= kept.take(i - k));
            assert(kept.take(i - k + 1).last() == lines@[i as int]@);
        }
        block = block.concat(lines[i].as_str()).concat("\n");
        i = i + 1;
    }
    assert(kept.take(n - k) =~= kept);
    trim_end(block.as_str())
}

/// What the highlighter makes of `code`: classed spans in HTML.
pub uninterp spec fn classed_html_of(code: Seq<char>, lang: Seq<char>) -> Seq<char>;

/// Relies on syntect's ClassedHTMLGenerator, with the default syntaxes
/// (newline flavour), the syntax that `lang` names as a token or else plain
/// text, and spaced class names: the code marked up with classed spans.
#[verifier::external_body]
fn classed_html(code: &str, lang: &str) -> (r: String)
    ensures
        r@ == classed_html_of(code@, lang@),
{
    let syntax_set = SyntaxSet::load_defaults_newlines();
    let syntax = match syntax_set.find_syntax_by_token(lang) {
        Some(s) => s,
        None => syntax_set.find_syntax_plain_text(),
    };
    let mut generator = ClassedHTMLGenerator::new_with_class_style(syntax, &syntax_set, ClassStyle::Spaced);
    for line in LinesWithEndings::from(code) {
        let _ = generator.parse_html_for_line_which_includes_newline(line);
    }
    generator.finalize()
}

pub open spec fn highlighted(code: Seq<char>, lang: Seq<char>) -> Seq<char> {
    with_markers(lines_of(classed_html_of(trimmed_source(code), lang)))
}

/// The code, trimmed, highlighted as `lang` and marked line by line.
pub fn highlight_code(code: &str, lang: &str) -> (r: String)
    ensures
        r@ == highlighted(code@, lang@),
{
    let trimmed = trim_empty_leading_lines(code);
    let html = classed_html(trimmed.as_str(), lang);
    add_line_markers(html.as_str())
}

pub fn highlight_css(code: String) -> (r: String)
    ensures
        r@ == highlighted(code@, "css"@),
{
    highlight_code(code.as_str(), "css")
}

pub fn highlight_html(code: String) -> (r: String)
    ensures
        r@ == highlighted(code@, "html"@),
{
    highlight_code(code.as_str(), "html")
}

pub fn highlight_javascript(code: String) -> (r: String)
    ensures
        r@ == highlighted(code@, "js"@),
{
    highlight_code(code.as_str(), "js")
}

pub fn highlight_json(code: String) -> (r: String)
    ensures
        r@ == highlighted(code@, "json"@),
{
    highlight_code(code.as_str(), "json")
}

pub fn highlight_lua(code: String) -> (r: String)
    ensures
        r@ == highlighted(code@, "lua"@),
{
    highlight_code(code.as_str(), "lua")
}

pub fn highlight_python(code: String) -> (r: String)
    ensures
        r@ == highlighted(code@, "py"@),
{
    highlight_code(code.as_str(), "py")
}

pub fn highlight_rust(code: String) -> (r: String)
    ensures
        r@ == highlighted(code@, "rs"@),
{
    highlight_code(code.as_str(), "rs")
}

} // verus!
