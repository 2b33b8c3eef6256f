use vstd::prelude::*;
use crate::transform::Color;

verus! {

/// Relies on `String::push`: appends exactly the one given character.
#[verifier::external_body]
pub(crate) fn push_char(s: &mut String, c: char)
    ensures
        final(s)@ == old(s)@.push(c),
{
    s.push(c);
}

/// The view of each string in a list.
pub open spec fn strs_model(v: Seq<String>) -> Seq<Seq<char>> {
    v.map(|i: int, s: String| s@)
}

/// The three independent style switches a text run can carry.
#[derive(Clone, Copy, Debug, PartialEq, Eq, Structural)]
pub struct StyleFlags {
    pub bold: bool,
    pub italic: bool,
    pub underline: bool,
}

impl StyleFlags {
    /// No style switch set.
    pub fn plain() -> (s: Self)
        ensures
            s == (StyleFlags { bold: false, italic: false, underline: false }),
    {
        StyleFlags { bold: false, italic: false, underline: false }
    }
}

/// A maximal stretch of text sharing one style.
#[derive(Debug, PartialEq)]
pub struct TextRun {
    pub text: String,
    pub style: StyleFlags,
}

impl Clone for TextRun {
    fn clone(&self) -> (r: Self)
        ensures
            r.text@ == self.text@ && r.style == self.style,
    {
        TextRun { text: self.text.clone(), style: self.style }
    }
}

/// What a run sequence means: each run as its characters and style.
pub open spec fn runs_model(runs: Seq<TextRun>) -> Seq<(Seq<char>, StyleFlags)> {
    runs.map(|i: int, r: TextRun| (r.text@, r.style))
}

/// Styled text: an ordered run list.
#[derive(Debug, PartialEq)]
pub struct StyledText {
    pub runs: Vec<TextRun>,
}

impl Clone for StyledText {
    fn clone(&self) -> (r: Self)
        ensures
            runs_model(r.runs@) == runs_model(self.runs@),
    {
        let mut runs: Vec<TextRun> = Vec::new();
        let mut i: usize = 0;
        while i < self.runs.len()
            invariant
                i <= self.runs@.len(),
                runs@.len() == i,
                forall|j: int|
                    0 <= j < i ==> #[trigger] runs@[j].text@ == self.runs@[j].text@
                        && runs@[j].style == self.runs@[j].style,
            decreases self.runs@.len() - i,
        {
            runs.push(self.runs[i].clone());
            i = i + 1;
        }
        proof {
            assert(runs_model(runs@) =~= runs_model(self.runs@));
        }
        StyledText { runs }
    }
}

/// Flushing a pending character buffer: a non-empty buffer becomes one
/// more run with the given style; an empty buffer adds nothing.
pub open spec fn flush_model(
    runs: Seq<(Seq<char>, StyleFlags)>,
    buf: Seq<char>,
    style: StyleFlags,
) -> Seq<(Seq<char>, StyleFlags)> {
    if buf.len() == 0 {
        runs
    } else {
        runs.push((buf, style))
    }
}

/// What parsing the rest of `cs` (from position `i`, with the pending
/// style, buffer and runs) yields: `**` toggles bold, `__` toggles
/// underline, a single `*` toggles italic, and every other character
/// joins the pending buffer. A style toggle flushes the buffer first.
pub open spec fn parse_markdown_from(
    cs: Seq<char>,
    i: int,
    style: StyleFlags,
    buf: Seq<char>,
    runs: Seq<(Seq<char>, StyleFlags)>,
) -> Seq<(Seq<char>, StyleFlags)>
    decreases cs.len() - i,
{
    if i >= cs.len() {
        flush_model(runs, buf, style)
    } else if i + 1 < cs.len() && cs[i] == '*' && cs[i + 1] == '*' {
        parse_markdown_from(
            cs,
            i + 2,
            StyleFlags { bold: !style.bold, italic: style.italic, underline: style.underline },
            Seq::empty(),
            flush_model(runs, buf, style),
        )
    } else if i + 1 < cs.len() && cs[i] == '_' && cs[i + 1] == '_' {
        parse_markdown_from(
            cs,
            i + 2,
            StyleFlags { bold: style.bold, italic: style.italic, underline: !style.underline },
            Seq::empty(),
            flush_model(runs, buf, style),
        )
    } else if cs[i] == '*' {
        parse_markdown_from(
            cs,
            i + 1,
            StyleFlags { bold: style.bold, italic: !style.italic, underline: style.underline },
            Seq::empty(),
            flush_model(runs, buf, style),
        )
    } else {
        parse_markdown_from(cs, i + 1, style, buf.push(cs[i]), runs)
    }
}

/// The run list that a whole markdown input parses to.
pub open spec fn markdown_runs(cs: Seq<char>) -> Seq<(Seq<char>, StyleFlags)> {
    parse_markdown_from(
        cs,
        0,
        StyleFlags { bold: false, italic: false, underline: false },
        Seq::empty(),
        Seq::empty(),
    )
}

/// Push the pending buffer as one run (unless empty) and clear it.
pub fn flush_run(runs: &mut Vec<TextRun>, buffer: &mut String, style: StyleFlags)
    ensures
        runs_model(final(runs)@) == flush_model(runs_model(old(runs)@), old(buffer)@, style),
        final(buffer)@ == Seq::<char>::empty(),
{
    if !buffer.as_str().is_empty() {
        let text = buffer.clone();
        runs.push(TextRun { text, style });
        *buffer = String::new();
        proof {
            assert(runs_model(runs@) =~= runs_model(old(runs)@).push((old(buffer)@, style)));
        }
    } else {
        proof {
            assert(buffer@ =~= Seq::<char>::empty());
        }
    }
}

impl StyledText {
    /// Parse a minimal markdown dialect: `**` toggles bold, `__` toggles
    /// underline, `*` toggles italic; everything else is literal text.
    pub fn from_markdown(input: &str) -> (st: StyledText)
        ensures
            runs_model(st.runs@) == markdown_runs(input@),
    {
        let n: usize = input.unicode_len();
        let mut runs: Vec<TextRun> = Vec::new();
        let mut buffer: String = String::new();
        let mut style: StyleFlags = StyleFlags::plain();
        let mut i: usize = 0;
        proof {
            assert(runs_model(runs@) =~= Seq::<(Seq<char>, StyleFlags)>::empty());
        }
        while i < n
            invariant
                n == input@.len(),
                i <= n,
                markdown_runs(input@) == parse_markdown_from(
                    input@,
                    i as int,
                    style,
                    buffer@,
                    runs_model(runs@),
                ),
            decreases n - i,
        {
            let c: char = input.get_char(i);
            let mut matched: bool = false;
            if i + 1 < n {
                let c2: char = input.get_char(i + 1);
                if c == '*' && c2 == '*' {
                    flush_run(&mut runs, &mut buffer, style);
                    style.bold = !style.bold;
                    i = i + 2;
                    matched = true;
                } else if c == '_' && c2 == '_' {
                    flush_run(&mut runs, &mut buffer, style);
                    style.underline = !style.underline;
                    i = i + 2;
                    matched = true;
                }
            }
            if !matched {
                if c == '*' {
                    flush_run(&mut runs, &mut buffer, style);
                    style.italic = !style.italic;
                    i = i + 1;
                } else {
                    push_char(&mut buffer, c);
                    i = i + 1;
                }
            }
        }
        flush_run(&mut runs, &mut buffer, style);
        StyledText { runs }
    }
}

/// Where a font comes from: the renderer's built-in face, or a file.
#[derive(Debug, PartialEq)]
pub enum FontSource {
    Default,
    Path(String),
}

impl Clone for FontSource {
    fn clone(&self) -> (r: Self)
        ensures
            source_model(r) == source_model(*self),
    {
        match self {
            FontSource::Default => FontSource::Default,
            FontSource::Path(p) => FontSource::Path(p.clone()),
        }
    }
}

/// What a font source means: no path for the built-in face, else the
/// file path's characters.
pub open spec fn source_model(s: FontSource) -> Option<Seq<char>> {
    match s {
        FontSource::Default => None,
        FontSource::Path(p) => Some(p@),
    }
}

/// An optional font source's meaning.
pub open spec fn opt_source_model(s: Option<FontSource>) -> Option<Option<Seq<char>>> {
    match s {
        None => None,
        Some(f) => Some(source_model(f)),
    }
}

/// A font family: a regular face plus optional bold, italic and
/// bold-italic variants.
#[derive(Debug, PartialEq)]
pub struct FontFamily {
    pub regular: FontSource,
    pub bold: Option<FontSource>,
    pub italic: Option<FontSource>,
    pub bold_italic: Option<FontSource>,
}

/// What a font family means: each of its four slots.
pub open spec fn family_model(f: FontFamily) -> (
    Option<Seq<char>>,
    Option<Option<Seq<char>>>,
    Option<Option<Seq<char>>>,
    Option<Option<Seq<char>>>,
) {
    (
        source_model(f.regular),
        opt_source_model(f.bold),
        opt_source_model(f.italic),
        opt_source_model(f.bold_italic),
    )
}

/// The font source a style resolves to: bold italic, then bold, then
/// italic, each only where present; otherwise the regular face.
pub open spec fn resolve_model(f: FontFamily, style: StyleFlags) -> Option<Seq<char>> {
    if style.bold && style.italic && f.bold_italic is Some {
        source_model(f.bold_italic.unwrap())
    } else if style.bold && f.bold is Some {
        source_model(f.bold.unwrap())
    } else if style.italic && f.italic is Some {
        source_model(f.italic.unwrap())
    } else {
        source_model(f.regular)
    }
}

fn clone_opt_source(s: &Option<FontSource>) -> (r: Option<FontSource>)
    ensures
        opt_source_model(r) == opt_source_model(*s),
{
    match s {
        None => None,
        Some(f) => Some(f.clone()),
    }
}

impl Clone for FontFamily {
    fn clone(&self) -> (r: Self)
        ensures
            family_model(r) == family_model(*self),
    {
        FontFamily {
            regular: self.regular.clone(),
            bold: clone_opt_source(&self.bold),
            italic: clone_opt_source(&self.italic),
            bold_italic: clone_opt_source(&self.bold_italic),
        }
    }
}

impl FontFamily {
    /// A family holding only the built-in regular face.
    pub fn default() -> (f: Self)
        ensures
            f.regular == FontSource::Default,
            f.bold is None && f.italic is None && f.bold_italic is None,
    {
        FontFamily { regular: FontSource::Default, bold: None, italic: None, bold_italic: None }
    }

    /// Pick the font source for a style, falling back towards the
    /// regular face.
    pub fn resolve(&self, style: StyleFlags) -> (r: &FontSource)
        ensures
            source_model(*r) == resolve_model(*self, style),
    {
        if style.bold && style.italic {
            if let Some(font) = &self.bold_italic {
                return font;
            }
        }
        if style.bold {
            if let Some(font) = &self.bold {
                return font;
            }
        }
        if style.italic {
            if let Some(font) = &self.italic {
                return font;
            }
        }
        &self.regular
    }
}

/// A block of styled text with its font family and fixed-point layout
/// metrics (thousandths of a pixel).
#[derive(Debug, PartialEq)]
pub struct TextObject {
    pub text: StyledText,
    pub font: FontFamily,
    pub font_size: i32,
    pub spacing: i32,
    pub max_width: i32,
    pub color: Color,
    pub line_spacing: i32,
}

/// What a text object means, for equality of sampled scenes.
pub open spec fn text_object_model(t: TextObject) -> (
    Seq<(Seq<char>, StyleFlags)>,
    (Option<Seq<char>>, Option<Option<Seq<char>>>, Option<Option<Seq<char>>>, Option<
        Option<Seq<char>>,
    >),
    i32,
    i32,
    i32,
    Color,
    i32,
) {
    (
        runs_model(t.text.runs@),
        family_model(t.font),
        t.font_size,
        t.spacing,
        t.max_width,
        t.color,
        t.line_spacing,
    )
}

impl Clone for TextObject {
    fn clone(&self) -> (r: Self)
        ensures
            text_object_model(r) == text_object_model(*self),
    {
        TextObject {
            text: self.text.clone(),
            font: self.font.clone(),
            font_size: self.font_size,
            spacing: self.spacing,
            max_width: self.max_width,
            color: self.color,
            line_spacing: self.line_spacing,
        }
    }
}

// ---------------------------------------------------------------------
// Tokenizing helpers for line layout: pure string work; measuring the
// pieces is the renderer's business.
// ---------------------------------------------------------------------

/// Whether a character counts as whitespace: what
/// `char::is_whitespace` returns, which depends on the character
/// alone.
pub uninterp spec fn is_space(c: char) -> bool;

/// Relies on `char::is_whitespace`: the result depends on the
/// character alone.
#[verifier::external_body]
fn char_is_space(c: char) -> (r: bool)
    ensures
        r == is_space(c),
{
    c.is_whitespace()
}

/// Splitting text at newline characters from position `i`, keeping
/// empty pieces, with the pending piece and the pieces collected so
/// far.
pub open spec fn split_newlines_from(
    cs: Seq<char>,
    i: int,
    cur: Seq<char>,
    acc: Seq<Seq<char>>,
) -> Seq<Seq<char>>
    decreases cs.len() - i,
{
    if i >= cs.len() {
        acc.push(cur)
    } else if cs[i] == '\n' {
        split_newlines_from(cs, i + 1, Seq::empty(), acc.push(cur))
    } else {
        split_newlines_from(cs, i + 1, cur.push(cs[i]), acc)
    }
}

/// The pieces of a text split at every newline, empty pieces kept.
pub open spec fn newline_pieces(cs: Seq<char>) -> Seq<Seq<char>> {
    split_newlines_from(cs, 0, Seq::empty(), Seq::empty())
}

/// Split text at every newline, keeping empty pieces.
pub fn split_newlines(text: &str) -> (r: Vec<String>)
    ensures
        strs_model(r@) == newline_pieces(text@),
{
    let n: usize = text.unicode_len();
    let mut pieces: Vec<String> = Vec::new();
    let mut cur: String = String::new();
    let mut i: usize = 0;
    proof {
        assert(strs_model(pieces@) =~= Seq::<Seq<char>>::empty());
    }
    while i < n
        invariant
            i <= n,
            n == text@.len(),
            newline_pieces(text@) == split_newlines_from(
                text@,
                i as int,
                cur@,
                strs_model(pieces@),
            ),
        decreases n - i,
    {
        let c: char = text.get_char(i);
        if c == '\n' {
            let ghost pre = strs_model(pieces@);
            let ghost curv = cur@;
            pieces.push(cur);
            cur = String::new();
            proof {
                assert(strs_model(pieces@) =~= pre.push(curv));
            }
        } else {
            push_char(&mut cur, c);
        }
        i = i + 1;
    }
    let ghost pre = strs_model(pieces@);
    let ghost curv = cur@;
    pieces.push(cur);
    proof {
        assert(strs_model(pieces@) =~= pre.push(curv));
    }
    pieces
}

/// Grouping text from position `i` into maximal runs of characters of
/// one whitespace class, with the pending group and the groups so far.
pub open spec fn split_tokens_from(
    cs: Seq<char>,
    i: int,
    cur: Seq<char>,
    cur_space: bool,
    acc: Seq<Seq<char>>,
) -> Seq<Seq<char>>
    decreases cs.len() - i,
{
    if i >= cs.len() {
        if cur.len() == 0 {
            acc
        } else {
            acc.push(cur)
        }
    } else {
        let sp = is_space(cs[i]);
        if cur.len() == 0 {
            split_tokens_from(cs, i + 1, seq![cs[i]], sp, acc)
        } else if sp == cur_space {
            split_tokens_from(cs, i + 1, cur.push(cs[i]), cur_space, acc)
        } else {
            split_tokens_from(cs, i + 1, seq![cs[i]], sp, acc.push(cur))
        }
    }
}

/// The tokens of a text: maximal runs of whitespace and of
/// non-whitespace, in order, so that their concatenation is the text.
pub open spec fn token_pieces(cs: Seq<char>) -> Seq<Seq<char>> {
    split_tokens_from(cs, 0, Seq::empty(), false, Seq::empty())
}

/// Split text into maximal runs of whitespace and of non-whitespace.
pub fn split_tokens(text: &str) -> (r: Vec<String>)
    ensures
        strs_model(r@) == token_pieces(text@),
{
    let n: usize = text.unicode_len();
    let mut tokens: Vec<String> = Vec::new();
    let mut cur: String = String::new();
    let mut cur_space: bool = false;
    let mut i: usize = 0;
    proof {
        assert(strs_model(tokens@) =~= Seq::<Seq<char>>::empty());
    }
    while i < n
        invariant
            i <= n,
            n == text@.len(),
            token_pieces(text@) == split_tokens_from(
                text@,
                i as int,
                cur@,
                cur_space,
                strs_model(tokens@),
            ),
        decreases n - i,
    {
        let c: char = text.get_char(i);
        let sp: bool = char_is_space(c);
        if cur.as_str().is_empty() {
            proof {
                assert(cur@ =~= Seq::<char>::empty());
            }
            push_char(&mut cur, c);
            cur_space = sp;
            proof {
                assert(cur@ =~= seq![text@[i as int]]);
            }
        } else if sp == cur_space {
            push_char(&mut cur, c);
        } else {
            let ghost pre = strs_model(tokens@);
            let ghost curv = cur@;
            tokens.push(cur);
            cur = String::new();
            push_char(&mut cur, c);
            cur_space = sp;
            proof {
                assert(strs_model(tokens@) =~= pre.push(curv));
                assert(cur@ =~= seq![text@[i as int]]);
            }
        }
        i = i + 1;
    }
    if !cur.as_str().is_empty() {
        let ghost pre = strs_model(tokens@);
        let ghost curv = cur@;
        tokens.push(cur);
        proof {
            assert(strs_model(tokens@) =~= pre.push(curv));
        }
    }
    tokens
}

/// Appending text to a run list: empty text adds nothing; text in the
/// style of the last run joins it; anything else opens a new run.
pub open spec fn push_run_model(
    runs: Seq<(Seq<char>, StyleFlags)>,
    style: StyleFlags,
    text: Seq<char>,
) -> Seq<(Seq<char>, StyleFlags)> {
    if text.len() == 0 {
        runs
    } else if runs.len() > 0 && runs.last().1 == style {
        runs.update(runs.len() - 1, (runs.last().0 + text, style))
    } else {
        runs.push((text, style))
    }
}

/// Append text to a run list, merging it into the last run where the
/// style matches.
pub fn push_run(runs: &mut Vec<TextRun>, style: StyleFlags, text: &str)
    ensures
        runs_model(final(runs)@) == push_run_model(runs_model(old(runs)@), style, text@),
{
    if text.is_empty() {
        return ;
    }
    let n: usize = runs.len();
    if n > 0 {
        if runs[n - 1].style == style {
            let mut last = runs.remove(n - 1);
            last.text.append(text);
            runs.push(last);
            proof {
                assert(runs_model(runs@) =~= push_run_model(
                    runs_model(old(runs)@),
                    style,
                    text@,
                ));
            }
            return ;
        }
    }
    runs.push(TextRun { text: text.to_owned(), style });
    proof {
        assert(runs_model(runs@) =~= push_run_model(runs_model(old(runs)@), style, text@));
    }
}

} // verus!
