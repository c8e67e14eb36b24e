//! Colored output: ANSI escapes on a terminal, plain text otherwise.
use vstd::prelude::*;
use vstd::string::*;

verus! {

/// Content wrapped in an opening and a closing escape sequence.
pub struct Painted<T> {
    open: &'static str,
    close: &'static str,
    content: T,
}

impl<T> Painted<T> {
    /// The escape sequence before the content.
    pub fn open(&self) -> (r: &'static str)
        ensures
            r@ == self.open_spec(),
    {
        self.open
    }

    /// The escape sequence after the content.
    pub fn close(&self) -> (r: &'static str)
        ensures
            r@ == self.close_spec(),
    {
        self.close
    }

    /// The content.
    pub fn content(&self) -> (r: &T)
        ensures
            *r == self.content_spec(),
    {
        &self.content
    }

    /// The escape sequence before the content.
    pub closed spec fn open_spec(&self) -> Seq<char> {
        self.open@
    }

    /// The escape sequence after the content.
    pub closed spec fn close_spec(&self) -> Seq<char> {
        self.close@
    }

    /// The content.
    pub closed spec fn content_spec(&self) -> T {
        self.content
    }
}

/// The escape sequences used for output.
pub struct Painter {
    red: &'static str,
    green: &'static str,
    red_bold: &'static str,
    yellow_bold: &'static str,
    reset: &'static str,
}

/// The escape sequences of a painter.
pub struct PainterView {
    pub red: Seq<char>,
    pub green: Seq<char>,
    pub red_bold: Seq<char>,
    pub yellow_bold: Seq<char>,
    pub reset: Seq<char>,
}

impl View for Painter {
    type V = PainterView;

    closed spec fn view(&self) -> PainterView {
        PainterView {
            red: self.red@,
            green: self.green@,
            red_bold: self.red_bold@,
            yellow_bold: self.yellow_bold@,
            reset: self.reset@,
        }
    }
}

/// A painter that adds nothing.
pub open spec fn plain_view() -> PainterView {
    PainterView { red: ""@, green: ""@, red_bold: ""@, yellow_bold: ""@, reset: ""@ }
}

/// A painter with the ANSI escapes for red, green, bold red, bold yellow
/// and reset.
pub open spec fn ansi_view() -> PainterView {
    PainterView {
        red: "\x1b[31m"@,
        green: "\x1b[32m"@,
        red_bold: "\x1b[31;1m"@,
        yellow_bold: "\x1b[33;1m"@,
        reset: "\x1b[0m"@,
    }
}

impl Painter {
    /// A painter that adds nothing.
    pub fn empty() -> (r: Self)
        ensures
            r@ == plain_view(),
    {
        Self { red: "", green: "", red_bold: "", yellow_bold: "", reset: "" }
    }

    /// A painter with ANSI escapes.
    pub fn ansi() -> (r: Self)
        ensures
            r@ == ansi_view(),
    {
        Self {
            red: "\x1b[31m",
            green: "\x1b[32m",
            red_bold: "\x1b[31;1m",
            yellow_bold: "\x1b[33;1m",
            reset: "\x1b[0m",
        }
    }

    /// `content` in green, for success.
    pub fn good<T>(&self, content: T) -> (r: Painted<T>)
        ensures
            r.open_spec() == self@.green,
            r.close_spec() == self@.reset,
            r.content_spec() == content,
    {
        Painted { open: self.green, close: self.reset, content }
    }

    /// `content` in red, for failure.
    pub fn bad<T>(&self, content: T) -> (r: Painted<T>)
        ensures
            r.open_spec() == self@.red,
            r.close_spec() == self@.reset,
            r.content_spec() == content,
    {
        Painted { open: self.red, close: self.reset, content }
    }

    /// `content` in bold yellow, for prompts.
    pub fn emphasis<T>(&self, content: T) -> (r: Painted<T>)
        ensures
            r.open_spec() == self@.yellow_bold,
            r.close_spec() == self@.reset,
            r.content_spec() == content,
    {
        Painted { open: self.yellow_bold, close: self.reset, content }
    }

    /// The `sure-rm:` label of an error message, in bold red.
    pub fn error_label(&self) -> (r: String)
        ensures
            r@ == self@.red_bold + "sure-rm:"@ + self@.reset,
    {
        let mut s = String::from_str(self.red_bold);
        s.append("sure-rm:");
        s.append(self.reset);
        s
    }

    /// The `sure-rm:` label of a warning, in bold yellow.
    pub fn warning_label(&self) -> (r: String)
        ensures
            r@ == self@.yellow_bold + "sure-rm:"@ + self@.reset,
    {
        let mut s = String::from_str(self.yellow_bold);
        s.append("sure-rm:");
        s.append(self.reset);
        s
    }
}

/// Whether output is colored: only on a terminal, and neither `NO_COLOR`
/// nor a dumb terminal says otherwise.
pub open spec fn colored(is_tty: bool, no_color: bool, term_is_dumb: bool) -> bool {
    is_tty && !no_color && !term_is_dumb
}

/// Whether output is colored (see [`colored`]).
pub fn use_color(is_tty: bool, no_color: bool, term_is_dumb: bool) -> (r: bool)
    ensures
        r == colored(is_tty, no_color, term_is_dumb),
{
    is_tty && !no_color && !term_is_dumb
}

/// The painter for an output stream: ANSI escapes when colors are used.
pub fn painter_for(is_tty: bool, no_color: bool, term_is_dumb: bool) -> (r: Painter)
    ensures
        r@ == (if colored(is_tty, no_color, term_is_dumb) {
            ansi_view()
        } else {
            plain_view()
        }),
{
    if use_color(is_tty, no_color, term_is_dumb) {
        Painter::ansi()
    } else {
        Painter::empty()
    }
}

/// Output that is not a terminal, or where `NO_COLOR` is set or the
/// terminal is dumb, carries no escape at all; a terminal without either is
/// colored, with non-empty escapes.
pub proof fn law_color_only_on_plain_terminals(is_tty: bool, no_color: bool, term_is_dumb: bool)
    ensures
        !is_tty ==> !colored(is_tty, no_color, term_is_dumb),
        no_color ==> !colored(is_tty, no_color, term_is_dumb),
        term_is_dumb ==> !colored(is_tty, no_color, term_is_dumb),
        is_tty && !no_color && !term_is_dumb ==> colored(is_tty, no_color, term_is_dumb),
        plain_view().red.len() == 0 && plain_view().green.len() == 0 && plain_view().red_bold.len()
            == 0 && plain_view().yellow_bold.len() == 0 && plain_view().reset.len() == 0,
        ansi_view().red.len() > 0 && ansi_view().green.len() > 0 && ansi_view().red_bold.len() > 0
            && ansi_view().yellow_bold.len() > 0 && ansi_view().reset.len() > 0,
{
    reveal_strlit("");
    reveal_strlit("\x1b[31m");
    reveal_strlit("\x1b[32m");
    reveal_strlit("\x1b[31;1m");
    reveal_strlit("\x1b[33;1m");
    reveal_strlit("\x1b[0m");
}

} // verus!
