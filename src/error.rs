use vstd::prelude::*;

use crate::text::{chars_of, decimal, push_all, push_decimal, push_str, string_of};

verus! {

/// A position inside a source file.
#[derive(Debug, Clone, Default, PartialEq, Eq)]
pub struct Span {
    pub file: String,
    pub line: u32,
    pub col: u32,
    /// Byte offset from the start of the file in UTF-8 (useful for IDE integrations).
    pub offset: usize,
}

impl Span {
    pub fn new(file: String, line: u32, col: u32, offset: usize) -> (r: Span)
        ensures
            r.file@ == file@,
            r.line == line,
            r.col == col,
            r.offset == offset,
    {
        Span { file, line, col, offset }
    }

    /// A field-by-field copy.
    pub fn duplicate(&self) -> (r: Span)
        ensures
            r.file@ == self.file@,
            r.line == self.line,
            r.col == self.col,
            r.offset == self.offset,
    {
        Span { file: self.file.clone(), line: self.line, col: self.col, offset: self.offset }
    }

    /// A placeholder span for generated nodes that have no source location.
    pub fn synthetic() -> (r: Span)
        ensures
            r.is_synthetic(),
    {
        Span { file: String::new(), line: 0, col: 0, offset: 0 }
    }

    pub open spec fn is_synthetic(&self) -> bool {
        self.file@.len() == 0 && self.line == 0 && self.col == 0 && self.offset == 0
    }
}

} // verus!

verus! {

/// The closed set of diagnostics. Stage errors that point into the source
/// carry a span; the others carry a message only.
#[allow(non_camel_case_types)]
#[derive(Debug)]
pub enum tsukiError {
    Lex { msg: String, span: Span },
    Parse { msg: String, span: Span },
    Type { msg: String, span: Span },
    Codegen(String),
    /// A source read or output write failed.
    Io(String),
    /// Configuration data could not be read.
    Config(String),
    Other(String),
}

impl tsukiError {
    pub fn lex(span: Span, msg: String) -> (r: tsukiError)
        ensures
            r == (tsukiError::Lex { msg, span }),
    {
        tsukiError::Lex { msg, span }
    }

    pub fn parse(span: Span, msg: String) -> (r: tsukiError)
        ensures
            r == (tsukiError::Parse { msg, span }),
    {
        tsukiError::Parse { msg, span }
    }

    pub fn type_(span: Span, msg: String) -> (r: tsukiError)
        ensures
            r == (tsukiError::Type { msg, span }),
    {
        tsukiError::Type { msg, span }
    }

    pub fn codegen(msg: String) -> (r: tsukiError)
        ensures
            r == tsukiError::Codegen(msg),
    {
        tsukiError::Codegen(msg)
    }

    pub fn other(msg: String) -> (r: tsukiError)
        ensures
            r == tsukiError::Other(msg),
    {
        tsukiError::Other(msg)
    }

    /// The span of a diagnostic that points into the source.
    pub open spec fn spec_span(&self) -> Option<Span> {
        match self {
            tsukiError::Lex { span, .. } => Some(*span),
            tsukiError::Parse { span, .. } => Some(*span),
            tsukiError::Type { span, .. } => Some(*span),
            _ => None,
        }
    }

    /// Returns the source span when there is one.
    pub fn span(&self) -> (r: Option<&Span>)
        ensures
            r is Some <==> self.spec_span() is Some,
            r is Some ==> *r->0 == self.spec_span()->0,
    {
        match self {
            tsukiError::Lex { span, .. } => Some(span),
            tsukiError::Parse { span, .. } => Some(span),
            tsukiError::Type { span, .. } => Some(span),
            _ => None,
        }
    }
}

} // verus!

verus! {

/// `file:line:col`, or `line:col` when the span names no file.
pub open spec fn span_text(s: Span) -> Seq<char> {
    let tail = decimal(s.line as nat) + seq![':'] + decimal(s.col as nat);
    if s.file@.len() == 0 {
        tail
    } else {
        s.file@ + seq![':'] + tail
    }
}

/// The one-line text of a diagnostic.
pub open spec fn error_text(e: tsukiError) -> Seq<char> {
    match e {
        tsukiError::Lex { msg, span } => "[lex]   "@ + span_text(span) + "  "@ + msg@,
        tsukiError::Parse { msg, span } => "[parse] "@ + span_text(span) + "  "@ + msg@,
        tsukiError::Type { msg, span } => "[type]  "@ + span_text(span) + "  "@ + msg@,
        tsukiError::Codegen(m) => "[codegen] "@ + m@,
        tsukiError::Io(m) => "[io] "@ + m@,
        tsukiError::Config(m) => "[config] "@ + m@,
        tsukiError::Other(m) => m@,
    }
}

/// Index of the first line break at or after `i`, or the length when there is none.
pub open spec fn line_end(s: Seq<char>, i: int) -> int
    decreases s.len() - i,
{
    if i < 0 || i >= s.len() {
        s.len() as int
    } else if s[i] == '\n' {
        i
    } else {
        line_end(s, i + 1)
    }
}

/// Line `n` (0-based) of the text starting at `i`, as `str::lines` gives it: without its
/// line break and without a `\r` that precedes one; empty when there is no such line.
pub open spec fn nth_line_from(s: Seq<char>, i: int, n: nat) -> Seq<char>
    decreases n,
{
    let e = line_end(s, i);
    if n == 0 {
        if i >= s.len() {
            Seq::empty()
        } else if e < s.len() && e > i && s[e - 1] == '\r' {
            s.subrange(i, e - 1)
        } else {
            s.subrange(i, e)
        }
    } else if e >= s.len() {
        Seq::empty()
    } else {
        nth_line_from(s, e + 1, (n - 1) as nat)
    }
}

pub open spec fn spaces(n: nat) -> Seq<char> {
    Seq::new(n, |i: int| ' ')
}

/// A number right-aligned in a field of three characters.
pub open spec fn pad3(d: Seq<char>) -> Seq<char> {
    if d.len() < 3 {
        spaces((3 - d.len()) as nat) + d
    } else {
        d
    }
}

/// The caret-pointed rendering of a diagnostic against its source text.
pub open spec fn pretty_text(e: tsukiError, source: Seq<char>) -> Seq<char> {
    match e.spec_span() {
        None => error_text(e),
        Some(sp) => "error: "@ + error_text(e) + "\n  --> "@ + span_text(sp) + "\n   |\n"@
            + pad3(decimal(sp.line as nat)) + "| "@ + nth_line_from(
            source,
            0,
            if sp.line == 0 { 0nat } else { (sp.line - 1) as nat },
        ) + "\n   | "@ + spaces(if sp.col == 0 { 0nat } else { (sp.col - 1) as nat }) + "^\n"@,
    }
}

pub(crate) fn push_span(out: &mut Vec<char>, s: &Span)
    ensures
        final(out)@ == old(out)@ + span_text(*s),
{
    let ghost start = out@;
    if !s.file.as_str().is_empty() {
        push_str(out, s.file.as_str());
        out.push(':');
    }
    push_decimal(out, s.line as u64);
    out.push(':');
    push_decimal(out, s.col as u64);
    proof {
        if s.file@.len() == 0 {
            assert(out@ =~= start + span_text(*s));
        } else {
            assert(out@ =~= start + span_text(*s));
        }
    }
}

fn push_spaces(out: &mut Vec<char>, n: u32)
    ensures
        final(out)@ == old(out)@ + spaces(n as nat),
{
    let ghost start = out@;
    let mut i: u32 = 0;
    while i < n
        invariant
            i <= n,
            out@ == start + spaces(i as nat),
        decreases n - i,
    {
        out.push(' ');
        i += 1;
        assert(out@ =~= start + spaces(i as nat));
    }
}

/// The line with 0-based index `n` of `source`, as `str::lines` gives it.
fn nth_line(source: &Vec<char>, n: u32) -> (r: Vec<char>)
    ensures
        r@ == nth_line_from(source@, 0, n as nat),
{
    let ghost s = source@;
    let mut i: usize = 0;
    let mut k: u32 = n;
    loop
        invariant
            i <= s.len(),
            s == source@,
            k <= n,
            nth_line_from(s, 0, n as nat) == nth_line_from(s, i as int, k as nat),
        decreases k,
    {
        let mut e: usize = i;
        while e < source.len() && source[e] != '\n'
            invariant
                i <= e <= s.len(),
                s == source@,
                line_end(s, i as int) == line_end(s, e as int),
            decreases s.len() - e,
        {
            e += 1;
        }
        if k == 0 {
            if i >= source.len() {
                return Vec::new();
            }
            let mut stop = e;
            if e < source.len() && e > i && source[e - 1] == '\r' {
                stop = e - 1;
            }
            let mut out: Vec<char> = Vec::new();
            let mut j: usize = i;
            while j < stop
                invariant
                    i <= j <= stop,
                    stop <= s.len(),
                    s == source@,
                    out@ == s.subrange(i as int, j as int),
                decreases stop - j,
            {
                out.push(source[j]);
                j += 1;
                assert(out@ =~= s.subrange(i as int, j as int));
            }
            return out;
        }
        if e >= source.len() {
            return Vec::new();
        }
        i = e + 1;
        k = k - 1;
    }
}

impl Span {
    /// `file:line:col`, or `line:col` when the span names no file.
    pub fn to_string(&self) -> (r: String)
        ensures
            r@ == span_text(*self),
    {
        let mut v: Vec<char> = Vec::new();
        push_span(&mut v, self);
        assert(v@ =~= span_text(*self));
        string_of(&v)
    }
}

impl tsukiError {
    fn push_text(&self, out: &mut Vec<char>)
        ensures
            final(out)@ == old(out)@ + error_text(*self),
    {
        let ghost start = out@;
        match self {
            tsukiError::Lex { msg, span } => {
                push_str(out, "[lex]   ");
                push_span(out, span);
                push_str(out, "  ");
                push_str(out, msg.as_str());
            },
            tsukiError::Parse { msg, span } => {
                push_str(out, "[parse] ");
                push_span(out, span);
                push_str(out, "  ");
                push_str(out, msg.as_str());
            },
            tsukiError::Type { msg, span } => {
                push_str(out, "[type]  ");
                push_span(out, span);
                push_str(out, "  ");
                push_str(out, msg.as_str());
            },
            tsukiError::Codegen(m) => {
                push_str(out, "[codegen] ");
                push_str(out, m.as_str());
            },
            tsukiError::Io(m) => {
                push_str(out, "[io] ");
                push_str(out, m.as_str());
            },
            tsukiError::Config(m) => {
                push_str(out, "[config] ");
                push_str(out, m.as_str());
            },
            tsukiError::Other(m) => {
                push_str(out, m.as_str());
            },
        }
        assert(out@ =~= start + error_text(*self));
    }

    /// The one-line text of the diagnostic.
    pub fn to_string(&self) -> (r: String)
        ensures
            r@ == error_text(*self),
    {
        let mut v: Vec<char> = Vec::new();
        self.push_text(&mut v);
        assert(v@ =~= error_text(*self));
        string_of(&v)
    }

    /// Renders the diagnostic with the offending source line and a caret under its column.
    pub fn pretty(&self, source: &str) -> (r: String)
        ensures
            r@ == pretty_text(*self, source@),
    {
        match self.span() {
            None => self.to_string(),
            Some(sp) => {
                let mut v: Vec<char> = Vec::new();
                push_str(&mut v, "error: ");
                self.push_text(&mut v);
                push_str(&mut v, "\n  --> ");
                push_span(&mut v, sp);
                push_str(&mut v, "\n   |\n");
                let mut num: Vec<char> = Vec::new();
                push_decimal(&mut num, sp.line as u64);
                if num.len() < 3 {
                    push_spaces(&mut v, (3 - num.len()) as u32);
                }
                push_all(&mut v, &num);
                push_str(&mut v, "| ");
                let src = chars_of(source);
                let idx: u32 = if sp.line == 0 { 0 } else { sp.line - 1 };
                let line = nth_line(&src, idx);
                push_all(&mut v, &line);
                push_str(&mut v, "\n   | ");
                push_spaces(&mut v, if sp.col == 0 { 0 } else { sp.col - 1 });
                push_str(&mut v, "^\n");
                assert(num@ =~= decimal(sp.line as nat));
                assert(v@ =~= pretty_text(*self, source@));
                string_of(&v)
            },
        }
    }
}

} // verus!
