//! What a command has to say, line by line.
use vstd::prelude::*;

verus! {

/// One line, with what it is.
#[derive(Debug)]
pub enum Line {
    Blank,
    /// A line that stands for itself.
    Plain(String),
    Heading(String),
    Success(String),
    Warn(String),
    Failure(String),
    Info(String),
    Hint(String),
    /// A label and its value.
    Field(String, String),
}

#[verifier::ext_equal]
pub enum LineView {
    Blank,
    Plain(Seq<char>),
    Heading(Seq<char>),
    Success(Seq<char>),
    Warn(Seq<char>),
    Failure(Seq<char>),
    Info(Seq<char>),
    Hint(Seq<char>),
    Field(Seq<char>, Seq<char>),
}

impl View for Line {
    type V = LineView;

    open spec fn view(&self) -> LineView {
        match self {
            Line::Blank => LineView::Blank,
            Line::Plain(t) => LineView::Plain(t@),
            Line::Heading(t) => LineView::Heading(t@),
            Line::Success(t) => LineView::Success(t@),
            Line::Warn(t) => LineView::Warn(t@),
            Line::Failure(t) => LineView::Failure(t@),
            Line::Info(t) => LineView::Info(t@),
            Line::Hint(t) => LineView::Hint(t@),
            Line::Field(label, value) => LineView::Field(label@, value@),
        }
    }
}

pub open spec fn line_list(lines: Seq<Line>) -> Seq<LineView> {
    Seq::new(lines.len(), |i: int| lines[i]@)
}

/// The lines of a command, in order.
#[derive(Debug)]
pub struct Report {
    pub lines: Vec<Line>,
}

impl View for Report {
    type V = Seq<LineView>;

    open spec fn view(&self) -> Seq<LineView> {
        line_list(self.lines@)
    }
}

/// One line, where a condition holds.
pub open spec fn line_if(condition: bool, line: LineView) -> Seq<LineView> {
    if condition {
        seq![line]
    } else {
        Seq::<LineView>::empty()
    }
}

impl Report {
    pub fn new() -> (r: Report)
        ensures
            r@ == Seq::<LineView>::empty(),
    {
        let r = Report { lines: Vec::new() };
        assert(r@ =~= Seq::<LineView>::empty());
        r
    }

    /// A report of one line.
    pub fn of(line: Line) -> (r: Report)
        ensures
            r@ == seq![line@],
    {
        let mut r = Report::new();
        r.line(line);
        assert(r@ =~= seq![line@]);
        r
    }

    pub fn line(&mut self, line: Line)
        ensures
            final(self)@ == old(self)@.push(line@),
    {
        let ghost before = self@;
        self.lines.push(line);
        assert(self@ =~= before.push(line@));
    }

    /// The lines of another report, after these.
    pub fn append(&mut self, other: Report)
        ensures
            final(self)@ == old(self)@ + other@,
    {
        let ghost before = self@;
        let mut other = other;
        let ghost added = other@;
        self.lines.append(&mut other.lines);
        assert(self@ =~= before + added);
    }

    pub fn blank(&mut self)
        ensures
            final(self)@ == old(self)@.push(LineView::Blank),
    {
        self.line(Line::Blank);
    }

    pub fn plain(&mut self, text: &str)
        ensures
            final(self)@ == old(self)@.push(LineView::Plain(text@)),
    {
        self.line(Line::Plain(text.to_owned()));
    }

    pub fn heading(&mut self, text: &str)
        ensures
            final(self)@ == old(self)@.push(LineView::Heading(text@)),
    {
        self.line(Line::Heading(text.to_owned()));
    }

    pub fn success(&mut self, text: &str)
        ensures
            final(self)@ == old(self)@.push(LineView::Success(text@)),
    {
        self.line(Line::Success(text.to_owned()));
    }

    pub fn warn(&mut self, text: &str)
        ensures
            final(self)@ == old(self)@.push(LineView::Warn(text@)),
    {
        self.line(Line::Warn(text.to_owned()));
    }

    pub fn failure(&mut self, text: &str)
        ensures
            final(self)@ == old(self)@.push(LineView::Failure(text@)),
    {
        self.line(Line::Failure(text.to_owned()));
    }

    pub fn info(&mut self, text: &str)
        ensures
            final(self)@ == old(self)@.push(LineView::Info(text@)),
    {
        self.line(Line::Info(text.to_owned()));
    }

    pub fn hint(&mut self, text: &str)
        ensures
            final(self)@ == old(self)@.push(LineView::Hint(text@)),
    {
        self.line(Line::Hint(text.to_owned()));
    }

    pub fn field(&mut self, label: &str, value: &str)
        ensures
            final(self)@ == old(self)@.push(LineView::Field(label@, value@)),
    {
        self.line(Line::Field(label.to_owned(), value.to_owned()));
    }
}

} // verus!
