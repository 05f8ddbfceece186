//! The document container model: a document is an ordered sequence of lines,
//! a line an ordered sequence of styled runs, a run an immutable pair of
//! decoded text and the style it carries.

use vstd::prelude::*;

use crate::style::Style;

verus! {

/// A maximal contiguous span of decoded text sharing one style snapshot.
#[derive(Clone, Debug, PartialEq, Eq)]
pub struct Run {
    pub text: String,
    pub style: Style,
}

impl View for Run {
    type V = (Seq<char>, Style);

    open spec fn view(&self) -> (Seq<char>, Style) {
        (self.text@, self.style)
    }
}

impl Run {
    /// A run of the given text carrying the given style.
    pub fn styled(text: String, style: Style) -> (r: Run)
        ensures
            r@ == (text@, style),
    {
        Run { text, style }
    }
}

/// One row of the document; may hold no runs at all (a blank source line).
#[derive(Clone, Debug, PartialEq, Eq)]
pub struct Line {
    pub runs: Vec<Run>,
}

impl View for Line {
    type V = Seq<(Seq<char>, Style)>;

    open spec fn view(&self) -> Seq<(Seq<char>, Style)> {
        self.runs@.map_values(|r: Run| r@)
    }
}

impl Line {
    /// A line made of the given runs, in order.
    pub fn from_runs(runs: Vec<Run>) -> (l: Line)
        ensures
            l@ == runs@.map_values(|r: Run| r@),
            l.runs@ == runs@,
    {
        Line { runs }
    }

    /// A line with no runs.
    pub fn empty() -> (l: Line)
        ensures
            l@ == Seq::<(Seq<char>, Style)>::empty(),
            l.runs@ == Seq::<Run>::empty(),
    {
        let l = Line { runs: Vec::new() };
        proof {
            assert(l@ =~= Seq::<(Seq<char>, Style)>::empty());
        }
        l
    }
}

/// The complete ordered output of a conversion: its lines in source order.
#[derive(Clone, Debug, PartialEq, Eq)]
pub struct Document {
    pub lines: Vec<Line>,
}

impl View for Document {
    type V = Seq<Seq<(Seq<char>, Style)>>;

    open spec fn view(&self) -> Seq<Seq<(Seq<char>, Style)>> {
        self.lines@.map_values(|l: Line| l@)
    }
}

impl Document {
    /// A document made of the given lines, in order.
    pub fn from_lines(lines: Vec<Line>) -> (d: Document)
        ensures
            d@ == lines@.map_values(|l: Line| l@),
            d.lines@ == lines@,
    {
        Document { lines }
    }
}

} // verus!
