//! A screen of components that each know how to draw themselves.

use crate::decimal::{decimal, to_decimal};
use vstd::prelude::*;
use vstd::string::*;

verus! {

/// A thing that can be drawn: it says in one line what it looks like.
pub trait Draw {
    /// The line that `draw` makes.
    spec fn depiction(&self) -> Seq<char>;

    /// Draws the thing.
    fn draw(&self) -> (line: String)
        ensures
            line@ == self.depiction(),
    ;
}

/// A button.
pub struct Button {
    pub width: u32,
    pub height: u32,
    pub label: String,
}

/// What `{:?}` makes of a text: the text in quotes, with the characters
/// that need it escaped.
pub uninterp spec fn quoted(text: Seq<char>) -> Seq<char>;

/// A text as the standard library's `Debug` formatting of a `str` writes
/// it, by `format!` with `{:?}`. The contract only gives the result its
/// name.
#[verifier::external_body]
fn debug_text(text: &str) -> (shown: String)
    ensures
        shown@ == quoted(text@),
{
    format!("{:?}", text)
}

/// The texts of a list, each in quotes, with commas between them.
pub open spec fn quoted_items(texts: Seq<Seq<char>>) -> Seq<char>
    decreases texts.len(),
{
    if texts.len() == 0 {
        Seq::empty()
    } else if texts.len() == 1 {
        quoted(texts[0])
    } else {
        quoted_items(texts.drop_last()) + ", "@ + quoted(texts.last())
    }
}

/// A list of texts as it is shown: the quoted items in square brackets.
pub open spec fn debug_list(texts: Seq<Seq<char>>) -> Seq<char> {
    "["@ + quoted_items(texts) + "]"@
}

/// The views of a list of texts.
pub open spec fn views(texts: Seq<String>) -> Seq<Seq<char>> {
    texts.map_values(|t: String| t@)
}

/// Shows a list of texts: each in quotes, with commas between them, in
/// square brackets.
pub fn format_list(texts: &Vec<String>) -> (line: String)
    ensures
        line@ == debug_list(views(texts@)),
{
    let mut line = "[".to_string();
    let mut i: usize = 0;
    while i < texts.len()
        invariant
            i <= texts@.len(),
            line@ == "["@ + quoted_items(views(texts@).take(i as int)),
        decreases texts.len() - i,
    {
        let ghost upto = views(texts@).take(i + 1);
        proof {
            assert(upto.drop_last() =~= views(texts@).take(i as int));
        }
        if i > 0 {
            line.append(", ");
        }
        line.append(debug_text(texts[i].as_str()).as_str());
        i = i + 1;
    }
    proof {
        assert(views(texts@).take(i as int) =~= views(texts@));
    }
    line.append("]");
    line
}

/// A box to choose one of several options from.
pub struct SelectBox {
    pub width: u32,
    pub height: u32,
    pub options: Vec<String>,
}

/// The start of every depiction: the kind of thing and its size.
pub open spec fn sized(kind: Seq<char>, width: u32, height: u32) -> Seq<char> {
    kind + " draw, width: "@ + decimal(width as nat) + ", height: "@ + decimal(height as nat)
}

/// The start of every depiction: the kind of thing and its size.
pub fn draw_sized(kind: &str, width: u32, height: u32) -> (line: String)
    ensures
        line@ == sized(kind@, width, height),
{
    let mut line = kind.to_string();
    line.append(" draw, width: ");
    line.append(to_decimal(width as usize).as_str());
    line.append(", height: ");
    line.append(to_decimal(height as usize).as_str());
    line
}

impl Draw for Button {
    open spec fn depiction(&self) -> Seq<char> {
        sized("button"@, self.width, self.height) + ", label: "@ + self.label@
    }

    fn draw(&self) -> (line: String) {
        let mut line = draw_sized("button", self.width, self.height);
        line.append(", label: ");
        line.append(self.label.as_str());
        line
    }
}

impl Draw for SelectBox {
    open spec fn depiction(&self) -> Seq<char> {
        sized("select box"@, self.width, self.height) + ", options: "@ + debug_list(views(self.options@))
    }

    fn draw(&self) -> (line: String) {
        let mut line = draw_sized("select box", self.width, self.height);
        line.append(", options: ");
        line.append(format_list(&self.options).as_str());
        line
    }
}

/// A screen: components of any kinds, drawn in order.
pub struct Screen {
    pub components: Vec<Box<dyn Draw>>,
}

impl Screen {
    /// Draws every component, in order, and returns the lines.
    pub fn run(&self) -> (lines: Vec<String>)
        ensures
            lines@.len() == self.components@.len(),
            forall|i: int| 0 <= i < lines@.len() ==> (#[trigger] lines@[i])@ == self.components@[i].depiction(),
    {
        let mut lines: Vec<String> = Vec::new();
        let mut i: usize = 0;
        while i < self.components.len()
            invariant
                i <= self.components@.len(),
                lines@.len() == i,
                forall|j: int| 0 <= j < i ==> (#[trigger] lines@[j])@ == self.components@[j].depiction(),
            decreases self.components.len() - i,
        {
            let line = self.components[i].draw();
            lines.push(line);
            i = i + 1;
        }
        lines
    }
}

} // verus!
