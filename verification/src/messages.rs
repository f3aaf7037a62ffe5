//! Messages that a program sends to its display, and what each one says.

use crate::decimal::{signed_decimal, to_signed_decimal};
use vstd::prelude::*;
use vstd::string::*;

verus! {

/// A colour in one of two models.
pub enum Color {
    Rgb(i32, i32, i32),
    Hsv(i32, i32, i32),
}

/// A message with the colour given as three numbers.
pub enum Message {
    Quit,
    Move { x: i32, y: i32 },
    Write(String),
    ChangeColor(i32, i32, i32),
}

/// A message with the colour given in a model.
pub enum Message2 {
    Quit,
    Move { x: i32, y: i32 },
    Write(String),
    ChangeColor(Color),
}

/// Numbers in brackets, with commas between them.
pub open spec fn bracketed(numbers: Seq<int>) -> Seq<char> {
    "("@ + listed(numbers) + ")"@
}

/// Numbers with commas between them.
pub open spec fn listed(numbers: Seq<int>) -> Seq<char>
    decreases numbers.len(),
{
    if numbers.len() == 0 {
        Seq::empty()
    } else if numbers.len() == 1 {
        signed_decimal(numbers[0])
    } else {
        listed(numbers.drop_last()) + ", "@ + signed_decimal(numbers.last())
    }
}

/// Writes two numbers in brackets after `before`.
pub fn with_pair(before: &str, x: i32, y: i32) -> (line: String)
    ensures
        line@ == before@ + bracketed(seq![x as int, y as int]),
{
    let mut line = before.to_string();
    line.append("(");
    line.append(to_signed_decimal(x).as_str());
    line.append(", ");
    line.append(to_signed_decimal(y).as_str());
    line.append(")");
    proof {
        reveal_with_fuel(listed, 3);
    }
    line
}

/// Writes three numbers in brackets after `before`.
pub fn with_triple(before: &str, a: i32, b: i32, c: i32) -> (line: String)
    ensures
        line@ == before@ + bracketed(seq![a as int, b as int, c as int]),
{
    let mut line = before.to_string();
    line.append("(");
    line.append(to_signed_decimal(a).as_str());
    line.append(", ");
    line.append(to_signed_decimal(b).as_str());
    line.append(", ");
    line.append(to_signed_decimal(c).as_str());
    line.append(")");
    proof {
        reveal_with_fuel(listed, 4);
    }
    line
}

/// The line that tells where a point is.
pub fn location_line(point: &(i32, i32)) -> (line: String)
    ensures
        line@ == "current location: "@ + bracketed(seq![point.0 as int, point.1 as int]),
{
    with_pair("current location: ", point.0, point.1)
}

impl Message {
    /// What the message says.
    pub open spec fn says(self) -> Seq<char> {
        match self {
            Message::Quit => "quit"@,
            Message::Move { x, y } => "move to "@ + bracketed(seq![x as int, y as int]),
            Message::Write(text) => "write "@ + text@,
            Message::ChangeColor(r, g, b) => "change color to "@ + bracketed(seq![r as int, g as int, b as int]),
        }
    }

    /// What the message says.
    pub fn describe(&self) -> (line: String)
        ensures
            line@ == self.says(),
    {
        match self {
            Message::Quit => "quit".to_string(),
            Message::Move { x, y } => with_pair("move to ", *x, *y),
            Message::Write(text) => {
                let mut line = "write ".to_string();
                line.append(text.as_str());
                line
            },
            Message::ChangeColor(r, g, b) => with_triple("change color to ", *r, *g, *b),
        }
    }

    /// The same message with the colour, if it has one, read as RGB.
    pub fn with_model(self) -> (m: Message2)
        ensures
            m == match self {
                Message::Quit => Message2::Quit,
                Message::Move { x, y } => Message2::Move { x, y },
                Message::Write(text) => Message2::Write(text),
                Message::ChangeColor(r, g, b) => Message2::ChangeColor(Color::Rgb(r, g, b)),
            },
    {
        match self {
            Message::Quit => Message2::Quit,
            Message::Move { x, y } => Message2::Move { x, y },
            Message::Write(text) => Message2::Write(text),
            Message::ChangeColor(r, g, b) => Message2::ChangeColor(Color::Rgb(r, g, b)),
        }
    }
}

impl Message2 {
    /// What a change of colour says; other messages say nothing.
    pub open spec fn says(self) -> Option<Seq<char>> {
        match self {
            Message2::ChangeColor(Color::Rgb(r, g, b)) => Some(
                "change color to rgb"@ + bracketed(seq![r as int, g as int, b as int]),
            ),
            Message2::ChangeColor(Color::Hsv(h, s, v)) => Some(
                "change color to hsv"@ + bracketed(seq![h as int, s as int, v as int]),
            ),
            _ => None,
        }
    }

    /// What a change of colour says; other messages say nothing.
    pub fn describe(&self) -> (line: Option<String>)
        ensures
            match line {
                Some(line) => self.says() == Some(line@),
                None => self.says() is None,
            },
    {
        match self {
            Message2::ChangeColor(Color::Rgb(r, g, b)) => Some(with_triple("change color to rgb", *r, *g, *b)),
            Message2::ChangeColor(Color::Hsv(h, s, v)) => Some(with_triple("change color to hsv", *h, *s, *v)),
            _ => None,
        }
    }
}

} // verus!
