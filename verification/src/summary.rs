//! Things that can be summed up in a line.

use vstd::prelude::*;
use vstd::string::*;

verus! {

/// A thing with an author that can be summed up. Every implementation
/// writes both lines; one without a summary of its own hands out
/// [`read_more`].
pub trait Summary {
    /// What `summarize_author` says.
    spec fn author_line(&self) -> Seq<char>;

    /// What `summarize` says.
    spec fn summary_line(&self) -> Seq<char>;

    /// The summary.
    fn summarize(&self) -> (line: String)
        ensures
            line@ == self.summary_line(),
    ;

    /// The author, as a handle.
    fn summarize_author(&self) -> (line: String)
        ensures
            line@ == self.author_line(),
    ;
}

/// The summary of a thing that has none of its own.
pub open spec fn default_summary() -> Seq<char> {
    "(Read more...)"@
}

/// The summary of a thing that has none of its own.
pub fn read_more() -> (line: String)
    ensures
        line@ == default_summary(),
{
    "(Read more...)".to_string()
}

/// The handle of an author.
pub fn handle_of(name: &str) -> (line: String)
    ensures
        line@ == "@"@ + name@,
{
    let mut line = "@".to_string();
    line.append(name);
    line
}

/// A news article.
pub struct NewsArticle {
    pub headline: String,
    pub location: String,
    pub author: String,
    pub content: String,
}

impl Summary for NewsArticle {
    open spec fn author_line(&self) -> Seq<char> {
        "@"@ + self.author@
    }

    open spec fn summary_line(&self) -> Seq<char> {
        self.headline@ + ", by "@ + self.author@ + " ("@ + self.location@ + ")"@
    }

    fn summarize(&self) -> (line: String) {
        let mut line = self.headline.clone();
        line.append(", by ");
        line.append(self.author.as_str());
        line.append(" (");
        line.append(self.location.as_str());
        line.append(")");
        line
    }

    fn summarize_author(&self) -> (line: String) {
        handle_of(self.author.as_str())
    }
}

/// A short message.
pub struct Tweet {
    pub username: String,
    pub content: String,
    pub reply: bool,
    pub retweet: bool,
}

impl Summary for Tweet {
    open spec fn author_line(&self) -> Seq<char> {
        "@"@ + self.username@
    }

    open spec fn summary_line(&self) -> Seq<char> {
        self.username@ + ": "@ + self.content@
    }

    fn summarize(&self) -> (line: String) {
        let mut line = self.username.clone();
        line.append(": ");
        line.append(self.content.as_str());
        line
    }

    fn summarize_author(&self) -> (line: String) {
        handle_of(self.username.as_str())
    }
}

/// News whose summary is the default one.
pub struct NewsContent {
    pub headline: String,
    pub location: String,
    pub author: String,
    pub content: String,
}

impl Summary for NewsContent {
    open spec fn author_line(&self) -> Seq<char> {
        "@"@ + self.author@
    }

    open spec fn summary_line(&self) -> Seq<char> {
        default_summary()
    }

    fn summarize(&self) -> (line: String) {
        read_more()
    }

    fn summarize_author(&self) -> (line: String) {
        handle_of(self.author.as_str())
    }
}

/// The line that announces a summary.
pub fn notice<T: Summary>(item: &T) -> (line: String)
    ensures
        line@ == "Breaking news! "@ + item.summary_line(),
{
    let mut line = "Breaking news! ".to_string();
    line.append(item.summarize().as_str());
    line
}

/// Something that can be summed up: a message by `horse_ebooks`.
pub fn returns_summarizable() -> (item: impl Summary)
    ensures
        item.summary_line() == "horse_ebooks"@ + ": "@ + "of course, as you probably already know, people"@,
        item.author_line() == "@"@ + "horse_ebooks"@,
{
    Tweet {
        username: "horse_ebooks".to_string(),
        content: "of course, as you probably already know, people".to_string(),
        reply: false,
        retweet: false,
    }
}

} // verus!
