//! A blog post on its way from draft to publication.

use vstd::prelude::*;
use vstd::string::*;

verus! {

/// Where a post stands.
#[derive(Clone, Copy, Debug, PartialEq, Eq, Structural)]
pub enum PostState {
    Draft,
    PendingReview,
    Published,
}

/// A post. Text can be added to a draft and to a published post, which
/// then is a draft again; a draft goes to review, a post in review is
/// published when approved; only a published post shows its text.
pub struct Post {
    state: PostState,
    content: String,
}

impl PostState {
    /// The state after text was added.
    pub open spec fn after_text(self) -> PostState {
        match self {
            PostState::PendingReview => PostState::PendingReview,
            _ => PostState::Draft,
        }
    }

    /// The state after a review was asked for.
    pub open spec fn after_request(self) -> PostState {
        match self {
            PostState::Draft => PostState::PendingReview,
            other => other,
        }
    }

    /// The state after an approval.
    pub open spec fn after_approval(self) -> PostState {
        match self {
            PostState::PendingReview => PostState::Published,
            other => other,
        }
    }
}

impl Post {
    /// Where the post stands.
    pub closed spec fn state(&self) -> PostState {
        self.state
    }

    /// All the text that was added.
    pub closed spec fn text(&self) -> Seq<char> {
        self.content@
    }

    /// What the post shows: its text once published, nothing before.
    pub open spec fn shown(&self) -> Seq<char> {
        if self.state() is Published {
            self.text()
        } else {
            Seq::empty()
        }
    }

    /// A new draft without text.
    pub fn new() -> (post: Post)
        ensures
            post.state() == PostState::Draft,
            post.text() == Seq::<char>::empty(),
    {
        Post { state: PostState::Draft, content: String::new() }
    }

    /// Where the post stands.
    pub fn status(&self) -> (s: PostState)
        ensures
            s == self.state(),
    {
        self.state
    }

    /// What the post shows.
    pub fn content(&self) -> (shown: &str)
        ensures
            shown@ == self.shown(),
    {
        match self.state {
            PostState::Published => self.content.as_str(),
            _ => {
                let nothing = "";
                proof {
                    reveal_strlit("");
                }
                nothing
            },
        }
    }

    /// Adds text. A post in review takes none.
    pub fn add_text(&mut self, content: &str)
        ensures
            final(self).state() == old(self).state().after_text(),
            final(self).text() == if old(self).state() is PendingReview {
                old(self).text()
            } else {
                old(self).text() + content@
            },
    {
        match self.state {
            PostState::PendingReview => {},
            _ => {
                self.content.append(content);
                self.state = PostState::Draft;
            },
        }
    }

    /// Asks for a review of a draft.
    pub fn request_review(&mut self)
        ensures
            final(self).state() == old(self).state().after_request(),
            final(self).text() == old(self).text(),
    {
        match self.state {
            PostState::Draft => {
                self.state = PostState::PendingReview;
            },
            _ => {},
        }
    }

    /// Approves a post in review.
    pub fn approve(&mut self)
        ensures
            final(self).state() == old(self).state().after_approval(),
            final(self).text() == old(self).text(),
    {
        match self.state {
            PostState::PendingReview => {
                self.state = PostState::Published;
            },
            _ => {},
        }
    }
}

} // verus!
