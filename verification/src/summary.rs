//! Summaries of pieces of content, for an aggregator.

use vstd::prelude::*;

verus! {

/// Something that can describe itself in one line.
///
/// `spec_summary` says, per implementor, what that line is; `summarize`
/// produces exactly it.
pub trait Summary {
    /// The characters the summary must consist of.
    spec fn spec_summary(&self) -> Seq<char>;

    /// Produce the one-line summary.
    fn summarize(&self) -> (s: String)
        ensures
            s@ == self.spec_summary(),
    ;
}

/// A news article.
pub struct NewsArticle {
    pub headline: String,
    pub location: String,
    pub author: String,
    pub content: String,
}

impl Summary for NewsArticle {
    open spec fn spec_summary(&self) -> Seq<char> {
        self.headline@ + ", by "@ + self.author@ + " ("@ + self.location@ + ")"@
    }

    fn summarize(&self) -> (s: String) {
        let mut s = self.headline.clone();
        s.append(", by ");
        s.append(self.author.as_str());
        s.append(" (");
        s.append(self.location.as_str());
        s.append(")");
        s
    }
}

/// A tweet.
pub struct Tweet {
    pub username: String,
    pub content: String,
    pub reply: bool,
    pub retweet: bool,
}

impl Summary for Tweet {
    open spec fn spec_summary(&self) -> Seq<char> {
        self.username@ + ": "@ + self.content@
    }

    fn summarize(&self) -> (s: String) {
        let mut s = self.username.clone();
        s.append(": ");
        s.append(self.content.as_str());
        s
    }
}

} // verus!
