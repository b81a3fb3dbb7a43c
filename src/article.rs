//! The records exchanged with clients: submissions and the metadata of stored articles.

use vstd::prelude::*;
use vstd::string::StringExecFns;

verus! {

/// All the metadata about an article in the library.
#[derive(Clone, Debug, Default)]
pub struct ArticleMetadata {
    /// The ID of the article.
    pub id: String,
    /// The title of the article.
    pub title: String,
    /// How long the article's audio plays, in whole seconds, if known.
    pub duration: Option<u64>,
    /// When the article was added to the library, in seconds since the Unix epoch.
    pub datetime_added: Option<u64>,
    /// The URL the article was taken from, if any.
    pub source_url: Option<String>,
}

/// A library catalog is a list of article metadata.
#[derive(Debug)]
pub struct LibraryCatalog(pub Vec<ArticleMetadata>);

/// A client's submission of an article's raw text.
#[derive(Debug)]
pub struct ArticleTextSubmission {
    pub title: String,
    pub body: String,
}

/// A client's submission of just an article's URL.
#[derive(Debug)]
pub struct ArticleUrlSubmission {
    pub url: String,
}

/// The text that is spoken for a submission: its title as a sentence, then its body.
pub open spec fn spoken_text(title: Seq<char>, body: Seq<char>) -> Seq<char> {
    title + seq!['.', ' '] + body
}

impl ArticleTextSubmission {
    /// The text to be spoken: the title as a first sentence, followed by the body.
    pub fn serialize(&self) -> (r: String)
        ensures
            r@ == spoken_text(self.title@, self.body@),
    {
        let mut r = self.title.clone();
        let sep = ". ";
        r.append(sep);
        r.append(self.body.as_str());
        proof {
            reveal_strlit(". ");
        }
        r
    }
}

} // verus!
